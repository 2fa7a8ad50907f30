//! What the daemon does with a request for a file: which file, and whether
//! it is served as an image or rendered as Markdown.
use vstd::prelude::*;
use vstd::utf8::*;
use crate::escape::{percent_decode_utf8, percent_decoded};
use crate::paths::{image_content_type, image_type};
use crate::text::push_char;
use crate::url::home_url_of;

verus! {

/// How a request for a file is answered.
#[derive(Debug, Clone, PartialEq, Eq)]
pub enum Route {
    /// The path does not decode to text.
    BadRequest,
    /// An image, served as it is with its content type.
    Image { path: Vec<u8>, content_type: &'static str },
    /// A document, rendered if it is a Markdown file.
    Document { path: Vec<u8> },
}

/// The file a request path names: `/` followed by the percent-decoded path,
/// when that is valid UTF-8.
pub open spec fn requested_file(raw: Seq<char>) -> Option<Seq<u8>> {
    let bytes = percent_decoded(encode_utf8(raw));
    if valid_utf8(bytes) {
        Some(encode_utf8(seq!['/'] + decode_utf8(bytes)))
    } else {
        None
    }
}

/// How the request for the path `raw` (what follows the first `/` of the
/// URL path) is answered.
pub fn route_request(raw: &str) -> (r: Route)
    ensures
        match requested_file(raw@) {
            None => r == Route::BadRequest,
            Some(p) => match image_type(p) {
                Some(t) => r matches Route::Image { path, content_type } && path@ == p
                    && content_type == t,
                None => r matches Route::Document { path } && path@ == p,
            },
        },
{
    let decoded = match percent_decode_utf8(raw) {
        Some(d) => d,
        None => return Route::BadRequest,
    };
    let mut text = String::new();
    push_char(&mut text, '/');
    text.append(decoded.as_str());
    assert(text@ == seq!['/'] + decoded@);
    let path = vstd::slice::slice_to_vec(text.as_str().as_bytes());
    match image_content_type(path.as_slice()) {
        Some(t) => Route::Image { path, content_type: t },
        None => Route::Document { path },
    }
}

/// What is printed once the daemon listens on `port`.
pub fn listening_message(port: u16) -> (r: String)
    ensures
        r@ == "mdv daemon listening at "@ + home_url_of(port),
{
    let mut r = String::from_str("mdv daemon listening at ");
    let url = crate::url::home_url(port);
    r.append(url.as_str());
    r
}

} // verus!

verus! {

/// A link made for an absolute path (one leading `/`) leads back to that
/// file: the daemon's request path for it names exactly its bytes.
pub proof fn lemma_link_leads_to_file(p: Seq<char>)
    requires
        p.len() > 0,
        p[0] == '/',
        p.len() > 1 ==> p[1] != '/',
    ensures
        requested_file(crate::url::href_of(p).drop_first()) == Some(encode_utf8(p)),
{
    let t = p.drop_first();
    assert(crate::url::without_leading_slashes(t) == t);
    assert(crate::url::without_leading_slashes(p) == crate::url::without_leading_slashes(t));
    crate::url::lemma_href_decodes(p);
    encode_utf8_valid_utf8(t);
    encode_utf8_decode_utf8(t);
    assert(seq!['/'] + t =~= p);
}

} // verus!
