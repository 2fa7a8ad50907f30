//! The HTML pages the daemon serves: the page frame, the home page with the
//! recently opened files, a rendered document, and error pages.
use vstd::prelude::*;
use crate::escape::{encode_double_quoted_attribute, encode_text, escape_attribute, escape_text};
use crate::markdown::{document_parts, render_markdown};
use crate::paths::{file_name, path_file_name};
use crate::text::{decimal, decimal_string, lossy_string, utf8_lossy};
use crate::url::{href_of, path_href};

verus! {

pub const PAGE_BEFORE_TITLE: &'static str = "<!doctype html><html lang=\"en\"><head><meta charset=\"utf-8\"><meta name=\"viewport\" content=\"width=device-width,initial-scale=1\"><title>";

pub const PAGE_AFTER_TITLE: &'static str = "</title><link rel=\"icon\" href=\"data:image/svg+xml,%3Csvg xmlns='http://www.w3.org/2000/svg' viewBox='0 0 64 64'%3E%3Crect width='64' height='64' rx='14' fill='%231f2328'/%3E%3Ctext x='32' y='41' text-anchor='middle' fill='white' font-family='monospace' font-size='25' font-weight='700'%3EM%E2%86%93%3C/text%3E%3C/svg%3E\"><link rel=\"stylesheet\" href=\"/assets/style.css\">\n</head><body>";

pub const PAGE_END: &'static str = "</body></html>";

pub const HOME_BEFORE_LIST: &'static str = "<div class=\"home-shell\">\n<header class=\"home-header\"><a class=\"brand\" href=\"/\"><span class=\"brand-mark\">M↓</span><span><strong>mdv</strong><small>Local Markdown Viewer</small></span></a></header>\n<main class=\"home-main\"><section class=\"hero\"><p>Pass a local file to <code>mdv</code>.</p><pre><code>mdv README.md          # start the daemon if needed and open the file\nmdv                    # open the recently-viewed page\nmdv --start            # explicitly start the daemon\nmdv --stop             # stop it\nmdv --start --port 9000</code></pre></section>\n<section class=\"recent-section\"><div class=\"section-heading\"><div><p class=\"eyebrow\">Library</p><h2>Recently opened</h2></div><span>Up to 30 files</span></div><ul class=\"recent\">";

pub const HOME_AFTER_LIST: &'static str = "</ul></section></main>\n<footer class=\"home-footer\"><span>mdv 0.1.0</span><a href=\"https://github.com/hogelog/mdv\">GitHub</a><span>Data: ";

pub const HOME_AFTER_DATA: &'static str = "</span><span>Bound to 127.0.0.1:";

pub const HOME_END: &'static str = "</span></footer></div>";

pub const DOCUMENT_BEFORE_TITLE: &'static str = "<header class=\"document-header\"><a class=\"document-brand\" href=\"/\">mdv</a><span class=\"document-path\" title=\"";

pub const DOCUMENT_AFTER_TITLE: &'static str = "\">";

pub const DOCUMENT_AFTER_PATH: &'static str = "</span></header><div class=\"wrap\"><nav class=\"toc\"><div class=\"toctitle\">Contents</div>";

pub const DOCUMENT_AFTER_TOC: &'static str = "</nav><main>";

pub const DOCUMENT_END: &'static str = "</main></div>";

/// The title of the home page.
pub const HOME_TITLE: &'static str = "mdv — Local Markdown Viewer";

/// The title of an error page.
pub const ERROR_TITLE: &'static str = "mdv error";

/// A whole HTML page: the head with the escaped title, the icon and the
/// stylesheet link, then `body`.
pub open spec fn page_html(title: Seq<char>, body: Seq<char>) -> Seq<char> {
    PAGE_BEFORE_TITLE@ + escape_text(title) + PAGE_AFTER_TITLE@ + body + PAGE_END@
}

/// A whole HTML page with the given title and body (see `page_html`).
pub fn page(title: &str, body: &str) -> (r: String)
    ensures
        r@ == page_html(title@, body@),
{
    let mut r = String::from_str(PAGE_BEFORE_TITLE);
    let t = encode_text(title);
    r.append(t.as_str());
    r.append(PAGE_AFTER_TITLE);
    r.append(body);
    r.append(PAGE_END);
    r
}

/// The canonical reason phrase of an HTTP status code, or
/// `<unknown status code>` when it has none.
pub uninterp spec fn status_reason(code: u16) -> Seq<char>;

/// `StatusCode::from_u16(code)` shown with `Display`: the code in decimal, a
/// space, and its reason phrase (left to the name `status_reason`).
#[verifier::external_body]
fn status_line(code: u16) -> (r: String)
    requires
        100 <= code <= 999,
    ensures
        r@ == decimal(code as nat) + " "@ + status_reason(code),
{
    match axum::http::StatusCode::from_u16(code) {
        Ok(status) => status.to_string(),
        Err(_) => String::new(),
    }
}

/// The body of the error page for a status and a message.
pub open spec fn error_body(code: u16, message: Seq<char>) -> Seq<char> {
    "<main><h1>"@ + decimal(code as nat) + " "@ + status_reason(code) + "</h1><p>"@ + escape_text(
        message,
    ) + "</p></main>"@
}

/// The error page headed with the status line `status` (code and reason)
/// and showing `message`.
pub fn error_document(status: &str, message: &str) -> (r: String)
    ensures
        r@ == page_html(
            ERROR_TITLE@,
            "<main><h1>"@ + status@ + "</h1><p>"@ + escape_text(message@) + "</p></main>"@,
        ),
{
    let mut body = String::from_str("<main><h1>");
    body.append(status);
    body.append("</h1><p>");
    let m = encode_text(message);
    body.append(m.as_str());
    body.append("</p></main>");
    page(ERROR_TITLE, body.as_str())
}

/// The error page for an HTTP status and a message.
pub fn error_page(code: u16, message: &str) -> (r: String)
    requires
        100 <= code <= 999,
    ensures
        r@ == page_html(ERROR_TITLE@, error_body(code, message@)),
{
    let status = status_line(code);
    error_document(status.as_str(), message)
}

/// The file name of a path, or nothing.
pub open spec fn name_or_empty(p: Seq<u8>) -> Seq<u8> {
    match file_name(p) {
        Some(n) => n,
        None => Seq::empty(),
    }
}

/// The entry of the home page for a recently opened file: a link to it,
/// its file name and its whole path.
pub open spec fn home_item(p: Seq<u8>) -> Seq<char> {
    "<li><a href=\""@ + href_of(utf8_lossy(p)) + "\"><strong>"@ + escape_text(
        utf8_lossy(name_or_empty(p)),
    ) + "</strong><small>"@ + escape_text(utf8_lossy(p)) + "</small></a></li>"@
}

/// The entries of the home page for the files, in order.
pub open spec fn home_items(ps: Seq<Seq<u8>>) -> Seq<char>
    decreases ps.len(),
{
    if ps.len() == 0 {
        Seq::empty()
    } else {
        home_items(ps.drop_last()) + home_item(ps.last())
    }
}

/// The list of the home page: the files' entries, or a note that there are
/// none yet.
pub open spec fn home_list(ps: Seq<Seq<u8>>) -> Seq<char> {
    if ps.len() == 0 {
        "<li class=\"empty\">No recently opened files yet.</li>"@
    } else {
        home_items(ps)
    }
}

/// The home page: the recently opened files (those that still exist), where
/// the data lives, and the port the daemon is bound to.
pub open spec fn home_html(files: Seq<Seq<u8>>, config_dir: Seq<u8>, port: u16) -> Seq<char> {
    page_html(
        HOME_TITLE@,
        HOME_BEFORE_LIST@ + home_list(files) + HOME_AFTER_LIST@ + escape_text(
            utf8_lossy(config_dir),
        ) + HOME_AFTER_DATA@ + decimal(port as nat) + HOME_END@,
    )
}

/// The views of a sequence of byte vectors.
pub open spec fn byte_vec_views(vs: Seq<Vec<u8>>) -> Seq<Seq<u8>> {
    vs.map_values(|v: Vec<u8>| v@)
}

/// The home page (see `home_html`); `files` are the existing files of the
/// history, most recent first.
pub fn home_page(files: &[Vec<u8>], config_dir: &[u8], port: u16) -> (r: String)
    ensures
        r@ == home_html(byte_vec_views(files@), config_dir@, port),
{
    let ghost ps = byte_vec_views(files@);
    let mut list = String::new();
    let mut i: usize = 0;
    while i < files.len()
        invariant
            i <= files@.len(),
            ps == byte_vec_views(files@),
            list@ == home_items(ps.take(i as int)),
        decreases files@.len() - i,
    {
        assert(ps.take(i + 1).drop_last() == ps.take(i as int));
        assert(ps[i as int] == files@[i as int]@);
        let p = files[i].as_slice();
        let text = lossy_string(p);
        let name_bytes = match path_file_name(p) {
            Some(n) => n,
            None => Vec::new(),
        };
        assert(name_bytes@ == name_or_empty(p@));
        let name = lossy_string(name_bytes.as_slice());
        list.append("<li><a href=\"");
        let href = path_href(text.as_str());
        list.append(href.as_str());
        list.append("\"><strong>");
        let n = encode_text(name.as_str());
        list.append(n.as_str());
        list.append("</strong><small>");
        let t = encode_text(text.as_str());
        list.append(t.as_str());
        list.append("</small></a></li>");
        i = i + 1;
    }
    assert(ps.take(files@.len() as int) == ps);
    if files.len() == 0 {
        list = String::from_str("<li class=\"empty\">No recently opened files yet.</li>");
    }
    let mut body = String::from_str(HOME_BEFORE_LIST);
    body.append(list.as_str());
    body.append(HOME_AFTER_LIST);
    let dir = lossy_string(config_dir);
    let d = encode_text(dir.as_str());
    body.append(d.as_str());
    body.append(HOME_AFTER_DATA);
    let digits = decimal_string(port as u64);
    body.append(digits.as_str());
    body.append(HOME_END);
    page(HOME_TITLE, body.as_str())
}

/// The page of a rendered Markdown document at `path`: titled with its file
/// name, headed with its path, the table of contents beside the body.
pub open spec fn document_html(path: Seq<u8>, source: Seq<char>) -> Seq<char> {
    let shown = utf8_lossy(path);
    let (body, toc) = document_parts(source);
    page_html(
        utf8_lossy(name_or_empty(path)),
        DOCUMENT_BEFORE_TITLE@ + escape_attribute(shown) + DOCUMENT_AFTER_TITLE@ + escape_text(
            shown,
        ) + DOCUMENT_AFTER_PATH@ + toc + DOCUMENT_AFTER_TOC@ + body + DOCUMENT_END@,
    )
}

/// The page of the Markdown document at `path` whose text is `source` (see
/// `document_html`).
pub fn document_page(path: &[u8], source: &str) -> (r: String)
    ensures
        r@ == document_html(path@, source@),
{
    let (body, toc) = render_markdown(source);
    let name_bytes = match path_file_name(path) {
        Some(n) => n,
        None => Vec::new(),
    };
    let title = lossy_string(name_bytes.as_slice());
    let shown = lossy_string(path);
    let mut content = String::from_str(DOCUMENT_BEFORE_TITLE);
    let a = encode_double_quoted_attribute(shown.as_str());
    content.append(a.as_str());
    content.append(DOCUMENT_AFTER_TITLE);
    let t = encode_text(shown.as_str());
    content.append(t.as_str());
    content.append(DOCUMENT_AFTER_PATH);
    content.append(toc.as_str());
    content.append(DOCUMENT_AFTER_TOC);
    content.append(body.as_str());
    content.append(DOCUMENT_END);
    page(title.as_str(), content.as_str())
}

} // verus!

verus! {

/// The home page lists the files in the order given: the entries of the
/// first `k` files come before those of the rest.
pub proof fn lemma_home_items_in_order(ps: Seq<Seq<u8>>, k: int)
    requires
        0 <= k <= ps.len(),
    ensures
        home_items(ps) == home_items(ps.take(k)) + home_items(ps.skip(k)),
    decreases ps.len() - k,
{
    if k < ps.len() {
        lemma_home_items_in_order(ps, k + 1);
        assert(ps.take(k + 1).drop_last() =~= ps.take(k));
        assert(ps.take(k + 1).last() == ps[k]);
        lemma_home_items_first(ps.skip(k));
        assert(ps.skip(k).drop_first() =~= ps.skip(k + 1));
        assert(ps.skip(k)[0] == ps[k]);
    } else {
        assert(ps.take(k) =~= ps);
        assert(ps.skip(k) =~= Seq::<Seq<u8>>::empty());
    }
}

/// The home page's list begins with the entry of the first file (the most
/// recently opened), followed by the entries of the others.
pub proof fn lemma_home_items_first(ps: Seq<Seq<u8>>)
    requires
        ps.len() > 0,
    ensures
        home_items(ps) == home_item(ps[0]) + home_items(ps.drop_first()),
    decreases ps.len(),
{
    if ps.len() == 1 {
        assert(ps.drop_last() =~= Seq::<Seq<u8>>::empty());
        assert(ps.drop_first() =~= Seq::<Seq<u8>>::empty());
        assert(home_item(ps[0]) + Seq::<char>::empty() =~= home_item(ps[0]));
        assert(Seq::<char>::empty() + home_item(ps[0]) =~= home_item(ps[0]));
    } else {
        let init = ps.drop_last();
        lemma_home_items_first(init);
        assert(init[0] == ps[0]);
        assert(init.drop_first() =~= ps.drop_first().drop_last());
        assert(ps.drop_first().last() == ps.last());
        assert(home_item(ps[0]) + home_items(init.drop_first()) + home_item(ps.last()) =~= home_item(
            ps[0],
        ) + (home_items(init.drop_first()) + home_item(ps.last())));
    }
}

} // verus!
