//! Links to local files: absolute paths written as URL paths, one
//! percent-encoded segment per path segment.
use vstd::prelude::*;
use vstd::utf8::*;
use crate::escape::{
    hex_digit, hex_value, is_ascii_alphanumeric, percent_decoded, percent_encode_byte,
    percent_encode_component, percent_encoded,
};
use crate::text::{chars_of, decimal, decimal_string, lossy_string, push_char, utf8_lossy};

verus! {

/// What a path character becomes in a URL path: `/` stays, any other
/// character becomes its percent-encoded UTF-8 bytes.
pub open spec fn path_piece(c: char) -> Seq<char> {
    if c == '/' {
        seq!['/']
    } else {
        percent_encoded(encode_scalar(c as u32))
    }
}

/// A path written as a URL path: each segment percent-encoded, the `/`
/// between segments kept.
pub open spec fn encoded_path(s: Seq<char>) -> Seq<char>
    decreases s.len(),
{
    if s.len() == 0 {
        Seq::empty()
    } else {
        path_piece(s[0]) + encoded_path(s.drop_first())
    }
}

proof fn lemma_encoded_path_push(s: Seq<char>, c: char)
    ensures
        encoded_path(s.push(c)) == encoded_path(s) + path_piece(c),
    decreases s.len(),
{
    if s.len() > 0 {
        assert(s.push(c).drop_first() == s.drop_first().push(c));
        assert(s.push(c)[0] == s[0]);
        lemma_encoded_path_push(s.drop_first(), c);
        assert(encoded_path(s.push(c)) =~= path_piece(s[0]) + (encoded_path(s.drop_first())
            + path_piece(c)));
    } else {
        assert(s.push(c).drop_first() =~= Seq::<char>::empty());
        assert(s.push(c)[0] == c);
        assert(encoded_path(s.push(c).drop_first()) == Seq::<char>::empty());
        assert(encoded_path(s.push(c)) == path_piece(c) + encoded_path(s.push(c).drop_first()));
        assert(encoded_path(s.push(c)) =~= path_piece(c));
        assert(encoded_path(s) =~= Seq::<char>::empty());
    }
}

/// The UTF-8 encoding of a concatenation is the concatenation of the
/// encodings.
pub proof fn lemma_encode_utf8_concat(a: Seq<char>, b: Seq<char>)
    ensures
        encode_utf8(a + b) == encode_utf8(a) + encode_utf8(b),
    decreases a.len(),
{
    if a.len() > 0 {
        assert((a + b).drop_first() == a.drop_first() + b);
        lemma_encode_utf8_concat(a.drop_first(), b);
    } else {
        assert(a + b == b);
    }
}

proof fn lemma_percent_encoded_concat(a: Seq<u8>, b: Seq<u8>)
    ensures
        percent_encoded(a + b) == percent_encoded(a) + percent_encoded(b),
    decreases a.len(),
{
    if a.len() > 0 {
        assert((a + b).drop_first() == a.drop_first() + b);
        lemma_percent_encoded_concat(a.drop_first(), b);
    } else {
        assert(a + b == b);
    }
}

proof fn lemma_encode_utf8_push(s: Seq<char>, c: char)
    ensures
        encode_utf8(s.push(c)) == encode_utf8(s) + encode_scalar(c as u32),
{
    lemma_encode_utf8_concat(s, seq![c]);
    assert(s.push(c) == s + seq![c]);
    assert(seq![c].drop_first() =~= Seq::<char>::empty());
    assert(encode_utf8(seq![c]) =~= encode_scalar(c as u32) + encode_utf8(Seq::<char>::empty()));
    assert(encode_utf8(seq![c]) =~= encode_scalar(c as u32));
}

/// A path written as a URL path (see `encoded_path`).
pub fn encode_path(path: &str) -> (r: String)
    ensures
        r@ == encoded_path(path@),
{
    let cs = chars_of(path);
    let mut out = String::new();
    let mut part = String::new();
    let mut i: usize = 0;
    while i < cs.len()
        invariant
            i <= cs@.len(),
            encoded_path(cs@.take(i as int)) == out@ + percent_encoded(encode_utf8(part@)),
        decreases cs@.len() - i,
    {
        let c = cs[i];
        assert(cs@.take(i + 1) == cs@.take(i as int).push(c));
        proof {
            lemma_encoded_path_push(cs@.take(i as int), c);
        }
        if c == '/' {
            let encoded = percent_encode_component(part.as_str());
            out.append(encoded.as_str());
            out.append("/");
            proof {
                reveal_strlit("/");
            }
            part = String::new();
            assert(percent_encoded(encode_utf8(part@)) =~= Seq::<char>::empty());
        } else {
            let ghost before = part@;
            push_char(&mut part, c);
            proof {
                lemma_encode_utf8_push(before, c);
                lemma_percent_encoded_concat(encode_utf8(before), encode_scalar(c as u32));
            }
        }
        i = i + 1;
    }
    let encoded = percent_encode_component(part.as_str());
    out.append(encoded.as_str());
    assert(cs@.take(cs@.len() as int) == cs@);
    out
}

/// `s` without its leading `/` characters (`trim_start_matches('/')`).
pub open spec fn without_leading_slashes(s: Seq<char>) -> Seq<char>
    decreases s.len(),
{
    if s.len() > 0 && s[0] == '/' {
        without_leading_slashes(s.drop_first())
    } else {
        s
    }
}

/// The URL path of a file path: exactly one `/`, then the path without its
/// leading slashes, encoded.
pub open spec fn href_of(path: Seq<char>) -> Seq<char> {
    "/"@ + encoded_path(without_leading_slashes(path))
}

/// The URL path that serves the file at `path`.
pub fn path_href(path: &str) -> (r: String)
    ensures
        r@ == href_of(path@),
{
    let cs = chars_of(path);
    let mut k: usize = 0;
    assert(cs@.skip(0) == cs@);
    while k < cs.len() && cs[k] == '/'
        invariant
            k <= cs@.len(),
            without_leading_slashes(cs@) == without_leading_slashes(cs@.skip(k as int)),
        decreases cs@.len() - k,
    {
        assert(cs@.skip(k as int).drop_first() == cs@.skip(k + 1));
        k = k + 1;
    }
    let mut rest = String::new();
    let mut i: usize = k;
    while i < cs.len()
        invariant
            k <= i <= cs@.len(),
            rest@ == cs@.subrange(k as int, i as int),
        decreases cs@.len() - i,
    {
        push_char(&mut rest, cs[i]);
        assert(cs@.subrange(k as int, i + 1) == cs@.subrange(k as int, i as int).push(cs@[i as int]));
        i = i + 1;
    }
    assert(cs@.subrange(k as int, cs@.len() as int) == cs@.skip(k as int));
    assert(without_leading_slashes(cs@.skip(k as int)) == cs@.skip(k as int));
    let mut r = String::from_str("/");
    let encoded = encode_path(rest.as_str());
    r.append(encoded.as_str());
    r
}

/// The address of the daemon's home page on `port`.
pub open spec fn home_url_of(port: u16) -> Seq<char> {
    "http://localhost:"@ + decimal(port as nat)
}

/// The address of the daemon's home page on `port`.
pub fn home_url(port: u16) -> (r: String)
    ensures
        r@ == home_url_of(port),
{
    let mut r = String::from_str("http://localhost:");
    let digits = decimal_string(port as u64);
    r.append(digits.as_str());
    r
}

/// The address at which the daemon on `port` shows the file at `path` (its
/// bytes shown as text, invalid UTF-8 replaced).
pub fn file_url(port: u16, path: &[u8]) -> (r: String)
    ensures
        r@ == home_url_of(port) + href_of(utf8_lossy(path@)),
{
    let mut r = home_url(port);
    let text = lossy_string(path);
    let href = path_href(text.as_str());
    r.append(href.as_str());
    r
}

} // verus!

verus! {

/// The byte of the upper-case hexadecimal digit for `n < 16`.
pub open spec fn hex_byte(n: nat) -> u8 {
    if n < 10 {
        (48 + n) as u8
    } else {
        (55 + n) as u8
    }
}

/// The UTF-8 bytes of the percent-encoding of one byte.
pub open spec fn encoded_byte_bytes(b: u8) -> Seq<u8> {
    if is_ascii_alphanumeric(b) {
        seq![b]
    } else {
        seq![37u8, hex_byte(b as nat / 16), hex_byte(b as nat % 16)]
    }
}

/// The UTF-8 bytes of the percent-encoding of `bytes`.
pub open spec fn percent_encoded_bytes(bytes: Seq<u8>) -> Seq<u8>
    decreases bytes.len(),
{
    if bytes.len() == 0 {
        Seq::empty()
    } else {
        encoded_byte_bytes(bytes[0]) + percent_encoded_bytes(bytes.drop_first())
    }
}

proof fn lemma_encode_ascii_char(c: char)
    requires
        c <= '\u{7f}',
    ensures
        encode_utf8(seq![c]) == seq![c as u8],
{
    is_ascii_chars_encode_utf8(seq![c]);
    assert(encode_utf8(seq![c]) =~= seq![c as u8]);
}

proof fn lemma_encoded_byte_bytes(b: u8)
    ensures
        encode_utf8(percent_encode_byte(b)) == encoded_byte_bytes(b),
{
    let piece = percent_encode_byte(b);
    if is_ascii_alphanumeric(b) {
        assert((b as char) as u8 == b);
        lemma_encode_ascii_char(b as char);
    } else {
        let h = hex_digit(b as nat / 16);
        let l = hex_digit(b as nat % 16);
        assert(h as u8 == hex_byte(b as nat / 16));
        assert(l as u8 == hex_byte(b as nat % 16));
        assert(h <= '\u{7f}' && l <= '\u{7f}');
        is_ascii_chars_encode_utf8(piece);
        assert(encode_utf8(piece) =~= encoded_byte_bytes(b));
    }
}

proof fn lemma_percent_encoded_bytes(bytes: Seq<u8>)
    ensures
        encode_utf8(percent_encoded(bytes)) == percent_encoded_bytes(bytes),
    decreases bytes.len(),
{
    if bytes.len() > 0 {
        lemma_percent_encoded_bytes(bytes.drop_first());
        lemma_encoded_byte_bytes(bytes[0]);
        lemma_encode_utf8_concat(
            percent_encode_byte(bytes[0]),
            percent_encoded(bytes.drop_first()),
        );
    }
}

proof fn lemma_decode_encoded_byte(b: u8, rest: Seq<u8>)
    ensures
        percent_decoded(encoded_byte_bytes(b) + rest) == seq![b] + percent_decoded(rest),
{
    let s = encoded_byte_bytes(b) + rest;
    if is_ascii_alphanumeric(b) {
        assert(s[0] == b);
        assert(s.drop_first() =~= rest);
    } else {
        let hi = b as nat / 16;
        let lo = b as nat % 16;
        assert(s[0] == 37u8);
        assert(s[1] == hex_byte(hi));
        assert(s[2] == hex_byte(lo));
        assert(hex_value(hex_byte(hi)) == Some(hi));
        assert(hex_value(hex_byte(lo)) == Some(lo));
        assert(s.skip(3) =~= rest);
        assert(hi * 16 + lo == b as nat);
    }
}

proof fn lemma_decode_encoded_bytes(x: Seq<u8>, rest: Seq<u8>)
    ensures
        percent_decoded(percent_encoded_bytes(x) + rest) == x + percent_decoded(rest),
    decreases x.len(),
{
    if x.len() == 0 {
        assert(percent_encoded_bytes(x) + rest =~= rest);
        assert(x + percent_decoded(rest) =~= percent_decoded(rest));
    } else {
        lemma_decode_encoded_bytes(x.drop_first(), rest);
        let tail = percent_encoded_bytes(x.drop_first()) + rest;
        lemma_decode_encoded_byte(x[0], tail);
        assert(percent_encoded_bytes(x) + rest =~= encoded_byte_bytes(x[0]) + tail);
        assert(x =~= seq![x[0]] + x.drop_first());
    }
}

proof fn lemma_decode_encoded_path_rest(s: Seq<char>, rest: Seq<u8>)
    ensures
        percent_decoded(encode_utf8(encoded_path(s)) + rest) == encode_utf8(s) + percent_decoded(
            rest,
        ),
    decreases s.len(),
{
    if s.len() == 0 {
        assert(encode_utf8(encoded_path(s)) + rest =~= rest);
        assert(encode_utf8(s) + percent_decoded(rest) =~= percent_decoded(rest));
    } else {
        let c = s[0];
        let tail = s.drop_first();
        lemma_decode_encoded_path_rest(tail, rest);
        lemma_encode_utf8_concat(path_piece(c), encoded_path(tail));
        let r = encode_utf8(encoded_path(tail)) + rest;
        assert(encode_utf8(encoded_path(s)) + rest =~= encode_utf8(path_piece(c)) + r);
        if c == '/' {
            lemma_encode_ascii_char('/');
            assert(encode_scalar(c as u32) =~= seq![47u8]) by {
                assert(encode_utf8(seq![c]) =~= encode_scalar(c as u32) + encode_utf8(
                    seq![c].drop_first(),
                ));
                assert(seq![c].drop_first() =~= Seq::<char>::empty());
            }
            let whole = seq![47u8] + r;
            assert(whole[0] == 47u8);
            assert(whole.drop_first() =~= r);
        } else {
            lemma_percent_encoded_bytes(encode_scalar(c as u32));
            lemma_decode_encoded_bytes(encode_scalar(c as u32), r);
        }
    }
}

/// Percent-decoding the URL path of a path gives back the path's bytes: the
/// encoding loses nothing, and the daemon finds the file that a link names.
pub proof fn lemma_decode_encoded_path(s: Seq<char>)
    ensures
        percent_decoded(encode_utf8(encoded_path(s))) == encode_utf8(s),
{
    lemma_decode_encoded_path_rest(s, Seq::empty());
    assert(encode_utf8(encoded_path(s)) + Seq::<u8>::empty() =~= encode_utf8(encoded_path(s)));
    assert(encode_utf8(s) + percent_decoded(Seq::<u8>::empty()) =~= encode_utf8(s));
}

/// A link to a file begins with exactly one `/`, and the rest of it decodes
/// to the file's path without its leading slashes.
pub proof fn lemma_href_decodes(path: Seq<char>)
    ensures
        href_of(path).len() >= 1,
        href_of(path)[0] == '/',
        href_of(path).len() >= 2 ==> href_of(path)[1] != '/',
        percent_decoded(encode_utf8(href_of(path).drop_first())) == encode_utf8(
            without_leading_slashes(path),
        ),
{
    reveal_strlit("/");
    let t = without_leading_slashes(path);
    lemma_without_leading_slashes(path);
    assert(href_of(path).drop_first() =~= encoded_path(t));
    lemma_decode_encoded_path(t);
    if t.len() > 0 {
        let c = t[0];
        assert(c != '/');
        assert(encoded_path(t)[0] == path_piece(c)[0]);
        lemma_percent_encoded_nonempty_start(encode_scalar(c as u32));
    }
}

proof fn lemma_without_leading_slashes(s: Seq<char>)
    ensures
        without_leading_slashes(s).len() > 0 ==> without_leading_slashes(s)[0] != '/',
    decreases s.len(),
{
    if s.len() > 0 && s[0] == '/' {
        lemma_without_leading_slashes(s.drop_first());
    }
}

proof fn lemma_percent_encoded_nonempty_start(bytes: Seq<u8>)
    requires
        bytes.len() > 0,
    ensures
        percent_encoded(bytes).len() > 0,
        percent_encoded(bytes)[0] != '/',
{
    let p = percent_encode_byte(bytes[0]);
    assert(percent_encoded(bytes)[0] == p[0]);
}

} // verus!

verus! {

/// Whether a character may appear in a link to a file: an ASCII letter or
/// digit, `/` or `%`.
pub open spec fn link_char(c: char) -> bool {
    ('0' <= c <= '9') || ('A' <= c <= 'Z') || ('a' <= c <= 'z') || c == '/' || c == '%'
}

proof fn lemma_percent_encoded_chars(bytes: Seq<u8>)
    ensures
        forall|i: int|
            0 <= i < percent_encoded(bytes).len() ==> link_char(#[trigger] percent_encoded(bytes)[i]),
    decreases bytes.len(),
{
    if bytes.len() > 0 {
        lemma_percent_encoded_chars(bytes.drop_first());
        let p = percent_encode_byte(bytes[0]);
        let rest = percent_encoded(bytes.drop_first());
        let all = percent_encoded(bytes);
        assert(all == p + rest);
        assert forall|i: int| 0 <= i < all.len() implies link_char(#[trigger] all[i]) by {
            if i < p.len() {
                assert(all[i] == p[i]);
            } else {
                assert(all[i] == rest[i - p.len()]);
            }
        }
    }
}

proof fn lemma_encoded_path_chars(s: Seq<char>)
    ensures
        forall|i: int| 0 <= i < encoded_path(s).len() ==> link_char(#[trigger] encoded_path(s)[i]),
    decreases s.len(),
{
    if s.len() > 0 {
        lemma_encoded_path_chars(s.drop_first());
        let p = path_piece(s[0]);
        if s[0] != '/' {
            lemma_percent_encoded_chars(encode_scalar(s[0] as u32));
        }
        let rest = encoded_path(s.drop_first());
        let all = encoded_path(s);
        assert forall|i: int| 0 <= i < all.len() implies link_char(#[trigger] all[i]) by {
            if i < p.len() {
                assert(all[i] == p[i]);
            } else {
                assert(all[i] == rest[i - p.len()]);
            }
        }
    }
}

/// A link to a file holds only ASCII letters, digits, `/` and `%`, and a
/// leading `/` added to the path changes nothing.
pub proof fn lemma_href_chars(path: Seq<char>)
    ensures
        forall|i: int| 0 <= i < href_of(path).len() ==> link_char(#[trigger] href_of(path)[i]),
        href_of(seq!['/'] + path) == href_of(path),
{
    reveal_strlit("/");
    let t = without_leading_slashes(path);
    lemma_encoded_path_chars(t);
    let h = href_of(path);
    assert forall|i: int| 0 <= i < h.len() implies link_char(#[trigger] h[i]) by {
        if i > 0 {
            assert(h[i] == encoded_path(t)[i - 1]);
        }
    }
    let q = seq!['/'] + path;
    assert(q[0] == '/');
    assert(q.drop_first() =~= path);
}

} // verus!
