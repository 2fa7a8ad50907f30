//! HTML escaping and percent-encoding, done by the `html-escape` and
//! `percent-encoding` crates, with what they compute stated as spec
//! functions.
use vstd::prelude::*;
use vstd::utf8::*;
use crate::text::digit_char;

verus! {

/// What HTML text escaping makes of one character.
pub open spec fn text_entity(c: char) -> Seq<char> {
    if c == '&' {
        "&amp;"@
    } else if c == '<' {
        "&lt;"@
    } else if c == '>' {
        "&gt;"@
    } else {
        seq![c]
    }
}

/// `s` with `&`, `<` and `>` replaced by their entities.
pub open spec fn escape_text(s: Seq<char>) -> Seq<char>
    decreases s.len(),
{
    if s.len() == 0 {
        Seq::empty()
    } else {
        escape_text(s.drop_last()) + text_entity(s.last())
    }
}

/// What escaping for a double-quoted attribute makes of one character.
pub open spec fn attribute_entity(c: char) -> Seq<char> {
    if c == '"' {
        "&quot;"@
    } else {
        text_entity(c)
    }
}

/// `s` with `&`, `<`, `>` and `"` replaced by their entities.
pub open spec fn escape_attribute(s: Seq<char>) -> Seq<char>
    decreases s.len(),
{
    if s.len() == 0 {
        Seq::empty()
    } else {
        escape_attribute(s.drop_last()) + attribute_entity(s.last())
    }
}

/// `html_escape::encode_text`: replaces `&`, `<` and `>` by `&amp;`, `&lt;`
/// and `&gt;` and keeps every other character.
#[verifier::external_body]
pub(crate) fn encode_text(s: &str) -> (r: String)
    ensures
        r@ == escape_text(s@),
{
    html_escape::encode_text(s).into_owned()
}

/// `html_escape::encode_double_quoted_attribute`: replaces `&`, `<`, `>` and
/// `"` by `&amp;`, `&lt;`, `&gt;` and `&quot;` and keeps every other
/// character.
#[verifier::external_body]
pub(crate) fn encode_double_quoted_attribute(s: &str) -> (r: String)
    ensures
        r@ == escape_attribute(s@),
{
    html_escape::encode_double_quoted_attribute(s).into_owned()
}

/// Whether a byte is an ASCII letter or digit.
pub open spec fn is_ascii_alphanumeric(b: u8) -> bool {
    (48 <= b <= 57) || (65 <= b <= 90) || (97 <= b <= 122)
}

/// The upper-case hexadecimal digit for `n < 16`.
pub open spec fn hex_digit(n: nat) -> char {
    if n < 10 {
        digit_char(n)
    } else {
        ('A' as nat + n - 10) as char
    }
}

/// What percent-encoding of everything but ASCII letters and digits makes of
/// one byte.
pub open spec fn percent_encode_byte(b: u8) -> Seq<char> {
    if is_ascii_alphanumeric(b) {
        seq![b as char]
    } else {
        seq!['%', hex_digit(b as nat / 16), hex_digit(b as nat % 16)]
    }
}

/// `bytes` with every byte but ASCII letters and digits written as `%XX`.
pub open spec fn percent_encoded(bytes: Seq<u8>) -> Seq<char>
    decreases bytes.len(),
{
    if bytes.len() == 0 {
        Seq::empty()
    } else {
        percent_encode_byte(bytes[0]) + percent_encoded(bytes.drop_first())
    }
}

/// `percent_encoding::utf8_percent_encode` with the set `NON_ALPHANUMERIC`,
/// written out to a `String`: each byte of the UTF-8 encoding of `s` that is
/// not an ASCII letter or digit becomes `%` and two upper-case hexadecimal
/// digits; letters and digits stay.
#[verifier::external_body]
pub(crate) fn percent_encode_component(s: &str) -> (r: String)
    ensures
        r@ == percent_encoded(encode_utf8(s@)),
{
    percent_encoding::utf8_percent_encode(s, percent_encoding::NON_ALPHANUMERIC).to_string()
}

/// The value of a hexadecimal digit byte (either case).
pub open spec fn hex_value(b: u8) -> Option<nat> {
    if 48 <= b <= 57 {
        Some((b - 48) as nat)
    } else if 65 <= b <= 70 {
        Some((b - 55) as nat)
    } else if 97 <= b <= 102 {
        Some((b - 87) as nat)
    } else {
        None
    }
}

/// `bytes` with each `%` followed by two hexadecimal digits replaced by the
/// byte they name; every other byte stays.
pub open spec fn percent_decoded(bytes: Seq<u8>) -> Seq<u8>
    decreases bytes.len(),
{
    if bytes.len() == 0 {
        Seq::empty()
    } else if bytes.len() >= 3 && bytes[0] == 37 && hex_value(bytes[1]) is Some && hex_value(
        bytes[2],
    ) is Some {
        seq![(hex_value(bytes[1])->0 * 16 + hex_value(bytes[2])->0) as u8] + percent_decoded(
            bytes.skip(3),
        )
    } else {
        seq![bytes[0]] + percent_decoded(bytes.drop_first())
    }
}

/// `percent_encoding::percent_decode_str(s).decode_utf8()`: the
/// percent-decoded bytes of `s` as text when they are valid UTF-8, and
/// nothing when they are not.
#[verifier::external_body]
pub(crate) fn percent_decode_utf8(s: &str) -> (r: Option<String>)
    ensures
        match r {
            Some(t) => valid_utf8(percent_decoded(encode_utf8(s@))) && t@ == decode_utf8(
                percent_decoded(encode_utf8(s@)),
            ),
            None => !valid_utf8(percent_decoded(encode_utf8(s@))),
        },
{
    match percent_encoding::percent_decode_str(s).decode_utf8() {
        Ok(text) => Some(text.into_owned()),
        Err(_) => None,
    }
}

} // verus!
