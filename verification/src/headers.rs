//! The security headers that every response of the daemon carries.
use vstd::prelude::*;
use vstd::utf8::*;
use axum::http::HeaderMap;

verus! {

#[verifier::external_type_specification]
#[verifier::external_body]
#[verifier::reject_recursive_types(T)]
pub struct ExHeaderMap<T>(HeaderMap<T>);

#[verifier::external_type_specification]
#[verifier::external_body]
pub struct ExHeaderValue(axum::http::HeaderValue);

/// What a header map holds: for each header name (lower case), its values'
/// bytes in order.
pub uninterp spec fn header_entries(headers: HeaderMap) -> Map<Seq<char>, Seq<Seq<u8>>>;

/// Whether `c` may stand in a header name given to `HeaderName::from_static`:
/// a lower-case letter, a digit, or one of ``!#$%&'*+-.^_`|~``.
pub open spec fn header_name_char(c: char) -> bool {
    ('a' <= c <= 'z') || ('0' <= c <= '9') || c == '!' || c == '#' || c == '$' || c == '%' || c
        == '&' || c == '\'' || c == '*' || c == '+' || c == '-' || c == '.' || c == '^' || c
        == '_' || c == '`' || c == '|' || c == '~'
}

/// Whether `HeaderName::from_static` accepts `name`.
pub open spec fn header_name_ok(name: Seq<char>) -> bool {
    0 < name.len() < 65536 && forall|i: int| 0 <= i < name.len() ==> header_name_char(#[trigger] name[i])
}

/// Whether `HeaderValue::from_static` accepts `value`: visible ASCII,
/// spaces and tabs.
pub open spec fn header_value_ok(value: Seq<char>) -> bool {
    forall|i: int| 0 <= i < value.len() ==> (' ' <= #[trigger] value[i] <= '~' || value[i] == '\t')
}

/// A number of header names below which inserting into a `HeaderMap` cannot
/// make it outgrow its largest size.
pub open spec fn header_map_room() -> nat {
    6553
}

/// How many header names a map holds, when they are finitely many.
pub open spec fn name_count(entries: Map<Seq<char>, Seq<Seq<u8>>>) -> Option<nat> {
    if entries.dom().finite() {
        Some(entries.dom().len())
    } else {
        None
    }
}

/// `headers.try_insert(HeaderName::from_static(name),
/// HeaderValue::from_static(value))`: when it succeeds, the name now has the
/// one value given and every other name keeps its values; when the map would
/// outgrow its largest size it fails and the map holds what it held. It
/// cannot fail while the map has fewer than `header_map_room()` names.
/// `from_static` panics on a name or value that `header_name_ok` or
/// `header_value_ok` refuses, so those are left out.
#[verifier::external_body]
fn try_insert_static_header(headers: &mut HeaderMap, name: &'static str, value: &'static str) -> (r: bool)
    requires
        header_name_ok(name@),
        header_value_ok(value@),
    ensures
        r ==> header_entries(*final(headers)) == header_entries(*old(headers)).insert(
            name@,
            seq![encode_utf8(value@)],
        ),
        !r ==> header_entries(*final(headers)) == header_entries(*old(headers)),
        (name_count(header_entries(*old(headers))) matches Some(n) && n < header_map_room()) ==> r,
{
    headers.try_insert(
        axum::http::header::HeaderName::from_static(name),
        axum::http::HeaderValue::from_static(value),
    ).is_ok()
}

/// The content security policy of every page: nothing may load but the
/// daemon's own stylesheet and images.
pub const CONTENT_SECURITY_POLICY: &'static str = "default-src 'none'; style-src 'self'; img-src 'self' data:; script-src 'none'; frame-src 'none'; frame-ancestors 'none'; object-src 'none'; base-uri 'none'; form-action 'none'; connect-src 'none'; font-src 'none'";

/// The names and values of the security headers, in the order they are set.
pub open spec fn security_header(k: int) -> (Seq<char>, Seq<char>) {
    if k == 0 {
        ("content-security-policy"@, CONTENT_SECURITY_POLICY@)
    } else if k == 1 {
        ("referrer-policy"@, "no-referrer"@)
    } else if k == 2 {
        ("x-content-type-options"@, "nosniff"@)
    } else {
        ("cache-control"@, "no-store"@)
    }
}

/// The headers after the first `k` security headers are set.
pub open spec fn secured_first(entries: Map<Seq<char>, Seq<Seq<u8>>>, k: int) -> Map<Seq<char>, Seq<Seq<u8>>>
    decreases k,
{
    if k <= 0 {
        entries
    } else {
        secured_first(entries, k - 1).insert(
            security_header(k - 1).0,
            seq![encode_utf8(security_header(k - 1).1)],
        )
    }
}

/// The headers after the security headers are set: the content security
/// policy, no referrer, no content sniffing, no caching.
pub open spec fn secured(entries: Map<Seq<char>, Seq<Seq<u8>>>) -> Map<Seq<char>, Seq<Seq<u8>>> {
    secured_first(entries, 4)
}

proof fn lemma_count_after_insert(m: Map<Seq<char>, Seq<Seq<u8>>>, k: Seq<char>, v: Seq<Seq<u8>>, n: nat)
    requires
        name_count(m) == Some(n),
    ensures
        name_count(m.insert(k, v)) matches Some(c) && c <= n + 1,
{
    assert(m.insert(k, v).dom() == m.dom().insert(k));
}

/// Sets the security headers of a response (see `secured`), and says
/// whether it could. Setting fails only where `HeaderMap::insert` would
/// panic, the map having reached its largest size; then the headers set
/// before stay set. With fewer than `header_map_room()` names after the four
/// it always succeeds.
pub fn apply_security_headers(headers: &mut HeaderMap) -> (r: bool)
    ensures
        r ==> header_entries(*final(headers)) == secured(header_entries(*old(headers))),
        !r ==> exists|k: int|
            0 <= k < 4 && header_entries(*final(headers)) == secured_first(
                header_entries(*old(headers)),
                k,
            ),
        (name_count(header_entries(*old(headers))) matches Some(n) && n + 4 < header_map_room())
            ==> r,
{
    let ghost m0 = header_entries(*headers);
    proof {
        reveal_strlit("content-security-policy");
        reveal_strlit(
            "default-src 'none'; style-src 'self'; img-src 'self' data:; script-src 'none'; frame-src 'none'; frame-ancestors 'none'; object-src 'none'; base-uri 'none'; form-action 'none'; connect-src 'none'; font-src 'none'",
        );
        reveal_strlit("referrer-policy");
        reveal_strlit("no-referrer");
        reveal_strlit("x-content-type-options");
        reveal_strlit("nosniff");
        reveal_strlit("cache-control");
        reveal_strlit("no-store");
        reveal_with_fuel(secured_first, 5);
    }
    if !try_insert_static_header(headers, "content-security-policy", CONTENT_SECURITY_POLICY) {
        assert(header_entries(*headers) == secured_first(m0, 0));
        return false;
    }
    proof {
        if let Some(n) = name_count(m0) {
            lemma_count_after_insert(m0, security_header(0).0, seq![encode_utf8(security_header(0).1)], n);
        }
    }
    let ghost m1 = header_entries(*headers);
    if !try_insert_static_header(headers, "referrer-policy", "no-referrer") {
        assert(header_entries(*headers) == secured_first(m0, 1));
        return false;
    }
    proof {
        if let Some(n) = name_count(m1) {
            lemma_count_after_insert(m1, security_header(1).0, seq![encode_utf8(security_header(1).1)], n);
        }
    }
    let ghost m2 = header_entries(*headers);
    if !try_insert_static_header(headers, "x-content-type-options", "nosniff") {
        assert(header_entries(*headers) == secured_first(m0, 2));
        return false;
    }
    proof {
        if let Some(n) = name_count(m2) {
            lemma_count_after_insert(m2, security_header(2).0, seq![encode_utf8(security_header(2).1)], n);
        }
    }
    if !try_insert_static_header(headers, "cache-control", "no-store") {
        assert(header_entries(*headers) == secured_first(m0, 3));
        return false;
    }
    true
}

/// Setting the security headers a second time changes nothing.
pub proof fn lemma_secured_twice(entries: Map<Seq<char>, Seq<Seq<u8>>>)
    ensures
        secured(secured(entries)) == secured(entries),
{
    reveal_with_fuel(secured_first, 5);
    assert(secured(secured(entries)) =~= secured(entries));
}

/// After the security headers are set, each of the four names holds exactly
/// its one fixed value, and every other name keeps exactly its values.
pub proof fn lemma_secured_entries(entries: Map<Seq<char>, Seq<Seq<u8>>>, name: Seq<char>)
    ensures
        forall|k: int|
            0 <= k < 4 ==> secured(entries).dom().contains(#[trigger] security_header(k).0)
                && secured(entries)[security_header(k).0] == seq![encode_utf8(security_header(k).1)],
        (forall|k: int| 0 <= k < 4 ==> name != #[trigger] security_header(k).0) ==> (secured(
            entries,
        ).dom().contains(name) == entries.dom().contains(name) && (entries.dom().contains(name)
            ==> secured(entries)[name] == entries[name])),
{
    reveal_with_fuel(secured_first, 5);
    reveal_strlit("content-security-policy");
    reveal_strlit("referrer-policy");
    reveal_strlit("x-content-type-options");
    reveal_strlit("cache-control");
    let names = seq![
        security_header(0).0,
        security_header(1).0,
        security_header(2).0,
        security_header(3).0,
    ];
    assert(names[0].len() != names[1].len() && names[0].len() != names[2].len() && names[0].len()
        != names[3].len() && names[1].len() != names[2].len() && names[1].len() != names[3].len()
        && names[2].len() != names[3].len());
    assert forall|k: int| 0 <= k < 4 implies secured(entries).dom().contains(
        #[trigger] security_header(k).0,
    ) && secured(entries)[security_header(k).0] == seq![encode_utf8(security_header(k).1)] by {
        assert(security_header(k).0 == names[k]);
    }
    if forall|k: int| 0 <= k < 4 ==> name != #[trigger] security_header(k).0 {
        assert(name != security_header(0).0);
        assert(name != security_header(1).0);
        assert(name != security_header(2).0);
        assert(name != security_header(3).0);
    }
}

} // verus!
