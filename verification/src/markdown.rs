//! Markdown documents: HTML from `pulldown-cmark`, heading anchors, the
//! table of contents, and anchors added to the rendered headings.
use vstd::prelude::*;
use crate::escape::{encode_double_quoted_attribute, encode_text, escape_attribute, escape_text};
use pulldown_cmark::{Event, Options, Parser, Tag, TagEnd};
use crate::text::{chars_eq, chars_of, decimal, decimal_string, string_of};

verus! {

/// What Unicode lower-casing (`str::to_lowercase`) makes of a string.
pub uninterp spec fn unicode_lowercase(s: Seq<char>) -> Seq<char>;

/// `str::to_lowercase`; the Unicode case mapping is left to the name
/// `unicode_lowercase`.
#[verifier::external_body]
fn to_lowercase(s: &str) -> (r: String)
    ensures
        r@ == unicode_lowercase(s@),
{
    s.to_lowercase()
}

/// Whether a character is alphabetic or numeric in Unicode
/// (`char::is_alphanumeric`).
pub uninterp spec fn alphanumeric(c: char) -> bool;

/// Whether `c` is an ASCII letter or digit.
pub open spec fn ascii_alphanumeric(c: char) -> bool {
    ('0' <= c <= '9') || ('A' <= c <= 'Z') || ('a' <= c <= 'z')
}

/// `char::is_alphanumeric`. Among ASCII characters exactly the letters and
/// digits are alphanumeric; the rest of Unicode is left to the name
/// `alphanumeric`.
#[verifier::external_body]
fn is_alphanumeric(c: char) -> (r: bool)
    ensures
        r == alphanumeric(c),
        c <= '\u{7f}' ==> (r <==> ascii_alphanumeric(c)),
{
    c.is_alphanumeric()
}

/// Whether a character is kept in a heading anchor: a letter or digit
/// (`char::is_alphanumeric`, which holds of every ASCII letter and digit),
/// `_` or `-`.
pub open spec fn anchor_char(c: char) -> bool {
    ascii_alphanumeric(c) || alphanumeric(c) || c == '_' || c == '-'
}

/// The anchor built from `s` so far, and whether characters were dropped
/// since the last one kept.
pub open spec fn anchor_scan(s: Seq<char>) -> (Seq<char>, bool)
    decreases s.len(),
{
    if s.len() == 0 {
        (Seq::empty(), false)
    } else {
        let (id, dropped) = anchor_scan(s.drop_last());
        let c = s.last();
        if anchor_char(c) {
            if dropped && id.len() > 0 {
                (id.push('-').push(c), false)
            } else {
                (id.push(c), false)
            }
        } else {
            (id, true)
        }
    }
}

/// The anchor made of already lower-cased text: its letters, digits, `_`
/// and `-`, each run of other characters between kept ones written as one
/// `-`; `section` when nothing is kept.
pub open spec fn lowercase_anchor(lower: Seq<char>) -> Seq<char> {
    let id = anchor_scan(lower).0;
    if id.len() == 0 {
        "section"@
    } else {
        id
    }
}

/// The anchor of a heading with text `text`: the anchor of its lower-cased
/// text.
pub open spec fn heading_anchor(text: Seq<char>) -> Seq<char> {
    lowercase_anchor(unicode_lowercase(text))
}

proof fn lemma_anchor_scan_chars(s: Seq<char>)
    ensures
        forall|i: int|
            0 <= i < anchor_scan(s).0.len() ==> #[trigger] anchor_char(anchor_scan(s).0[i]),
    decreases s.len(),
{
    if s.len() > 0 {
        lemma_anchor_scan_chars(s.drop_last());
        let (id, dropped) = anchor_scan(s.drop_last());
        let r = anchor_scan(s).0;
        assert forall|i: int| 0 <= i < r.len() implies #[trigger] anchor_char(r[i]) by {
            if i < id.len() {
                assert(r[i] == id[i]);
            }
        }
    }
}

/// Every character of a heading anchor is alphanumeric, `_` or `-`, and an
/// anchor is never empty.
pub proof fn lemma_heading_anchor_well_formed(text: Seq<char>)
    ensures
        heading_anchor(text).len() > 0,
        forall|i: int|
            0 <= i < heading_anchor(text).len() ==> #[trigger] anchor_char(
                heading_anchor(text)[i],
            ),
{
    lemma_anchor_scan_chars(unicode_lowercase(text));
    let id = anchor_scan(unicode_lowercase(text)).0;
    if id.len() == 0 {
        reveal_strlit("section");
    }
}

proof fn lemma_anchor_scan_kept(s: Seq<char>)
    requires
        forall|i: int| 0 <= i < s.len() ==> anchor_char(#[trigger] s[i]),
    ensures
        anchor_scan(s) == (s, false),
    decreases s.len(),
{
    if s.len() > 0 {
        let init = s.drop_last();
        assert forall|i: int| 0 <= i < init.len() implies anchor_char(#[trigger] init[i]) by {
            assert(init[i] == s[i]);
        }
        lemma_anchor_scan_kept(init);
        assert(s[s.len() - 1] == s.last());
        assert(init.push(s.last()) =~= s);
    }
}

/// An anchor is its own anchor wherever lower-casing leaves it as it is.
/// Nothing is stated of `str::to_lowercase` beyond its name, so that stands
/// as the condition here.
pub proof fn lemma_heading_anchor_idempotent(text: Seq<char>)
    requires
        unicode_lowercase(heading_anchor(text)) == heading_anchor(text),
    ensures
        heading_anchor(heading_anchor(text)) == heading_anchor(text),
{
    let a = heading_anchor(text);
    lemma_heading_anchor_well_formed(text);
    lemma_anchor_scan_kept(a);
}

/// Already lower-cased text that is an anchor is its own anchor.
pub proof fn lemma_lowercase_anchor_idempotent(lower: Seq<char>)
    ensures
        lowercase_anchor(lowercase_anchor(lower)) == lowercase_anchor(lower),
{
    lemma_anchor_scan_chars(lower);
    let a = lowercase_anchor(lower);
    if anchor_scan(lower).0.len() == 0 {
        reveal_strlit("section");
    }
    lemma_anchor_scan_kept(a);
}

/// The anchor characters of already lower-cased text.
fn scan_anchor(lower: &str) -> (r: Vec<char>)
    ensures
        r@ == lowercase_anchor(lower@),
{
    let cs = chars_of(lower);
    let mut id: Vec<char> = Vec::new();
    let mut dropped = false;
    let mut i: usize = 0;
    while i < cs.len()
        invariant
            i <= cs@.len(),
            cs@ == lower@,
            anchor_scan(cs@.take(i as int)) == (id@, dropped),
        decreases cs@.len() - i,
    {
        let c = cs[i];
        assert(cs@.take(i + 1).drop_last() == cs@.take(i as int));
        if is_alphanumeric(c) || c == '_' || c == '-' {
            if dropped && id.len() > 0 {
                id.push('-');
            }
            id.push(c);
            dropped = false;
        } else {
            dropped = true;
        }
        i = i + 1;
    }
    assert(cs@.take(cs@.len() as int) == cs@);
    if id.len() == 0 {
        chars_of("section")
    } else {
        id
    }
}

/// The anchor characters of `text`.
fn anchor_chars(text: &str) -> (r: Vec<char>)
    ensures
        r@ == heading_anchor(text@),
{
    let lower = to_lowercase(text);
    scan_anchor(lower.as_str())
}

/// The anchor made of already lower-cased text (see `lowercase_anchor`):
/// what `heading_id` makes of a heading's text once it is lower-cased.
pub fn lowercase_anchor_of(lower: &str) -> (r: String)
    ensures
        r@ == lowercase_anchor(lower@),
{
    let cs = scan_anchor(lower);
    string_of(cs.as_slice())
}

/// The anchor of a heading with the given text (see `heading_anchor`).
pub fn heading_id(text: &str) -> (r: String)
    ensures
        r@ == heading_anchor(text@),
{
    let cs = anchor_chars(text);
    string_of(cs.as_slice())
}

} // verus!

verus! {

#[verifier::external_type_specification]
#[verifier::external_body]
pub struct ExEvent<'a>(Event<'a>);

/// An event of a Markdown document as `pulldown-cmark` reads it. Text, inline
/// code and raw HTML are held as text, heading boundaries with their level;
/// each of these but text, code and raw HTML also keeps the parser's own
/// event, which the HTML writer is handed back.
#[derive(Debug, PartialEq)]
pub enum MarkdownEvent {
    /// Text.
    Text(String),
    /// Inline code.
    Code(String),
    /// A line of a raw HTML block.
    Html(String),
    /// An inline raw HTML tag.
    InlineHtml(String),
    /// A heading of the given level (1 to 6) begins.
    HeadingStart(u8, Event<'static>),
    /// A heading ends.
    HeadingEnd(Event<'static>),
    /// Any other event.
    Other(Event<'static>),
}

pub enum MarkdownEventView {
    Text(Seq<char>),
    Code(Seq<char>),
    Html(Seq<char>),
    InlineHtml(Seq<char>),
    HeadingStart(u8, Event<'static>),
    HeadingEnd(Event<'static>),
    Other(Event<'static>),
}

impl View for MarkdownEvent {
    type V = MarkdownEventView;

    open spec fn view(&self) -> MarkdownEventView {
        match self {
            MarkdownEvent::Text(t) => MarkdownEventView::Text(t@),
            MarkdownEvent::Code(t) => MarkdownEventView::Code(t@),
            MarkdownEvent::Html(t) => MarkdownEventView::Html(t@),
            MarkdownEvent::InlineHtml(t) => MarkdownEventView::InlineHtml(t@),
            MarkdownEvent::HeadingStart(l, e) => MarkdownEventView::HeadingStart(*l, *e),
            MarkdownEvent::HeadingEnd(e) => MarkdownEventView::HeadingEnd(*e),
            MarkdownEvent::Other(e) => MarkdownEventView::Other(*e),
        }
    }
}

/// The events that `pulldown-cmark` reads from `source` with all its
/// extensions on.
pub uninterp spec fn parsed_markdown(source: Seq<char>) -> Seq<MarkdownEventView>;

/// The views of a sequence of events.
pub open spec fn event_views(events: Seq<MarkdownEvent>) -> Seq<MarkdownEventView> {
    events.map_values(|e: MarkdownEvent| e@)
}

/// Every heading in the events has a level from 1 to 6.
pub open spec fn heading_levels_ok(events: Seq<MarkdownEventView>) -> bool {
    forall|i: int|
        0 <= i < events.len() ==> (#[trigger] events[i] matches MarkdownEventView::HeadingStart(
            l,
            _,
        ) ==> 1 <= l <= 6)
}

/// `pulldown_cmark::Parser::new_ext(source, Options::all())`, each event
/// held as a `MarkdownEvent`. A heading level is one of the six that
/// `HeadingLevel` has; what the parser reads is left to the name
/// `parsed_markdown`.
#[verifier::external_body]
pub(crate) fn markdown_events(source: &str) -> (r: Vec<MarkdownEvent>)
    ensures
        event_views(r@) == parsed_markdown(source@) && heading_levels_ok(event_views(r@)),
{
    Parser::new_ext(source, Options::all()).map(|event| match event {
        Event::Text(text) => MarkdownEvent::Text(text.into_string()),
        Event::Code(code) => MarkdownEvent::Code(code.into_string()),
        Event::Html(html) => MarkdownEvent::Html(html.into_string()),
        Event::InlineHtml(html) => MarkdownEvent::InlineHtml(html.into_string()),
        e @ Event::Start(Tag::Heading { level, .. }) => MarkdownEvent::HeadingStart(level as u8, e.into_static()),
        e @ Event::End(TagEnd::Heading(_)) => MarkdownEvent::HeadingEnd(e.into_static()),
        e => MarkdownEvent::Other(e.into_static()),
    }).collect()
}

/// The headings finished so far (level and text), and the one being read:
/// a heading's text is its text and inline code.
pub open spec fn scan_headings(events: Seq<MarkdownEventView>) -> (Seq<(u8, Seq<char>)>, Option<(u8, Seq<char>)>)
    decreases events.len(),
{
    if events.len() == 0 {
        (Seq::empty(), None)
    } else {
        let (done, current) = scan_headings(events.drop_last());
        match events.last() {
            MarkdownEventView::HeadingStart(level, _) => (done, Some((level, Seq::empty()))),
            MarkdownEventView::HeadingEnd(_) => match current {
                Some(h) => (done.push(h), None),
                None => (done, None),
            },
            MarkdownEventView::Text(t) => match current {
                Some((level, text)) => (done, Some((level, text + t))),
                None => (done, None),
            },
            MarkdownEventView::Code(t) => match current {
                Some((level, text)) => (done, Some((level, text + t))),
                None => (done, None),
            },
            _ => (done, current),
        }
    }
}

/// How many times `b` occurs in `s`.
pub open spec fn count_of(s: Seq<Seq<char>>, b: Seq<char>) -> nat
    decreases s.len(),
{
    if s.len() == 0 {
        0
    } else {
        count_of(s.drop_last(), b) + if s.last() == b {
            1nat
        } else {
            0nat
        }
    }
}

/// The anchor for the heading whose anchor `base` was already used `n`
/// times: `base` itself the first time, then `base-1`, `base-2`, ...
pub open spec fn numbered_anchor(base: Seq<char>, n: nat) -> Seq<char> {
    if n == 0 {
        base
    } else {
        base + "-"@ + decimal(n)
    }
}

/// A heading of a document: its level, its text and its anchor.
#[derive(Debug, Clone, PartialEq, Eq)]
pub struct Heading {
    pub level: u8,
    pub text: String,
    pub id: String,
}

pub struct HeadingView {
    pub level: u8,
    pub text: Seq<char>,
    pub id: Seq<char>,
}

impl View for Heading {
    type V = HeadingView;

    open spec fn view(&self) -> HeadingView {
        HeadingView { level: self.level, text: self.text@, id: self.id@ }
    }
}

/// The views of a sequence of headings.
pub open spec fn heading_views(hs: Seq<Heading>) -> Seq<HeadingView> {
    hs.map_values(|h: Heading| h@)
}

/// The base anchors of the headings read from `events`.
pub open spec fn base_anchors(events: Seq<MarkdownEventView>) -> Seq<Seq<char>> {
    scan_headings(events).0.map_values(|h: (u8, Seq<char>)| heading_anchor(h.1))
}

/// The headings of a document, in order, each with the anchor that its text
/// gives, numbered when an earlier heading already had that anchor.
pub open spec fn headings_of(events: Seq<MarkdownEventView>) -> Seq<HeadingView> {
    let done = scan_headings(events).0;
    let bases = base_anchors(events);
    Seq::new(
        done.len(),
        |i: int|
            HeadingView {
                level: done[i].0,
                text: done[i].1,
                id: numbered_anchor(bases[i], count_of(bases.take(i), bases[i])),
            },
    )
}

proof fn lemma_count_of_grows(s: Seq<Seq<char>>, i: int, j: int)
    requires
        0 <= i < j <= s.len(),
    ensures
        count_of(s.take(j), s[i]) >= count_of(s.take(i), s[i]) + 1,
    decreases j - i,
{
    let b = s[i];
    assert(s.take(j).drop_last() == s.take(j - 1));
    if j == i + 1 {
        assert(s.take(j).last() == b);
    } else {
        lemma_count_of_grows(s, i, j - 1);
    }
}

/// Two headings whose texts give the same anchor never get the same
/// numbered anchor.
pub proof fn lemma_anchors_distinct(events: Seq<MarkdownEventView>, i: int, j: int)
    requires
        0 <= i < j < headings_of(events).len(),
        base_anchors(events)[i] == base_anchors(events)[j],
    ensures
        headings_of(events)[i].id != headings_of(events)[j].id,
{
    let bases = base_anchors(events);
    let b = bases[i];
    let ci = count_of(bases.take(i), b);
    let cj = count_of(bases.take(j), b);
    lemma_count_of_grows(bases, i, j);
    crate::text::lemma_decimal_value(cj);
    reveal_strlit("-");
    if ci == 0 {
        assert(numbered_anchor(b, cj).len() > b.len());
    } else {
        let x = b + "-"@ + decimal(ci);
        let y = b + "-"@ + decimal(cj);
        if x == y {
            assert(x.skip(b.len() as int + 1) =~= decimal(ci));
            assert(y.skip(b.len() as int + 1) =~= decimal(cj));
            crate::text::lemma_decimal_injective(ci, cj);
        }
    }
}

} // verus!

verus! {

/// The finished headings held as parallel level and text vectors.
pub open spec fn level_text_pairs(levels: Seq<u8>, texts: Seq<String>) -> Seq<(u8, Seq<char>)> {
    Seq::new(levels.len(), |k: int| (levels[k], texts[k]@))
}

/// The views of a sequence of character vectors.
pub open spec fn char_vec_views(vs: Seq<Vec<char>>) -> Seq<Seq<char>> {
    vs.map_values(|v: Vec<char>| v@)
}

proof fn lemma_scan_levels(events: Seq<MarkdownEventView>)
    requires
        heading_levels_ok(events),
    ensures
        forall|k: int|
            0 <= k < scan_headings(events).0.len() ==> 1 <= (#[trigger] scan_headings(
                events,
            ).0[k]).0 <= 6,
        scan_headings(events).1 matches Some((l, _)) ==> 1 <= l <= 6,
    decreases events.len(),
{
    if events.len() > 0 {
        let init = events.drop_last();
        assert forall|i: int| 0 <= i < init.len() implies (#[trigger] init[i] matches MarkdownEventView::HeadingStart(
            l,
            _,
        ) ==> 1 <= l <= 6) by {
            assert(init[i] == events[i]);
        }
        lemma_scan_levels(init);
        assert(events.last() == events[events.len() - 1]);
        let done = scan_headings(init).0;
        let r = scan_headings(events).0;
        assert forall|k: int| 0 <= k < r.len() implies 1 <= (#[trigger] r[k]).0 <= 6 by {
            if k < done.len() {
                assert(r[k] == done[k]);
            }
        }
    }
}

/// The headings of the event stream, with their anchors (see `headings_of`).
pub fn headings_from_events(events: &Vec<MarkdownEvent>) -> (r: Vec<Heading>)
    ensures
        heading_views(r@) == headings_of(event_views(events@)),
        heading_levels_ok(event_views(events@)) ==> forall|i: int|
            0 <= i < r@.len() ==> 1 <= #[trigger] r@[i].level <= 6,
{
    let ghost evs = event_views(events@);
    let mut levels: Vec<u8> = Vec::new();
    let mut texts: Vec<String> = Vec::new();
    let mut active = false;
    let mut cur_level: u8 = 0;
    let mut cur_text = String::new();
    let mut i: usize = 0;
    while i < events.len()
        invariant
            i <= events@.len(),
            evs == event_views(events@),
            levels@.len() == texts@.len(),
            scan_headings(evs.take(i as int)) == (
                level_text_pairs(levels@, texts@),
                if active {
                    Some((cur_level, cur_text@))
                } else {
                    None::<(u8, Seq<char>)>
                },
            ),
        decreases events@.len() - i,
    {
        assert(evs.take(i + 1).drop_last() == evs.take(i as int));
        assert(evs.take(i + 1).last() == events@[i as int]@);
        match &events[i] {
            MarkdownEvent::HeadingStart(level, _) => {
                active = true;
                cur_level = *level;
                cur_text = String::new();
            },
            MarkdownEvent::HeadingEnd(_) => {
                if active {
                    let ghost before = level_text_pairs(levels@, texts@);
                    levels.push(cur_level);
                    texts.push(cur_text);
                    cur_text = String::new();
                    assert(level_text_pairs(levels@, texts@) =~= before.push(
                        (cur_level, texts@.last()@),
                    ));
                }
                active = false;
            },
            MarkdownEvent::Text(t) => {
                if active {
                    cur_text.append(t.as_str());
                }
            },
            MarkdownEvent::Code(t) => {
                if active {
                    cur_text.append(t.as_str());
                }
            },
            _ => {},
        }
        i = i + 1;
    }
    assert(evs.take(events@.len() as int) == evs);
    let ghost done = level_text_pairs(levels@, texts@);
    let ghost all_bases = base_anchors(evs);
    let n = levels.len();
    let mut bases: Vec<Vec<char>> = Vec::new();
    let mut k: usize = 0;
    while k < n
        invariant
            k <= n == levels@.len() == texts@.len(),
            done == level_text_pairs(levels@, texts@),
            all_bases == done.map_values(|h: (u8, Seq<char>)| heading_anchor(h.1)),
            char_vec_views(bases@) == all_bases.take(k as int),
            bases@.len() == k,
        decreases n - k,
    {
        let b = anchor_chars(texts[k].as_str());
        assert(done[k as int].1 == texts@[k as int]@);
        assert(all_bases[k as int] == heading_anchor(texts@[k as int]@));
        let ghost old_bases = bases@;
        bases.push(b);
        assert forall|m: int| 0 <= m < k + 1 implies #[trigger] char_vec_views(bases@)[m]
            == all_bases.take(k + 1)[m] by {
            if m < k {
                assert(bases@[m] == old_bases[m]);
                assert(char_vec_views(old_bases)[m] == all_bases.take(k as int)[m]);
            }
        }
        assert(char_vec_views(bases@) =~= all_bases.take(k + 1));
        k = k + 1;
    }
    assert(all_bases.take(n as int) == all_bases);
    let mut r: Vec<Heading> = Vec::new();
    let mut k: usize = 0;
    while k < n
        invariant
            k <= n == levels@.len() == texts@.len() == bases@.len(),
            done == level_text_pairs(levels@, texts@),
            char_vec_views(bases@) == all_bases,
            all_bases == done.map_values(|h: (u8, Seq<char>)| heading_anchor(h.1)),
            heading_views(r@) == headings_of(evs).take(k as int),
            r@.len() == k,
            headings_of(evs).len() == n,
            all_bases == base_anchors(evs),
            done == scan_headings(evs).0,
        decreases n - k,
    {
        let base = &bases[k];
        assert(base@ == all_bases[k as int]);
        let mut count: usize = 0;
        let mut j: usize = 0;
        while j < k
            invariant
                j <= k < n == bases@.len(),
                char_vec_views(bases@) == all_bases,
                count <= j,
                base@ == all_bases[k as int],
                count == count_of(all_bases.take(j as int), all_bases[k as int]),
            decreases k - j,
        {
            assert(all_bases.take(j + 1).drop_last() == all_bases.take(j as int));
            assert(all_bases[j as int] == bases@[j as int]@);
            if chars_eq(bases[j].as_slice(), base.as_slice()) {
                count = count + 1;
            }
            j = j + 1;
        }
        let mut id = string_of(base.as_slice());
        if count > 0 {
            id.append("-");
            let digits = decimal_string(count as u64);
            id.append(digits.as_str());
        }
        let h = Heading { level: levels[k], text: texts[k].clone(), id };
        proof {
            reveal_strlit("-");
            let hv = headings_of(evs)[k as int];
            assert(hv.level == done[k as int].0);
            assert(hv.text == done[k as int].1);
            assert(hv.id == numbered_anchor(all_bases[k as int], count as nat));
            assert(h@.id == hv.id);
        }
        let ghost old_r = r@;
        r.push(h);
        assert forall|m: int| 0 <= m < k + 1 implies #[trigger] heading_views(r@)[m]
            == headings_of(evs).take(k + 1)[m] by {
            if m < k {
                assert(r@[m] == old_r[m]);
                assert(heading_views(old_r)[m] == headings_of(evs).take(k as int)[m]);
            }
        }
        assert(heading_views(r@) =~= headings_of(evs).take(k + 1));
        k = k + 1;
    }
    assert(headings_of(evs).take(n as int) == headings_of(evs));
    proof {
        if heading_levels_ok(evs) {
            lemma_scan_levels(evs);
            assert forall|i: int| 0 <= i < r@.len() implies 1 <= #[trigger] r@[i].level <= 6 by {
                assert(heading_views(r@)[i] == r@[i]@);
                assert(headings_of(evs)[i].level == done[i].0);
            }
        }
    }
    r
}

} // verus!

verus! {

/// What showing raw HTML as text makes of an event: a raw HTML block line
/// or inline tag becomes text with the same content; any other event stays.
pub open spec fn shown_as_text(e: MarkdownEventView) -> MarkdownEventView {
    match e {
        MarkdownEventView::Html(t) => MarkdownEventView::Text(t),
        MarkdownEventView::InlineHtml(t) => MarkdownEventView::Text(t),
        _ => e,
    }
}

/// Whether an event is raw HTML.
pub open spec fn is_raw_html(e: MarkdownEventView) -> bool {
    e is Html || e is InlineHtml
}

/// The events with every raw HTML event shown as text.
pub open spec fn raw_html_shown(events: Seq<MarkdownEventView>) -> Seq<MarkdownEventView> {
    events.map_values(|e: MarkdownEventView| shown_as_text(e))
}

/// The events with each raw HTML event (`Html`, `InlineHtml`) turned into a
/// text event with the same content, so that the HTML writer escapes it
/// instead of passing it through; every other event is kept as it is.
pub fn raw_html_as_text(events: Vec<MarkdownEvent>) -> (r: Vec<MarkdownEvent>)
    ensures
        event_views(r@) == raw_html_shown(event_views(events@)),
        r@.len() == events@.len(),
        forall|i: int| 0 <= i < r@.len() ==> !is_raw_html(#[trigger] r@[i]@),
{
    let ghost given = event_views(events@);
    let mut events = events;
    let mut i: usize = 0;
    while i < events.len()
        invariant
            i <= events@.len() == given.len(),
            forall|k: int| 0 <= k < i ==> #[trigger] events@[k]@ == shown_as_text(given[k]),
            forall|k: int| i <= k < events@.len() ==> #[trigger] events@[k]@ == given[k],
        decreases events@.len() - i,
    {
        let ghost before = events@;
        let text = match &events[i] {
            MarkdownEvent::Html(t) => Some(t.clone()),
            MarkdownEvent::InlineHtml(t) => Some(t.clone()),
            _ => None,
        };
        assert(given[i as int] == before[i as int]@);
        match text {
            Some(t) => {
                assert(shown_as_text(given[i as int]) == MarkdownEventView::Text(t@));
                events.set(i, MarkdownEvent::Text(t));
                assert(events@[i as int]@ == MarkdownEventView::Text(t@));
            },
            None => {
                assert(!is_raw_html(before[i as int]@));
                assert(shown_as_text(given[i as int]) == given[i as int]);
            },
        }
        assert forall|k: int| 0 <= k < i + 1 implies #[trigger] events@[k]@ == shown_as_text(
            given[k],
        ) by {
            if k < i {
                assert(events@[k] == before[k]);
            }
        }
        i = i + 1;
    }
    assert(event_views(events@) =~= raw_html_shown(given));
    events
}

/// The HTML that `pulldown-cmark` writes for a sequence of events.
pub uninterp spec fn html_of_events(events: Seq<MarkdownEventView>) -> Seq<char>;

/// Whether every event is a text event.
pub open spec fn all_text(events: Seq<MarkdownEventView>) -> bool {
    forall|i: int| 0 <= i < events.len() ==> #[trigger] events[i] is Text
}

/// The texts of text events, each with `&`, `<` and `>` escaped, one after
/// another.
pub open spec fn escaped_texts(events: Seq<MarkdownEventView>) -> Seq<char>
    decreases events.len(),
{
    if events.len() == 0 {
        Seq::empty()
    } else {
        escaped_texts(events.drop_last()) + match events.last() {
            MarkdownEventView::Text(t) => escape_text(t),
            _ => Seq::empty(),
        }
    }
}

/// `pulldown_cmark::html::push_html` into an empty string, over the events
/// handed back as the parser's own: text, code and raw HTML as the events of
/// those kinds with the same content, the rest as the events they keep. The
/// writer writes each text event as its text with `&`, `<` and `>` escaped,
/// so events that are all text come out as their escaped texts in turn;
/// what it writes for other events is left to the name `html_of_events`.
#[verifier::external_body]
pub(crate) fn write_html(events: Vec<MarkdownEvent>) -> (r: String)
    ensures
        r@ == html_of_events(event_views(events@)),
        all_text(event_views(events@)) ==> r@ == escaped_texts(event_views(events@)),
{
    let events = events.into_iter().map(|event| match event {
        MarkdownEvent::Text(text) => Event::Text(text.into()),
        MarkdownEvent::Code(code) => Event::Code(code.into()),
        MarkdownEvent::Html(html) => Event::Html(html.into()),
        MarkdownEvent::InlineHtml(html) => Event::InlineHtml(html.into()),
        MarkdownEvent::HeadingStart(_, e) | MarkdownEvent::HeadingEnd(e) | MarkdownEvent::Other(e) => e,
    });
    let mut html = String::new();
    pulldown_cmark::html::push_html(&mut html, events);
    html
}

/// The table-of-contents entry of a heading.
pub open spec fn toc_item(h: HeadingView) -> Seq<char> {
    "<li class=\"toc-level-"@ + decimal(h.level as nat) + "\"><a href=\"#"@ + escape_attribute(h.id)
        + "\">"@ + escape_text(h.text) + "</a></li>"@
}

/// Whether a heading is listed in the table of contents (levels 1 to 3).
pub open spec fn in_toc(h: HeadingView) -> bool {
    h.level <= 3
}

/// The entries of the listed headings, in order.
pub open spec fn toc_items(hs: Seq<HeadingView>) -> Seq<char>
    decreases hs.len(),
{
    if hs.len() == 0 {
        Seq::empty()
    } else {
        toc_items(hs.drop_last()) + if in_toc(hs.last()) {
            toc_item(hs.last())
        } else {
            Seq::empty()
        }
    }
}

/// The table of contents: a list of the headings of levels 1 to 3, or a note
/// that there are none.
pub open spec fn toc_html(hs: Seq<HeadingView>) -> Seq<char> {
    if exists|i: int| 0 <= i < hs.len() && in_toc(#[trigger] hs[i]) {
        "<ul>"@ + toc_items(hs) + "</ul>"@
    } else {
        "<p class=\"toc-empty\">No headings</p>"@
    }
}

/// The table of contents of the headings (see `toc_html`).
pub fn render_toc(headings: &[Heading]) -> (r: String)
    ensures
        r@ == toc_html(heading_views(headings@)),
{
    let ghost hs = heading_views(headings@);
    let mut items = String::new();
    let mut any = false;
    let mut i: usize = 0;
    while i < headings.len()
        invariant
            i <= headings@.len(),
            hs == heading_views(headings@),
            items@ == toc_items(hs.take(i as int)),
            any <==> exists|j: int| 0 <= j < i && in_toc(#[trigger] hs[j]),
        decreases headings@.len() - i,
    {
        assert(hs.take(i + 1).drop_last() == hs.take(i as int));
        assert(hs[i as int] == headings@[i as int]@);
        let h = &headings[i];
        if h.level <= 3 {
            items.append("<li class=\"toc-level-");
            let level = decimal_string(h.level as u64);
            items.append(level.as_str());
            items.append("\"><a href=\"#");
            let id = encode_double_quoted_attribute(h.id.as_str());
            items.append(id.as_str());
            items.append("\">");
            let text = encode_text(h.text.as_str());
            items.append(text.as_str());
            items.append("</a></li>");
            any = true;
        }
        i = i + 1;
    }
    assert(hs.take(headings@.len() as int) == hs);
    if any {
        let mut r = String::from_str("<ul>");
        r.append(items.as_str());
        r.append("</ul>");
        r
    } else {
        String::from_str("<p class=\"toc-empty\">No headings</p>")
    }
}

/// Whether `pat` occurs in `s` at `i`.
pub open spec fn occurs_at(s: Seq<char>, pat: Seq<char>, i: int) -> bool {
    0 <= i && i + pat.len() <= s.len() && s.subrange(i, i + pat.len()) == pat
}

/// The first position at or after `i` where `pat` occurs in `s`.
pub open spec fn first_occurrence(s: Seq<char>, pat: Seq<char>, i: nat) -> Option<nat>
    decreases s.len() + 1 - i,
{
    if i > s.len() {
        None
    } else if occurs_at(s, pat, i as int) {
        Some(i)
    } else {
        first_occurrence(s, pat, i + 1)
    }
}

/// `s` with the first occurrence of `pat` replaced by `rep`
/// (`str::replacen(pat, rep, 1)`).
pub open spec fn replace_first(s: Seq<char>, pat: Seq<char>, rep: Seq<char>) -> Seq<char> {
    match first_occurrence(s, pat, 0) {
        Some(k) => s.take(k as int) + rep + s.skip((k + pat.len()) as int),
        None => s,
    }
}

proof fn lemma_first_occurrence_past_end(s: Seq<char>, pat: Seq<char>, i: nat)
    requires
        pat.len() > 0,
        i + pat.len() > s.len(),
    ensures
        first_occurrence(s, pat, i) is None,
    decreases s.len() + 1 - i,
{
    if i <= s.len() {
        lemma_first_occurrence_past_end(s, pat, i + 1);
    }
}

/// `s` with the first occurrence of the non-empty `pat` replaced by `rep`.
pub fn replace_first_chars(s: &[char], pat: &[char], rep: &[char]) -> (r: Vec<char>)
    requires
        pat@.len() > 0,
    ensures
        r@ == replace_first(s@, pat@, rep@),
{
    let mut i: usize = 0;
    while pat.len() <= s.len() && i <= s.len() - pat.len()
        invariant
            pat@.len() > 0,
            i <= s@.len() + 1,
            first_occurrence(s@, pat@, 0) == first_occurrence(s@, pat@, i as nat),
        decreases s@.len() - i,
    {
        assert(i + pat@.len() <= s@.len());
        let mut j: usize = 0;
        let mut same = true;
        while j < pat.len()
            invariant
                i + pat@.len() <= s@.len(),
                s@.len() <= usize::MAX,
                j <= pat@.len(),
                same <==> forall|m: int| 0 <= m < j ==> s@[i + m] == pat@[m],
            decreases pat@.len() - j,
        {
            if s[i + j] != pat[j] {
                same = false;
            }
            j = j + 1;
        }
        if same {
            assert(s@.subrange(i as int, i + pat@.len()) =~= pat@);
            let mut r: Vec<char> = Vec::new();
            let mut k: usize = 0;
            while k < i
                invariant
                    k <= i <= s@.len(),
                    r@ == s@.take(k as int),
                decreases i - k,
            {
                r.push(s[k]);
                assert(s@.take(k + 1) == s@.take(k as int).push(s@[k as int]));
                k = k + 1;
            }
            let mut k: usize = 0;
            while k < rep.len()
                invariant
                    k <= rep@.len(),
                    r@ == s@.take(i as int) + rep@.take(k as int),
                decreases rep@.len() - k,
            {
                r.push(rep[k]);
                assert(rep@.take(k + 1) == rep@.take(k as int).push(rep@[k as int]));
                k = k + 1;
            }
            assert(rep@.take(rep@.len() as int) == rep@);
            let start = i + pat.len();
            let mut k: usize = start;
            while k < s.len()
                invariant
                    start <= k <= s@.len(),
                    r@ == s@.take(i as int) + rep@ + s@.subrange(start as int, k as int),
                decreases s@.len() - k,
            {
                r.push(s[k]);
                assert(s@.subrange(start as int, k + 1) == s@.subrange(start as int, k as int).push(
                    s@[k as int],
                ));
                k = k + 1;
            }
            assert(s@.subrange(start as int, s@.len() as int) == s@.skip(start as int));
            return r;
        } else {
            proof {
                let m = choose|m: int| 0 <= m < pat@.len() && s@[i + m] != pat@[m];
                assert(s@.subrange(i as int, i + pat@.len())[m] != pat@[m]);
            }
        }
        i = i + 1;
    }
    proof {
        lemma_first_occurrence_past_end(s@, pat@, i as nat);
    }
    vstd::slice::slice_to_vec(s)
}

} // verus!

verus! {

/// The opening tag of a heading of the given level, as rendered.
pub open spec fn heading_tag(level: u8) -> Seq<char> {
    "<h"@ + decimal(level as nat) + ">"@
}

/// The opening tag of a heading with its anchor.
pub open spec fn anchored_heading_tag(h: HeadingView) -> Seq<char> {
    "<h"@ + decimal(h.level as nat) + " id=\""@ + escape_attribute(h.id) + "\">"@
}

/// `body` with, for each heading in turn, the first plain opening tag of its
/// level given the heading's anchor.
pub open spec fn add_anchors(body: Seq<char>, hs: Seq<HeadingView>) -> Seq<char>
    decreases hs.len(),
{
    if hs.len() == 0 {
        body
    } else {
        replace_first(
            add_anchors(body, hs.drop_last()),
            heading_tag(hs.last().level),
            anchored_heading_tag(hs.last()),
        )
    }
}

/// The rendered body of a Markdown document, headings anchored, and its
/// table of contents.
pub open spec fn document_parts(source: Seq<char>) -> (Seq<char>, Seq<char>) {
    let events = parsed_markdown(source);
    let hs = headings_of(events);
    (add_anchors(html_of_events(raw_html_shown(events)), hs), toc_html(hs))
}

/// The headings of a Markdown document, in order, with their anchors.
pub fn collect_headings(source: &str) -> (r: Vec<Heading>)
    ensures
        heading_views(r@) == headings_of(parsed_markdown(source@)),
        forall|i: int| 0 <= i < r@.len() ==> 1 <= #[trigger] r@[i].level <= 6,
{
    let events = markdown_events(source);
    headings_from_events(&events)
}

/// The rendered HTML `html` with, for each heading in turn, the first plain
/// opening tag of its level given the heading's anchor (see `add_anchors`).
pub fn anchor_headings(html: &str, headings: &[Heading]) -> (r: String)
    ensures
        r@ == add_anchors(html@, heading_views(headings@)),
{
    let ghost hs = heading_views(headings@);
    let mut body = chars_of(html);
    let mut i: usize = 0;
    while i < headings.len()
        invariant
            i <= headings@.len(),
            hs == heading_views(headings@),
            body@ == add_anchors(html@, hs.take(i as int)),
        decreases headings@.len() - i,
    {
        assert(hs.take(i + 1).drop_last() == hs.take(i as int));
        assert(hs[i as int] == headings@[i as int]@);
        let h = &headings[i];
        let level = decimal_string(h.level as u64);
        let mut opening = String::from_str("<h");
        opening.append(level.as_str());
        opening.append(">");
        let mut anchored = String::from_str("<h");
        anchored.append(level.as_str());
        anchored.append(" id=\"");
        let id = encode_double_quoted_attribute(h.id.as_str());
        anchored.append(id.as_str());
        anchored.append("\">");
        let pat = chars_of(opening.as_str());
        let rep = chars_of(anchored.as_str());
        proof {
            reveal_strlit("<h");
        }
        body = replace_first_chars(body.as_slice(), pat.as_slice(), rep.as_slice());
        i = i + 1;
    }
    assert(hs.take(headings@.len() as int) == hs);
    string_of(body.as_slice())
}

/// Renders a Markdown document: its HTML body, with an `id` anchor on each
/// heading, and its table of contents.
pub fn render_markdown(source: &str) -> (r: (String, String))
    ensures
        (r.0@, r.1@) == document_parts(source@),
{
    let events = markdown_events(source);
    let headings = headings_from_events(&events);
    let shown = raw_html_as_text(events);
    let html = write_html(shown);
    let body = anchor_headings(html.as_str(), headings.as_slice());
    let toc = render_toc(headings.as_slice());
    (body, toc)
}

/// No raw HTML reaches the HTML writer: in the events a document is rendered
/// from, every raw HTML event has become text with the same content.
pub proof fn lemma_no_raw_html_written(source: Seq<char>)
    ensures
        raw_html_shown(parsed_markdown(source)).len() == parsed_markdown(source).len(),
        forall|i: int|
            0 <= i < parsed_markdown(source).len() ==> !is_raw_html(
                #[trigger] raw_html_shown(parsed_markdown(source))[i],
            ),
        forall|i: int|
            0 <= i < parsed_markdown(source).len() ==> (#[trigger] parsed_markdown(source)[i] matches MarkdownEventView::Html(t) ==> raw_html_shown(parsed_markdown(source))[i] == MarkdownEventView::Text(t)),
{
}

} // verus!
