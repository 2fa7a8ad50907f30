//! The history of opened files: most recent first, each file once, at most
//! thirty entries.
use vstd::prelude::*;
use crate::paths::{paths_equal, same_path};

verus! {

/// How many files the history keeps.
pub const HISTORY_LIMIT: usize = 30;

/// A file in the history.
#[derive(Debug, Clone, PartialEq, Eq)]
pub struct HistoryEntry {
    pub path: Vec<u8>,
}

/// The paths of the entries, in order.
pub open spec fn entry_paths(entries: Seq<HistoryEntry>) -> Seq<Seq<u8>> {
    entries.map_values(|e: HistoryEntry| e.path@)
}

/// The paths of `entries` that are not the same path as `path`, in order.
pub open spec fn other_paths(entries: Seq<Seq<u8>>, path: Seq<u8>) -> Seq<Seq<u8>>
    decreases entries.len(),
{
    if entries.len() == 0 {
        Seq::empty()
    } else if same_path(entries.last(), path) {
        other_paths(entries.drop_last(), path)
    } else {
        other_paths(entries.drop_last(), path).push(entries.last())
    }
}

/// The history after `path` is opened: `path` first, then the other files
/// in their old order, cut to `HISTORY_LIMIT` entries.
pub open spec fn history_after(entries: Seq<Seq<u8>>, path: Seq<u8>) -> Seq<Seq<u8>> {
    let all = seq![path] + other_paths(entries, path);
    if all.len() <= HISTORY_LIMIT {
        all
    } else {
        all.take(HISTORY_LIMIT as int)
    }
}

/// The history with `path` recorded as the file opened last.
pub fn add_history(entries: &Vec<HistoryEntry>, path: &[u8]) -> (r: Vec<HistoryEntry>)
    ensures
        entry_paths(r@) == history_after(entry_paths(entries@), path@),
{
    let ghost ps = entry_paths(entries@);
    let mut others: Vec<HistoryEntry> = Vec::new();
    let mut i: usize = 0;
    while i < entries.len()
        invariant
            i <= entries@.len(),
            ps == entry_paths(entries@),
            entry_paths(others@) == other_paths(ps.take(i as int), path@),
        decreases entries@.len() - i,
    {
        assert(ps.take(i + 1).drop_last() == ps.take(i as int));
        assert(ps.take(i + 1).last() == entries@[i as int].path@);
        if !paths_equal(entries[i].path.as_slice(), path) {
            let ghost before = others@;
            let e = HistoryEntry { path: vstd::slice::slice_to_vec(entries[i].path.as_slice()) };
            others.push(e);
            assert(entry_paths(others@) =~= entry_paths(before).push(entries@[i as int].path@));
        }
        i = i + 1;
    }
    assert(ps.take(entries@.len() as int) == ps);
    let ghost all = seq![path@] + entry_paths(others@);
    let mut r: Vec<HistoryEntry> = Vec::new();
    r.push(HistoryEntry { path: vstd::slice::slice_to_vec(path) });
    let mut k: usize = 0;
    while k < others.len() && r.len() < HISTORY_LIMIT
        invariant
            k <= others@.len(),
            r@.len() == k + 1,
            r@.len() <= HISTORY_LIMIT,
            all == seq![path@] + entry_paths(others@),
            entry_paths(r@) == all.take(k + 1),
        decreases others@.len() - k,
    {
        let ghost before = r@;
        r.push(HistoryEntry { path: vstd::slice::slice_to_vec(others[k].path.as_slice()) });
        assert(all[k + 1] == others@[k as int].path@);
        assert(entry_paths(r@) =~= all.take(k + 2));
        k = k + 1;
    }
    proof {
        if all.len() <= HISTORY_LIMIT as nat {
            assert(all.take(all.len() as int) == all);
        }
    }
    r
}

} // verus!

verus! {

/// No two entries of `ps` are the same path.
pub open spec fn distinct_paths(ps: Seq<Seq<u8>>) -> bool {
    forall|i: int, j: int| 0 <= i < j < ps.len() ==> !same_path(#[trigger] ps[i], #[trigger] ps[j])
}

proof fn lemma_other_paths_members(entries: Seq<Seq<u8>>, path: Seq<u8>)
    ensures
        other_paths(entries, path).len() <= entries.len(),
        forall|k: int|
            0 <= k < other_paths(entries, path).len() ==> !same_path(
                #[trigger] other_paths(entries, path)[k],
                path,
            ) && entries.contains(other_paths(entries, path)[k]),
    decreases entries.len(),
{
    if entries.len() > 0 {
        let init = entries.drop_last();
        lemma_other_paths_members(init, path);
        let o = other_paths(entries, path);
        assert forall|k: int| 0 <= k < o.len() implies !same_path(#[trigger] o[k], path)
            && entries.contains(o[k]) by {
            if k < other_paths(init, path).len() {
                assert(o[k] == other_paths(init, path)[k]);
                let w = choose|w: int| 0 <= w < init.len() && init[w] == o[k];
                assert(entries[w] == init[w]);
            } else {
                assert(o[k] == entries.last());
                assert(entries[entries.len() - 1] == entries.last());
            }
        }
    }
}

proof fn lemma_other_paths_distinct(entries: Seq<Seq<u8>>, path: Seq<u8>)
    requires
        distinct_paths(entries),
    ensures
        distinct_paths(other_paths(entries, path)),
    decreases entries.len(),
{
    if entries.len() > 0 {
        let init = entries.drop_last();
        assert(distinct_paths(init)) by {
            assert forall|i: int, j: int| 0 <= i < j < init.len() implies !same_path(
                #[trigger] init[i],
                #[trigger] init[j],
            ) by {
                assert(init[i] == entries[i] && init[j] == entries[j]);
            }
        }
        lemma_other_paths_distinct(init, path);
        lemma_other_paths_members(init, path);
        let oi = other_paths(init, path);
        let o = other_paths(entries, path);
        if !same_path(entries.last(), path) {
            assert forall|i: int, j: int| 0 <= i < j < o.len() implies !same_path(
                #[trigger] o[i],
                #[trigger] o[j],
            ) by {
                if j < oi.len() {
                    assert(o[i] == oi[i] && o[j] == oi[j]);
                } else {
                    assert(o[j] == entries.last());
                    assert(o[i] == oi[i]);
                    assert(oi[i] == oi[i]);
                    let w = choose|w: int| 0 <= w < init.len() && init[w] == oi[i];
                    assert(entries[w] == init[w]);
                    assert(entries[entries.len() - 1] == entries.last());
                }
            }
        }
    }
}

proof fn lemma_other_paths_of_others(entries: Seq<Seq<u8>>, path: Seq<u8>)
    requires
        forall|k: int| 0 <= k < entries.len() ==> !same_path(#[trigger] entries[k], path),
    ensures
        other_paths(entries, path) == entries,
    decreases entries.len(),
{
    if entries.len() > 0 {
        let init = entries.drop_last();
        assert forall|k: int| 0 <= k < init.len() implies !same_path(#[trigger] init[k], path) by {
            assert(init[k] == entries[k]);
        }
        lemma_other_paths_of_others(init, path);
        assert(entries[entries.len() - 1] == entries.last());
        assert(init.push(entries.last()) =~= entries);
    }
}

proof fn lemma_other_paths_drop_front(x: Seq<u8>, rest: Seq<Seq<u8>>, path: Seq<u8>)
    requires
        same_path(x, path),
    ensures
        other_paths(seq![x] + rest, path) == other_paths(rest, path),
    decreases rest.len(),
{
    if rest.len() == 0 {
        let s = seq![x] + rest;
        assert(s.drop_last() =~= Seq::<Seq<u8>>::empty());
        assert(s.last() == x);
        assert(other_paths(s.drop_last(), path) == Seq::<Seq<u8>>::empty());
        assert(other_paths(s, path) == other_paths(s.drop_last(), path));
    } else {
        lemma_other_paths_drop_front(x, rest.drop_last(), path);
        let s = seq![x] + rest;
        assert(s.drop_last() =~= seq![x] + rest.drop_last());
        assert(s.last() == rest.last());
        assert(other_paths(s.drop_last(), path) == other_paths(rest.drop_last(), path));
    }
}

/// After a file is opened, it comes first in the history, nowhere else in
/// it, and the history holds at most `HISTORY_LIMIT` files.
pub proof fn lemma_history_most_recent_first(entries: Seq<Seq<u8>>, path: Seq<u8>)
    ensures
        history_after(entries, path).len() >= 1,
        history_after(entries, path).len() <= HISTORY_LIMIT,
        history_after(entries, path)[0] == path,
        forall|k: int|
            1 <= k < history_after(entries, path).len() ==> !same_path(
                #[trigger] history_after(entries, path)[k],
                path,
            ),
{
    lemma_other_paths_members(entries, path);
    let o = other_paths(entries, path);
    let h = history_after(entries, path);
    assert forall|k: int| 1 <= k < h.len() implies !same_path(#[trigger] h[k], path) by {
        assert(h[k] == o[k - 1]);
    }
}

/// A history in which no file occurs twice keeps that property when a file
/// is opened.
pub proof fn lemma_history_stays_distinct(entries: Seq<Seq<u8>>, path: Seq<u8>)
    requires
        distinct_paths(entries),
    ensures
        distinct_paths(history_after(entries, path)),
{
    lemma_other_paths_distinct(entries, path);
    lemma_other_paths_members(entries, path);
    let o = other_paths(entries, path);
    let h = history_after(entries, path);
    assert forall|i: int, j: int| 0 <= i < j < h.len() implies !same_path(
        #[trigger] h[i],
        #[trigger] h[j],
    ) by {
        assert(h[j] == o[j - 1]);
        if i == 0 {
            assert(h[0] == path);
            assert(!same_path(o[j - 1], path));
        } else {
            assert(h[i] == o[i - 1]);
        }
    }
}

/// Opening the file that was opened last leaves the history as it is.
pub proof fn lemma_history_reopen(entries: Seq<Seq<u8>>, path: Seq<u8>)
    ensures
        history_after(history_after(entries, path), path) == history_after(entries, path),
{
    let h = history_after(entries, path);
    lemma_history_most_recent_first(entries, path);
    let rest = h.drop_first();
    assert forall|k: int| 0 <= k < rest.len() implies !same_path(#[trigger] rest[k], path) by {
        assert(rest[k] == h[k + 1]);
    }
    lemma_other_paths_of_others(rest, path);
    assert(h =~= seq![path] + rest);
    lemma_other_paths_drop_front(path, rest, path);
    assert(seq![path] + other_paths(h, path) =~= h);
}

} // verus!
