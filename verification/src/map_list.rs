//! The list of saved maps, as the map menu shows it: the map saved last
//! comes first.

use crate::map::MapInfo;
use crate::text::{lemma_lex_total, lemma_lex_transitive, lex_before, text_before};
use vstd::prelude::*;
use vstd::seq_lib::{to_multiset_build, to_multiset_insert};

verus! {

/// What an entry of the list stands for: the summary of a map, and its name.
pub open spec fn entry_view(entry: (MapInfo, String)) -> (MapInfo, Seq<char>) {
    (entry.0, entry.1@)
}

/// What the entries of a list stand for.
pub open spec fn entry_views(entries: Seq<(MapInfo, String)>) -> Seq<(MapInfo, Seq<char>)> {
    Seq::new(entries.len(), |i: int| entry_view(entries[i]))
}

/// Whether the map `a` is shown before the map `b`: it was saved later, or at
/// the same time and its name comes later.
pub open spec fn shown_before(a: (MapInfo, Seq<char>), b: (MapInfo, Seq<char>)) -> bool {
    a.0.save_time > b.0.save_time || (a.0.save_time == b.0.save_time && lex_before(b.1, a.1))
}

/// Whether no map of `list` stands behind a map that is shown after it.
pub open spec fn in_shown_order(list: Seq<(MapInfo, Seq<char>)>) -> bool {
    forall|k: int, l: int| 0 <= k < l < list.len() ==> !shown_before(list[l], list[k])
}

/// Whether the map `a` is shown before the map `b`.
pub fn comes_before(a: &(MapInfo, String), b: &(MapInfo, String)) -> (out: bool)
    ensures
        out == shown_before(entry_view(*a), entry_view(*b)),
{
    a.0.save_time > b.0.save_time || (a.0.save_time == b.0.save_time && text_before(
        b.1.as_str(),
        a.1.as_str(),
    ))
}

/// Of three maps, where the second is not shown before the first and the
/// third not before the second, the third is not shown before the first.
proof fn lemma_order_carries(
    a: (MapInfo, Seq<char>),
    b: (MapInfo, Seq<char>),
    c: (MapInfo, Seq<char>),
)
    requires
        !shown_before(b, a),
        !shown_before(c, b),
    ensures
        !shown_before(c, a),
{
    if shown_before(c, a) {
        lemma_lex_total(a.1, b.1);
        lemma_lex_total(b.1, c.1);
        lemma_lex_total(a.1, c.1);
        if a.0.save_time == b.0.save_time && b.0.save_time == c.0.save_time {
            // By name: a's name does not come before b's, b's does not come
            // before c's, and yet a's comes before c's.
            if a.1 != b.1 && b.1 != c.1 {
                lemma_lex_transitive(c.1, b.1, a.1);
            }
        }
    }
}

/// The maps of `maps` in the order in which they are shown: the map saved
/// last first, and of maps saved at the same time the one first whose name
/// comes last.
pub fn sort_maps(maps: Vec<(MapInfo, String)>) -> (out: Vec<(MapInfo, String)>)
    ensures
        in_shown_order(entry_views(out@)),
        entry_views(out@).to_multiset() == entry_views(maps@).to_multiset(),
{
    let mut rest = maps;
    let mut out: Vec<(MapInfo, String)> = Vec::new();
    proof {
        assert(entry_views(out@) =~= Seq::empty());
        assert(entry_views(out@).to_multiset().add(entry_views(rest@).to_multiset())
            =~= entry_views(maps@).to_multiset()) by {
            broadcast use vstd::multiset::group_multiset_axioms;
            entry_views(out@).to_multiset_ensures();
        }
    }
    while rest.len() > 0
        invariant
            in_shown_order(entry_views(out@)),
            entry_views(out@).to_multiset().add(entry_views(rest@).to_multiset()) == entry_views(
                maps@,
            ).to_multiset(),
        decreases rest@.len(),
    {
        let ghost rest_before = entry_views(rest@);
        let ghost out_before = entry_views(out@);
        if let Some(entry) = rest.pop() {
            let ghost x = entry_view(entry);
            proof {
                assert(rest_before =~= entry_views(rest@).push(x));
                to_multiset_build(entry_views(rest@), x);
            }
            let p = place_in(&out, &entry);
            out.insert(p, entry);
            proof {
                let after = entry_views(out@);
                assert(after =~= out_before.insert(p as int, x));
                to_multiset_insert(out_before, p as int, x);
                assert(after.to_multiset().add(entry_views(rest@).to_multiset()) =~= out_before.to_multiset().add(
                    rest_before.to_multiset(),
                )) by {
                    broadcast use vstd::multiset::group_multiset_axioms;

                }
                assert forall|k: int, l: int| 0 <= k < l < after.len() implies !shown_before(
                    after[l],
                    after[k],
                ) by {
                    if l < p {
                        assert(after[k] == out_before[k] && after[l] == out_before[l]);
                    } else if l == p {
                        assert(after[k] == out_before[k]);
                        assert(shown_before(out_before[k], x));
                        lemma_lex_total(x.1, out_before[k].1);
                    } else if k < p {
                        assert(after[k] == out_before[k] && after[l] == out_before[l - 1]);
                    } else if k == p {
                        assert(after[l] == out_before[l - 1]);
                        assert(!shown_before(out_before[p as int], x));
                        if l - 1 > p {
                            assert(!shown_before(out_before[l - 1], out_before[p as int]));
                            lemma_order_carries(x, out_before[p as int], out_before[l - 1]);
                        }
                    } else {
                        assert(after[k] == out_before[k - 1] && after[l] == out_before[l - 1]);
                    }
                }
            }
        }
    }
    proof {
        assert(entry_views(rest@) =~= Seq::empty());
        assert(entry_views(out@).to_multiset().add(entry_views(rest@).to_multiset())
            =~= entry_views(out@).to_multiset()) by {
            broadcast use vstd::multiset::group_multiset_axioms;
            entry_views(rest@).to_multiset_ensures();
        }
    }
    out
}

/// Where `entry` belongs in `list`: behind every map that is shown before
/// it.
fn place_in(list: &Vec<(MapInfo, String)>, entry: &(MapInfo, String)) -> (p: usize)
    ensures
        p <= list@.len(),
        forall|k: int|
            0 <= k < p ==> shown_before(#[trigger] entry_views(list@)[k], entry_view(*entry)),
        p < list@.len() ==> !shown_before(entry_views(list@)[p as int], entry_view(*entry)),
{
    let n = list.len();
    let mut p: usize = 0;
    while p < n
        invariant
            n == list@.len(),
            p <= n,
            forall|k: int|
                0 <= k < p ==> shown_before(#[trigger] entry_views(list@)[k], entry_view(*entry)),
        decreases n - p,
    {
        if !comes_before(&list[p], entry) {
            return p;
        }
        p = p + 1;
    }
    p
}

} // verus!
