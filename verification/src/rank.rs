//! Ranking: putting levels in the order of [`Level::leq`].

use crate::decimal::Order;
use crate::level::lemma_level_order_total;
use crate::level::level_leq;
use crate::level::Level;
use vstd::multiset::Multiset;
use vstd::prelude::*;
use vstd::relations::sorted_by;
use vstd::seq_lib::lemma_multiset_commutative;
use vstd::seq_lib::lemma_sorted_unique;
use vstd::seq_lib::to_multiset_build;

verus! {

/// Every level ranks at or before all that follow it.
pub open spec fn ascending(levels: Seq<Level>) -> bool {
    forall|i: int, j: int| 0 <= i < j < levels.len() ==> #[trigger] levels[i].leq(levels[j])
}

/// Every level ranks at or before all that precede it.
pub open spec fn descending(levels: Seq<Level>) -> bool {
    forall|i: int, j: int| 0 <= i < j < levels.len() ==> #[trigger] levels[j].leq(levels[i])
}

/// The levels in ascending order. There is one such arrangement only.
pub open spec fn ranked(levels: Seq<Level>) -> Seq<Level> {
    levels.sort_by(level_leq())
}

/// Ranking keeps every level, as often as it occurs, and puts the levels in
/// ascending order.
pub proof fn lemma_ranked_is_ascending_permutation(levels: Seq<Level>)
    ensures
        ascending(ranked(levels)),
        ranked(levels).to_multiset() == levels.to_multiset(),
        ranked(levels).len() == levels.len(),
        forall|level: Level| ranked(levels).contains(level) <==> levels.contains(level),
{
    broadcast use vstd::seq_lib::group_to_multiset_ensures;

    lemma_level_order_total();
    levels.lemma_sort_by_ensures(level_leq());
    let sorted = ranked(levels);
    assert(sorted.to_multiset().len() == sorted.len());
    assert forall|i: int, j: int| 0 <= i < j < sorted.len() implies #[trigger] sorted[i].leq(
        sorted[j],
    ) by {
        assert(level_leq()(sorted[i], sorted[j]));
    }
    assert forall|level: Level| sorted.contains(level) <==> levels.contains(level) by {
        assert(sorted.to_multiset().count(level) == levels.to_multiset().count(level));
    }
}

/// Any ascending arrangement of the same levels is the ranking.
pub proof fn lemma_ranked_is_unique(levels: Seq<Level>, arranged: Seq<Level>)
    requires
        ascending(arranged),
        arranged.to_multiset() == levels.to_multiset(),
    ensures
        arranged == ranked(levels),
{
    lemma_level_order_total();
    levels.lemma_sort_by_ensures(level_leq());
    assert(sorted_by(arranged, level_leq())) by {
        assert forall|i: int, j: int| 0 <= i < j < arranged.len() implies #[trigger] level_leq()(
            arranged[i],
            arranged[j],
        ) by {
            assert(arranged[i].leq(arranged[j]));
        }
    }
    lemma_sorted_unique(arranged, ranked(levels), level_leq());
}

/// The ranking does not depend on the order in which the levels come.
pub proof fn lemma_ranked_ignores_order(first: Seq<Level>, second: Seq<Level>)
    requires
        first.to_multiset() == second.to_multiset(),
    ensures
        ranked(first) == ranked(second),
{
    lemma_ranked_is_ascending_permutation(first);
    lemma_ranked_is_unique(second, ranked(first));
}

/// An ascending sequence read backwards is descending.
pub proof fn lemma_reverse_is_descending(levels: Seq<Level>)
    requires
        ascending(levels),
    ensures
        descending(levels.reverse()),
{
    let reversed = levels.reverse();
    assert forall|i: int, j: int| 0 <= i < j < reversed.len() implies #[trigger] reversed[j].leq(
        reversed[i],
    ) by {
        assert(levels[levels.len() - 1 - j].leq(levels[levels.len() - 1 - i]));
    }
}

/// Merges two ascending runs into one.
fn merge_runs(left: &Vec<Level>, right: &Vec<Level>) -> (out: Vec<Level>)
    requires
        ascending(left@),
        ascending(right@),
    ensures
        ascending(out@),
        out@.to_multiset() == left@.to_multiset().add(right@.to_multiset()),
{
    let mut out: Vec<Level> = Vec::new();
    let mut i: usize = 0;
    let mut j: usize = 0;
    proof {
        lemma_empty_has_no_levels(left@.take(0));
        lemma_empty_has_no_levels(right@.take(0));
        lemma_empty_has_no_levels(out@);
    }
    while i < left.len() || j < right.len()
        invariant
            i <= left.len(),
            j <= right.len(),
            ascending(left@),
            ascending(right@),
            ascending(out@),
            out@.to_multiset() == left@.take(i as int).to_multiset().add(
                right@.take(j as int).to_multiset(),
            ),
            forall|k: int|
                0 <= k < out@.len() && i < left.len() ==> #[trigger] out@[k].leq(left@[i as int]),
            forall|k: int|
                0 <= k < out@.len() && j < right.len() ==> #[trigger] out@[k].leq(
                    right@[j as int],
                ),
        decreases left.len() - i + right.len() - j,
    {
        let from_left: bool = if j >= right.len() {
            true
        } else if i >= left.len() {
            false
        } else {
            match left[i].compare(&right[j]) {
                Order::Greater => false,
                _ => true,
            }
        };
        let ghost before = out@;
        if from_left {
            let level: Level = left[i];
            out.push(level);
            proof {
                assert(left@.take(i + 1) =~= left@.take(i as int).push(level));
                to_multiset_build(left@.take(i as int), level);
                to_multiset_build(before, level);
                if i + 1 < left.len() {
                    lemma_leq_all_carries(out@, level, left@[i + 1]);
                }
            }
            i += 1;
        } else {
            let level: Level = right[j];
            out.push(level);
            proof {
                assert(right@.take(j + 1) =~= right@.take(j as int).push(level));
                to_multiset_build(right@.take(j as int), level);
                to_multiset_build(before, level);
                if j + 1 < right.len() {
                    lemma_leq_all_carries(out@, level, right@[j + 1]);
                }
                if i < left.len() {
                    assert(level_leq()(level, left@[i as int]) || level_leq()(
                        left@[i as int],
                        level,
                    ));
                }
            }
            j += 1;
        }
    }
    proof {
        assert(left@.take(i as int) =~= left@);
        assert(right@.take(j as int) =~= right@);
    }
    out
}

/// An empty sequence holds no level.
proof fn lemma_empty_has_no_levels(levels: Seq<Level>)
    requires
        levels.len() == 0,
    ensures
        levels.to_multiset() =~= Multiset::empty(),
{
    broadcast use vstd::seq_lib::group_to_multiset_ensures;
    broadcast use vstd::multiset::group_multiset_axioms;

    assert(levels.to_multiset().len() == 0);
}

/// Where every level of a run ranks at or before `last`, and `last` at or
/// before `next`, every level of the run ranks at or before `next`.
proof fn lemma_leq_all_carries(run: Seq<Level>, last: Level, next: Level)
    requires
        forall|k: int| 0 <= k < run.len() ==> #[trigger] run[k].leq(last),
        last.leq(next),
    ensures
        forall|k: int| 0 <= k < run.len() ==> #[trigger] run[k].leq(next),
{
    assert forall|k: int| 0 <= k < run.len() implies #[trigger] run[k].leq(next) by {
        assert(level_leq()(run[k], last) && level_leq()(last, next));
    }
}

/// Ranks the levels from index `from` up to index `to`.
fn rank_range(levels: &Vec<Level>, from: usize, to: usize) -> (out: Vec<Level>)
    requires
        from <= to <= levels.len(),
    ensures
        ascending(out@),
        out@.to_multiset() == levels@.subrange(from as int, to as int).to_multiset(),
    decreases to - from,
{
    if to - from <= 1 {
        let mut out: Vec<Level> = Vec::new();
        if to - from == 1 {
            out.push(levels[from]);
        }
        proof {
            assert(out@ =~= levels@.subrange(from as int, to as int));
        }
        out
    } else {
        let middle: usize = from + (to - from) / 2;
        let left: Vec<Level> = rank_range(levels, from, middle);
        let right: Vec<Level> = rank_range(levels, middle, to);
        proof {
            let first = levels@.subrange(from as int, middle as int);
            let second = levels@.subrange(middle as int, to as int);
            assert(levels@.subrange(from as int, to as int) =~= first + second);
            lemma_multiset_commutative(first, second);
        }
        merge_runs(&left, &right)
    }
}

/// Ranks the levels: the same levels in ascending order.
pub fn rank(levels: &Vec<Level>) -> (out: Vec<Level>)
    ensures
        out@ == ranked(levels@),
{
    let out: Vec<Level> = rank_range(levels, 0, levels.len());
    proof {
        assert(levels@.subrange(0, levels.len() as int) =~= levels@);
        lemma_ranked_is_unique(levels@, out@);
    }
    out
}

/// Whether `first` comes at or before `second` when reading the ranking from
/// its end (`from_end`) or from its start.
pub open spec fn ahead(first: Level, second: Level, from_end: bool) -> bool {
    if from_end {
        second.leq(first)
    } else {
        first.leq(second)
    }
}

/// Whether `level` is one of the levels and comes at or before every one of
/// them, reading the ranking from its end (`from_end`) or from its start.
pub open spec fn foremost(level: Level, levels: Seq<Level>, from_end: bool) -> bool {
    &&& levels.contains(level)
    &&& forall|i: int| 0 <= i < levels.len() ==> ahead(level, #[trigger] levels[i], from_end)
}

/// The foremost level is the last of the ranking, or its first.
pub proof fn lemma_foremost_is_end_of_ranking(level: Level, levels: Seq<Level>, from_end: bool)
    requires
        foremost(level, levels, from_end),
    ensures
        levels.len() > 0,
        from_end ==> ranked(levels).last() == level,
        !from_end ==> ranked(levels).first() == level,
{
    lemma_ranked_is_ascending_permutation(levels);
    lemma_level_order_total();
    let sorted = ranked(levels);
    let end = if from_end {
        sorted.len() - 1
    } else {
        0
    };
    assert(levels.contains(sorted[end]));
    let i = choose|i: int| 0 <= i < levels.len() && levels[i] == sorted[end];
    assert(ahead(level, levels[i], from_end));
    assert(level_leq()(level, sorted[end]) && level_leq()(sorted[end], level));
}

/// The foremost of the levels seen so far, after one more level.
fn foremost_with(best: Option<Level>, level: Level, from_end: bool, Ghost(seen): Ghost<Seq<Level>>) -> (r:
    Level)
    requires
        match best {
            Some(b) => foremost(b, seen, from_end),
            None => seen.len() == 0,
        },
    ensures
        foremost(r, seen.push(level), from_end),
{
    let pushed = Ghost(seen.push(level));
    proof {
        assert(pushed@[seen.len() as int] == level);
    }
    match best {
        None => level,
        Some(b) => {
            let order: Order = level.compare(&b);
            let takes: bool = match order {
                Order::Greater => from_end,
                Order::Less => !from_end,
                Order::Equal => false,
            };
            proof {
                let i = choose|i: int| 0 <= i < seen.len() && seen[i] == b;
                assert(pushed@[i] == b);
                if takes {
                    assert forall|i: int| 0 <= i < pushed@.len() implies ahead(
                        level,
                        #[trigger] pushed@[i],
                        from_end,
                    ) by {
                        if i < seen.len() {
                            assert(level_leq()(seen[i], b) && level_leq()(b, level) ==> level_leq()(
                                seen[i],
                                level,
                            ));
                            assert(level_leq()(level, b) && level_leq()(b, seen[i]) ==> level_leq()(
                                level,
                                seen[i],
                            ));
                        }
                    }
                } else {
                    assert forall|i: int| 0 <= i < pushed@.len() implies ahead(
                        b,
                        #[trigger] pushed@[i],
                        from_end,
                    ) by {
                        if i < seen.len() {
                            assert(ahead(b, seen[i], from_end));
                        }
                    }
                }
            }
            if takes {
                level
            } else {
                b
            }
        },
    }
}

/// The level of the two lists that is the last of their ranking (`from_end`),
/// or the first; `None` where both lists are empty.
pub fn end_of_ranking(first: &Vec<Level>, second: &Vec<Level>, from_end: bool) -> (r: Option<Level>)
    ensures
        first@.len() + second@.len() == 0 ==> r is None,
        first@.len() + second@.len() > 0 && from_end ==> r == Some(ranked(first@ + second@).last()),
        first@.len() + second@.len() > 0 && !from_end ==> r == Some(
            ranked(first@ + second@).first(),
        ),
{
    let mut best: Option<Level> = None;
    let mut i: usize = 0;
    while i < first.len()
        invariant
            i <= first.len(),
            match best {
                Some(b) => foremost(b, first@.take(i as int), from_end),
                None => i == 0,
            },
        decreases first.len() - i,
    {
        proof {
            assert(first@.take(i + 1) =~= first@.take(i as int).push(first@[i as int]));
        }
        best = Some(foremost_with(best, first[i], from_end, Ghost(first@.take(i as int))));
        i += 1;
    }
    proof {
        assert(first@.take(i as int) =~= first@);
    }
    let mut j: usize = 0;
    while j < second.len()
        invariant
            j <= second.len(),
            match best {
                Some(b) => foremost(b, first@ + second@.take(j as int), from_end),
                None => first@.len() == 0 && j == 0,
            },
        decreases second.len() - j,
    {
        proof {
            assert(first@ + second@.take(j + 1) =~= (first@ + second@.take(j as int)).push(
                second@[j as int],
            ));
        }
        best = Some(
            foremost_with(best, second[j], from_end, Ghost(first@ + second@.take(j as int))),
        );
        j += 1;
    }
    proof {
        assert(second@.take(j as int) =~= second@);
        if let Some(b) = best {
            lemma_foremost_is_end_of_ranking(b, first@ + second@, from_end);
        }
    }
    best
}

} // verus!
