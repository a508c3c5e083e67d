//! Refilling the prefetch buffer: the gaps of the range are read off the
//! live numbers, the widest are kept, and one number is picked from each.

use vstd::prelude::*;
use vstd::std_specs::iter::IteratorSpec;
use std::collections::BTreeSet;
use crate::id_gen::draw::sample_single;
use crate::id_gen::gaps::{
    chosen_from, is_boundary, is_gap, is_wide_gap, picked_from, refilled, widest_gaps, width,
};
use crate::id_gen::order::lemma_walk_ascends;
use crate::id_gen::widest::{sorted_unstable_by, tuple_windows};

verus! {

/// Each item is below the one after it.
spec fn ascending(s: Seq<u32>) -> bool {
    forall|i: int, j: int| 0 <= i < j < s.len() ==> s[i] < s[j]
}

/// The boundaries of the range, in ascending order.
fn boundaries(numbers: &BTreeSet<u32>, min: u32, max: u32) -> (points: Vec<u32>)
    requires
        min < max,
    ensures
        ascending(points@),
        points.len() >= 2,
        forall|x: u32| points@.contains(x) <==> is_boundary(numbers@, min, max, x),
{
    let mut points: Vec<u32> = Vec::new();
    points.push(min);
    let ghost full: Seq<&u32> = numbers.iter().remaining();
    let ghost mut last: int = -1;
    proof {
        lemma_walk_ascends(full);
        assert(full.unref().to_set() == numbers@);
    }
    for x in it: numbers.iter()
        invariant
            it.seq() == full,
            min < max,
            full.unref().to_set() == numbers@,
            forall|i: int, j: int| 0 <= i < j < full.len() ==> *full[i] < *full[j],
            points.len() >= 1,
            points@[0] == min,
            ascending(points@),
            -1 <= last < it.index(),
            points.len() > 1 ==> 0 <= last && points@[points.len() - 1] == *full[last],
            forall|i: int|
                0 < i < points.len() ==> min < #[trigger] points@[i] < max && numbers@.contains(
                    points@[i],
                ),
            forall|k: int|
                0 <= k < it.index() && min < *#[trigger] full[k] < max ==> points@.contains(
                    *full[k],
                ),
    {
        let ghost before = points@;
        let ghost at = it.index() as int;
        if min < *x && *x < max {
            proof {
                if before.len() > 1 {
                    assert(*full[last] < *full[at]);
                }
                assert(full.unref()[at] == *x);
                assert(full.unref().to_set().contains(*x));
            }
            points.push(*x);
            proof {
                last = at;
            }
        }
        proof {
            assert forall|k: int|
                0 <= k < at + 1 && min < *#[trigger] full[k] < max implies points@.contains(
                *full[k],
            ) by {
                if k < at {
                    let i = choose|i: int| 0 <= i < before.len() && before[i] == *full[k];
                    assert(points@[i] == *full[k]);
                } else {
                    assert(points@[points.len() - 1] == *full[k]);
                }
            }
        }
    }
    let ghost inner = points@;
    points.push(max);
    proof {
        assert forall|x: u32| points@.contains(x) implies is_boundary(numbers@, min, max, x) by {
            let i = choose|i: int| 0 <= i < points.len() && points@[i] == x;
            if 0 < i < inner.len() {
                assert(inner[i] == x);
            }
        }
        assert forall|x: u32| is_boundary(numbers@, min, max, x) implies points@.contains(x) by {
            if x == min {
                assert(points@[0] == x);
            } else if x == max {
                assert(points@[points.len() - 1] == x);
            } else {
                assert(full.unref().to_set().contains(x));
                let k = choose|k: int| 0 <= k < full.unref().len() && full.unref()[k] == x;
                assert(*full[k] == x);
                let i = choose|i: int| 0 <= i < inner.len() && inner[i] == x;
                assert(points@[i] == x);
            }
        }
    }
    points
}

/// The list holds every boundary, in ascending order.
spec fn lists_boundaries(taken: Set<u32>, min: u32, max: u32, points: Seq<u32>) -> bool {
    &&& ascending(points)
    &&& forall|x: u32| points.contains(x) <==> is_boundary(taken, min, max, x)
}

/// Two neighbours in the list of boundaries are a gap.
proof fn lemma_neighbours_are_gap(taken: Set<u32>, min: u32, max: u32, points: Seq<u32>, i: int)
    requires
        lists_boundaries(taken, min, max, points),
        0 <= i < points.len() - 1,
    ensures
        is_gap(taken, min, max, (points[i], points[i + 1])),
{
    assert(points.contains(points[i]));
    assert(points.contains(points[i + 1]));
    assert forall|x: u32| points[i] < x < points[i + 1] implies !#[trigger] is_boundary(
        taken,
        min,
        max,
        x,
    ) by {
        if points.contains(x) {
            let k = choose|k: int| 0 <= k < points.len() && points[k] == x;
            if k <= i {
                assert(k == i || points[k] < points[i]);
            } else {
                assert(k == i + 1 || points[i + 1] < points[k]);
            }
        }
    }
}

/// A gap is two neighbours in the list of boundaries.
proof fn lemma_gap_is_neighbours(
    taken: Set<u32>,
    min: u32,
    max: u32,
    points: Seq<u32>,
    g: (u32, u32),
) -> (i: int)
    requires
        lists_boundaries(taken, min, max, points),
        is_gap(taken, min, max, g),
    ensures
        0 <= i < points.len() - 1,
        g == (points[i], points[i + 1]),
{
    assert(points.contains(g.0));
    assert(points.contains(g.1));
    let i = choose|i: int| 0 <= i < points.len() && points[i] == g.0;
    let j = choose|j: int| 0 <= j < points.len() && points[j] == g.1;
    if j <= i {
        assert(j == i || points[j] < points[i]);
    }
    if i + 1 < j {
        assert(points[i] < points[i + 1] < points[j]);
        assert(points.contains(points[i + 1]));
        assert(is_boundary(taken, min, max, points[i + 1]));
    }
    i
}

/// The gaps of the range that hold a free number, each once.
fn wide_gaps(numbers: &BTreeSet<u32>, min: u32, max: u32) -> (gaps: Vec<(u32, u32)>)
    requires
        min < max,
    ensures
        gaps@.no_duplicates(),
        forall|g: (u32, u32)| gaps@.contains(g) <==> is_wide_gap(numbers@, min, max, g),
{
    let points = boundaries(numbers, min, max);
    let ghost marks = points@;
    let pairs = tuple_windows(points);
    let mut gaps: Vec<(u32, u32)> = Vec::new();
    for i in 0..pairs.len()
        invariant
            lists_boundaries(numbers@, min, max, marks),
            pairs.len() + 1 == marks.len(),
            forall|k: int| 0 <= k < pairs.len() ==> #[trigger] pairs@[k] == (marks[k], marks[k + 1]),
            forall|t: int|
                0 <= t < gaps.len() ==> is_wide_gap(numbers@, min, max, #[trigger] gaps@[t]),
            forall|t: int| 0 <= t < gaps.len() ==> (#[trigger] gaps@[t]).0 < marks[i as int],
            forall|t: int, u: int|
                0 <= t < u < gaps.len() ==> (#[trigger] gaps@[t]).0 < (#[trigger] gaps@[u]).0,
            forall|k: int|
                0 <= k < i && width(#[trigger] pairs@[k]) > 1 ==> gaps@.contains(pairs@[k]),
    {
        let ghost before = gaps@;
        let pair: (u32, u32) = pairs[i];
        proof {
            assert(pairs@[i as int] == (marks[i as int], marks[i + 1]));
            lemma_neighbours_are_gap(numbers@, min, max, marks, i as int);
        }
        if pair.1 - pair.0 > 1 {
            gaps.push(pair);
            assert(gaps@[gaps.len() - 1] == pair);
        }
        proof {
            assert forall|k: int|
                0 <= k < i + 1 && width(#[trigger] pairs@[k]) > 1 implies gaps@.contains(
                pairs@[k],
            ) by {
                if k < i {
                    let t = choose|t: int| 0 <= t < before.len() && before[t] == pairs@[k];
                    assert(gaps@[t] == pairs@[k]);
                } else {
                    assert(gaps@[gaps.len() - 1] == pairs@[k]);
                }
            }
            assert forall|t: int| 0 <= t < gaps.len() implies (#[trigger] gaps@[t]).0 < marks[i
                + 1] by {
                if t < before.len() {
                    assert(before[t].0 < marks[i as int]);
                }
            }
        }
    }
    proof {
        assert forall|g: (u32, u32)| is_wide_gap(numbers@, min, max, g) implies gaps@.contains(
            g,
        ) by {
            let k = lemma_gap_is_neighbours(numbers@, min, max, marks, g);
            assert(pairs@[k] == g);
        }
    }
    gaps
}

/// One pick from the gap between `lo` and `up`.
fn pick(lo: u32, up: u32, is_random: bool) -> (c: u32)
    requires
        up - lo > 1,
    ensures
        chosen_from((lo, up), is_random, c),
{
    if up - lo == 2 {
        lo + 1
    } else if is_random {
        sample_single((lo + 1) as u64, up as u64) as u32
    } else {
        ((up as u64 + lo as u64) / 2) as u32
    }
}

/// One pick from each of the `cap` widest gaps of the range, the pick from
/// the widest gap last.
pub(crate) fn refill(numbers: &BTreeSet<u32>, min: u32, max: u32, cap: usize, is_random: bool) -> (picks: Vec<
    u32,
>)
    requires
        min < max,
    ensures
        refilled(numbers@, min, max, cap as nat, is_random, picks@),
{
    let gaps = wide_gaps(numbers, min, max);
    let ghost found = gaps@;
    proof {
        assert forall|i: int| 0 <= i < gaps.len() implies (#[trigger] gaps[i]).0 <= gaps[i].1 by {
            assert(found.contains(gaps[i]));
        }
    }
    let sorted = sorted_unstable_by(gaps);
    proof {
        found.lemma_multiset_has_no_duplicates();
        sorted@.lemma_multiset_has_no_duplicates_conv();
        assert forall|g: (u32, u32)| #[trigger] sorted@.contains(g) implies found.contains(g) by {
            vstd::seq_lib::to_multiset_contains(sorted@, g);
            vstd::seq_lib::to_multiset_contains(found, g);
        }
        assert forall|g: (u32, u32)| #[trigger] found.contains(g) implies sorted@.contains(g) by {
            vstd::seq_lib::to_multiset_contains(sorted@, g);
            vstd::seq_lib::to_multiset_contains(found, g);
        }
    }
    let keep: usize = if cap < sorted.len() {
        cap
    } else {
        sorted.len()
    };
    let ghost chosen: Seq<(u32, u32)> = Seq::new(keep as nat, |t: int| sorted@[keep - 1 - t]);
    let mut picks: Vec<u32> = Vec::new();
    let mut i: usize = keep;
    while i > 0
        invariant
            i <= keep <= sorted.len(),
            picks.len() == keep - i,
            forall|g: (u32, u32)|
                #[trigger] sorted@.contains(g) ==> is_wide_gap(numbers@, min, max, g),
            forall|t: int|
                0 <= t < picks.len() ==> chosen_from(sorted@[keep - 1 - t], is_random, #[trigger] picks@[t]),
        decreases i,
    {
        i = i - 1;
        let gap: (u32, u32) = sorted[i];
        assert(sorted@.contains(gap));
        picks.push(pick(gap.0, gap.1, is_random));
    }
    proof {
        assert forall|t: int, u: int| 0 <= t < chosen.len() && 0 <= u < chosen.len() && t != u implies chosen[t]
            != chosen[u] by {
            assert(sorted@[keep - 1 - t] != sorted@[keep - 1 - u]);
        }
        assert forall|t: int| 0 <= t < chosen.len() implies is_wide_gap(
            numbers@,
            min,
            max,
            #[trigger] chosen[t],
        ) by {
            assert(sorted@.contains(sorted@[keep - 1 - t]));
        }
        assert forall|g: (u32, u32)| #[trigger]
            is_wide_gap(numbers@, min, max, g) && !chosen.contains(g) implies chosen.len() == cap
            && forall|t: int| 0 <= t < chosen.len() ==> width(g) <= width(#[trigger] chosen[t]) by {
            assert(found.contains(g));
            assert(sorted@.contains(g));
            let m = choose|m: int| 0 <= m < sorted.len() && sorted@[m] == g;
            if m < keep {
                assert(chosen[keep - 1 - m] == g);
            }
            assert forall|t: int| 0 <= t < chosen.len() implies width(g) <= width(
                #[trigger] chosen[t],
            ) by {
                assert(width(sorted@[keep - 1 - t]) >= width(sorted@[m]));
            }
        }
        assert(widest_gaps(numbers@, min, max, cap as nat, chosen));
        assert(picked_from(chosen, is_random, picks@));
    }
    picks
}

} // verus!
