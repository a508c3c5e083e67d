//! The gaps that the live identifiers leave in a range.
//!
//! The ends of the range and the taken numbers strictly between them are
//! the boundaries. A gap is a pair of boundaries with no boundary between
//! them; the numbers strictly inside it are free.

use vstd::prelude::*;

verus! {

/// `x` is an end of the range, or a taken number strictly inside it.
pub open spec fn is_boundary(taken: Set<u32>, min: u32, max: u32, x: u32) -> bool {
    x == min || x == max || (min < x < max && taken.contains(x))
}

/// `g` is a pair of neighbouring boundaries, the lower one first.
pub open spec fn is_gap(taken: Set<u32>, min: u32, max: u32, g: (u32, u32)) -> bool {
    &&& is_boundary(taken, min, max, g.0)
    &&& is_boundary(taken, min, max, g.1)
    &&& g.0 < g.1
    &&& forall|x: u32| g.0 < x < g.1 ==> !#[trigger] is_boundary(taken, min, max, x)
}

/// The distance between the two ends of a gap.
pub open spec fn width(g: (u32, u32)) -> int {
    g.1 - g.0
}

/// A gap that holds a free number.
pub open spec fn is_wide_gap(taken: Set<u32>, min: u32, max: u32, g: (u32, u32)) -> bool {
    is_gap(taken, min, max, g) && width(g) > 1
}

/// `c` may be picked from the gap `g`: it lies strictly inside, and unless
/// picks are random it is the midpoint, rounded down.
pub open spec fn chosen_from(g: (u32, u32), random: bool, c: u32) -> bool {
    &&& g.0 < c < g.1
    &&& !random ==> c == (g.0 + g.1) / 2
}

/// `gaps` are the widest gaps that hold a free number, at most `cap` of
/// them, each once, the widest last.
pub open spec fn widest_gaps(
    taken: Set<u32>,
    min: u32,
    max: u32,
    cap: nat,
    gaps: Seq<(u32, u32)>,
) -> bool {
    &&& gaps.no_duplicates()
    &&& gaps.len() <= cap
    &&& forall|i: int| 0 <= i < gaps.len() ==> is_wide_gap(taken, min, max, #[trigger] gaps[i])
    &&& forall|i: int, j: int|
        0 <= i < j < gaps.len() ==> width(#[trigger] gaps[i]) <= width(#[trigger] gaps[j])
    &&& forall|g: (u32, u32)|
        #[trigger] is_wide_gap(taken, min, max, g) && !gaps.contains(g) ==> {
            &&& gaps.len() == cap
            &&& forall|i: int| 0 <= i < gaps.len() ==> width(g) <= width(#[trigger] gaps[i])
        }
}

/// `picks` holds one pick from each of `gaps`, in their order.
pub open spec fn picked_from(gaps: Seq<(u32, u32)>, random: bool, picks: Seq<u32>) -> bool {
    &&& picks.len() == gaps.len()
    &&& forall|i: int| 0 <= i < gaps.len() ==> chosen_from(gaps[i], random, #[trigger] picks[i])
}

/// `picks` is a full prefetch buffer for a range in which `taken` is live:
/// one pick from each of the widest gaps, the pick from the widest gap last.
pub open spec fn refilled(
    taken: Set<u32>,
    min: u32,
    max: u32,
    cap: nat,
    random: bool,
    picks: Seq<u32>,
) -> bool {
    exists|gaps: Seq<(u32, u32)>|
        #[trigger] widest_gaps(taken, min, max, cap, gaps) && picked_from(gaps, random, picks)
}

/// Every number strictly between the ends of the range is taken.
pub open spec fn exhausted(taken: Set<u32>, min: u32, max: u32) -> bool {
    forall|x: u32| min < x < max ==> #[trigger] taken.contains(x)
}

/// Two gaps that share a number are one gap.
pub proof fn lemma_gaps_disjoint(
    taken: Set<u32>,
    min: u32,
    max: u32,
    g: (u32, u32),
    h: (u32, u32),
    c: u32,
)
    requires
        is_gap(taken, min, max, g),
        is_gap(taken, min, max, h),
        g.0 < c < g.1,
        h.0 < c < h.1,
    ensures
        g == h,
{
    if g.0 < h.0 {
        assert(is_boundary(taken, min, max, h.0));
    }
    if h.0 < g.0 {
        assert(is_boundary(taken, min, max, g.0));
    }
    if g.1 < h.1 {
        assert(is_boundary(taken, min, max, g.1));
    }
    if h.1 < g.1 {
        assert(is_boundary(taken, min, max, h.1));
    }
}

/// A number strictly inside a gap lies strictly inside the range and is not
/// taken.
pub proof fn lemma_inside_gap_is_free(taken: Set<u32>, min: u32, max: u32, g: (u32, u32), c: u32)
    requires
        min < max,
        is_gap(taken, min, max, g),
        g.0 < c < g.1,
    ensures
        min < c < max,
        !taken.contains(c),
{
    assert(!is_boundary(taken, min, max, c));
}

/// The picks of a refill differ from one another, lie strictly inside the
/// range, and were not taken.
pub proof fn lemma_refill_is_fresh(
    taken: Set<u32>,
    min: u32,
    max: u32,
    cap: nat,
    random: bool,
    picks: Seq<u32>,
)
    requires
        min < max,
        refilled(taken, min, max, cap, random, picks),
    ensures
        picks.no_duplicates(),
        forall|i: int|
            0 <= i < picks.len() ==> min < #[trigger] picks[i] < max && !taken.contains(picks[i]),
{
    let gaps = choose|gaps: Seq<(u32, u32)>|
        #[trigger] widest_gaps(taken, min, max, cap, gaps) && picked_from(gaps, random, picks);
    assert forall|i: int| 0 <= i < picks.len() implies min < #[trigger] picks[i] < max
        && !taken.contains(picks[i]) by {
        assert(is_wide_gap(taken, min, max, gaps[i]));
        lemma_inside_gap_is_free(taken, min, max, gaps[i], picks[i]);
    }
    assert forall|i: int, j: int| 0 <= i < picks.len() && 0 <= j < picks.len() && i != j implies picks[i]
        != picks[j] by {
        assert(is_wide_gap(taken, min, max, gaps[i]));
        assert(is_wide_gap(taken, min, max, gaps[j]));
        if picks[i] == picks[j] {
            lemma_gaps_disjoint(taken, min, max, gaps[i], gaps[j], picks[i]);
        }
    }
}

/// A refill comes out empty exactly where the range is exhausted.
pub proof fn lemma_refill_empty_iff_exhausted(
    taken: Set<u32>,
    min: u32,
    max: u32,
    cap: nat,
    random: bool,
    picks: Seq<u32>,
)
    requires
        min < max,
        cap > 0,
        refilled(taken, min, max, cap, random, picks),
    ensures
        picks.len() == 0 <==> exhausted(taken, min, max),
{
    let gaps = choose|gaps: Seq<(u32, u32)>|
        #[trigger] widest_gaps(taken, min, max, cap, gaps) && picked_from(gaps, random, picks);
    if picks.len() > 0 {
        assert(is_wide_gap(taken, min, max, gaps[0]));
        lemma_inside_gap_is_free(taken, min, max, gaps[0], picks[0]);
    }
    if !exhausted(taken, min, max) {
        let x = choose|x: u32| min < x < max && !taken.contains(x);
        let g = lemma_free_number_has_gap(taken, min, max, x);
        if picks.len() == 0 {
            assert(!gaps.contains(g));
        }
    }
}

/// A free number strictly inside the range lies in a gap that is wide.
pub proof fn lemma_free_number_has_gap(taken: Set<u32>, min: u32, max: u32, x: u32) -> (g: (
    u32,
    u32,
))
    requires
        min < x < max,
        !taken.contains(x),
    ensures
        is_wide_gap(taken, min, max, g),
        g.0 < x < g.1,
{
    let lo = lemma_boundary_below(taken, min, max, x, x);
    let up = lemma_boundary_above(taken, min, max, x, x);
    (lo, up)
}

proof fn lemma_boundary_below(taken: Set<u32>, min: u32, max: u32, x: u32, from: u32) -> (lo: u32)
    requires
        min < x < max,
        min <= from <= x,
        forall|y: u32| from <= y <= x ==> !#[trigger] is_boundary(taken, min, max, y) || y == from,
        !is_boundary(taken, min, max, x),
    ensures
        lo < x,
        is_boundary(taken, min, max, lo),
        forall|y: u32| lo < y <= x ==> !#[trigger] is_boundary(taken, min, max, y),
    decreases from,
{
    if from < x && is_boundary(taken, min, max, from) {
        from
    } else {
        lemma_boundary_below(taken, min, max, x, (from - 1) as u32)
    }
}

proof fn lemma_boundary_above(taken: Set<u32>, min: u32, max: u32, x: u32, from: u32) -> (up: u32)
    requires
        min < x < max,
        x <= from <= max,
        forall|y: u32| x <= y <= from ==> !#[trigger] is_boundary(taken, min, max, y) || y == from,
        !is_boundary(taken, min, max, x),
    ensures
        x < up,
        is_boundary(taken, min, max, up),
        forall|y: u32| x <= y < up ==> !#[trigger] is_boundary(taken, min, max, y),
    decreases max - from,
{
    if x < from && is_boundary(taken, min, max, from) {
        from
    } else {
        lemma_boundary_above(taken, min, max, x, (from + 1) as u32)
    }
}

/// A refilled buffer is handed out from its end, so the identifiers that
/// follow a refill come from gaps of falling width, the widest first, and
/// no gap that was passed over is wider than one that was used. The gaps
/// are given back in the order in which their picks are handed out.
pub proof fn lemma_widest_first(
    taken: Set<u32>,
    min: u32,
    max: u32,
    cap: nat,
    random: bool,
    picks: Seq<u32>,
) -> (from: Seq<(u32, u32)>)
    requires
        refilled(taken, min, max, cap, random, picks),
    ensures
        from.len() == picks.len() <= cap,
        forall|r: int|
            0 <= r < from.len() ==> is_wide_gap(taken, min, max, #[trigger] from[r]) && chosen_from(
                from[r],
                random,
                picks[picks.len() - 1 - r],
            ),
        forall|r: int, s: int|
            0 <= r < s < from.len() ==> width(#[trigger] from[r]) >= width(#[trigger] from[s]),
        forall|g: (u32, u32), r: int|
            #![trigger is_wide_gap(taken, min, max, g), from[r]]
            is_wide_gap(taken, min, max, g) && !from.contains(g) && 0 <= r < from.len() ==> width(
                g,
            ) <= width(from[r]),
{
    let gaps = choose|gaps: Seq<(u32, u32)>|
        #[trigger] widest_gaps(taken, min, max, cap, gaps) && picked_from(gaps, random, picks);
    let from = gaps.reverse();
    assert forall|r: int| 0 <= r < from.len() implies is_wide_gap(
        taken,
        min,
        max,
        #[trigger] from[r],
    ) && chosen_from(from[r], random, picks[picks.len() - 1 - r]) by {
        assert(from[r] == gaps[gaps.len() - 1 - r]);
    }
    assert forall|g: (u32, u32), r: int|
        #![trigger is_wide_gap(taken, min, max, g), from[r]]
        is_wide_gap(taken, min, max, g) && !from.contains(g) && 0 <= r < from.len() implies width(
        g,
    ) <= width(from[r]) by {
        if gaps.contains(g) {
            let i = choose|i: int| 0 <= i < gaps.len() && gaps[i] == g;
            assert(from[gaps.len() - 1 - i] == g);
        }
        assert(from[r] == gaps[gaps.len() - 1 - r]);
    }
    from
}

} // verus!
