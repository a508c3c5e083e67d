//! Pairing neighbours and ordering gaps by width, both by `itertools`.

use vstd::prelude::*;
use std::cmp::Ordering;
use itertools::Itertools;
use crate::id_gen::gaps::width;

verus! {

/// Orders two gaps so that the wider one comes first.
pub(crate) fn wider_first(a: &(u32, u32), b: &(u32, u32)) -> (o: Ordering)
    requires
        a.0 <= a.1,
        b.0 <= b.1,
    ensures
        o is Less <==> width(*a) > width(*b),
        o is Greater <==> width(*a) < width(*b),
        o is Equal <==> width(*a) == width(*b),
{
    let wide_a: u32 = a.1 - a.0;
    let wide_b: u32 = b.1 - b.0;
    if wide_b < wide_a {
        Ordering::Less
    } else if wide_b > wide_a {
        Ordering::Greater
    } else {
        Ordering::Equal
    }
}

/// The pairs of neighbours of `points`, by `itertools`'
/// `Itertools::tuple_windows`. Trusted: that adaptor yields each item with
/// the one after it, in order, and nothing where there are fewer than two
/// items.
#[verifier::external_body]
pub(crate) fn tuple_windows(points: Vec<u32>) -> (pairs: Vec<(u32, u32)>)
    ensures
        pairs.len() + 1 == points.len() || (pairs.len() == 0 && points.len() == 0),
        forall|i: int| 0 <= i < pairs.len() ==> #[trigger] pairs[i] == (points[i], points[i + 1]),
{
    points.into_iter().tuple_windows().collect()
}

/// `gaps` in the order of `wider_first`, by `itertools`'
/// `Itertools::sorted_unstable_by`. Trusted: the result holds the same gaps
/// as often as `gaps` does, and no gap stands before a wider one. The sort
/// is unstable, so nothing is said of the order among gaps of one width.
#[verifier::external_body]
pub(crate) fn sorted_unstable_by(gaps: Vec<(u32, u32)>) -> (sorted: Vec<(u32, u32)>)
    requires
        forall|i: int| 0 <= i < gaps.len() ==> (#[trigger] gaps[i]).0 <= gaps[i].1,
    ensures
        sorted@.to_multiset() == gaps@.to_multiset(),
        forall|i: int, j: int|
            0 <= i < j < sorted.len() ==> width(#[trigger] sorted[i]) >= width(#[trigger] sorted[j]),
{
    gaps.into_iter().sorted_unstable_by(wider_first).collect()
}

} // verus!
