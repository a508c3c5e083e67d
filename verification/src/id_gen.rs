//! Identifier generators: what every generator promises, and the laws that
//! follow from the promise.
//!
//! A generator is described by two things. Its live set holds every
//! identifier that is taken: registered at start, handed to a caller, or
//! waiting in the prefetch buffer. Its prefetch buffer lists the identifiers
//! that are live already but that no caller has seen yet.

use vstd::prelude::*;
use crate::base36::{decode, encode, lemma_encode_spells, value_of, well_formed};

pub mod draw;
pub mod gaps;
pub mod order;
pub mod partition;
pub mod random;
pub mod refill;
pub mod widest;

pub use partition::PartitionIdGenerator;
pub use random::RandomIdGenerator;

verus! {

/// Why a generator could not be made.
#[derive(Debug, Clone, Copy, PartialEq, Eq, Structural)]
pub enum IdRangeError {
    /// The lower bound is no identifier, or is too large for the generator.
    InvalidMin,
    /// The upper bound is no identifier, or is too large for the generator.
    InvalidMax,
    /// The lower bound is not below the upper bound.
    EmptyRange,
}

/// What the two bounds of a range amount to, each given as it decodes: the
/// first fault found, or `None` for a range that holds an identifier.
pub open spec fn range_fault(low: Option<nat>, high: Option<nat>) -> Option<IdRangeError> {
    match (low, high) {
        (None, _) => Some(IdRangeError::InvalidMin),
        (Some(_), None) => Some(IdRangeError::InvalidMax),
        (Some(a), Some(b)) => if a < b {
            None
        } else {
            Some(IdRangeError::EmptyRange)
        },
    }
}

/// The numbers that the names in `present` spell, for a generator whose
/// largest number is `max`. A name that spells none is passed over.
pub open spec fn registered(present: Seq<String>, max: nat) -> Set<nat> {
    Set::new(
        |n: nat|
            exists|i: int| 0 <= i < present.len() && decode(#[trigger] present[i]@, max) == Some(n),
    )
}

/// One more name adds the number that it spells, where it spells one.
pub proof fn lemma_registered_next(present: Seq<String>, i: int, max: nat)
    requires
        0 <= i < present.len(),
    ensures
        registered(present.take(i + 1), max) == match decode(present[i]@, max) {
            Some(v) => registered(present.take(i), max).insert(v),
            None => registered(present.take(i), max),
        },
{
    let seen = present.take(i);
    let next = present.take(i + 1);
    let grown = match decode(present[i]@, max) {
        Some(v) => registered(seen, max).insert(v),
        None => registered(seen, max),
    };
    assert(next[i] == present[i]);
    assert forall|n: nat| registered(next, max).contains(n) == grown.contains(n) by {
        if registered(seen, max).contains(n) {
            let j = choose|j: int| 0 <= j < seen.len() && decode(#[trigger] seen[j]@, max) == Some(n);
            assert(next[j] == seen[j]);
        }
        if registered(next, max).contains(n) {
            let j = choose|j: int| 0 <= j < next.len() && decode(#[trigger] next[j]@, max) == Some(n);
            if j < i {
                assert(seen[j] == next[j]);
            }
        }
    }
    assert(registered(next, max) =~= grown);
}

/// No names spell no numbers, and all names are all names.
pub proof fn lemma_registered_ends(present: Seq<String>, max: nat)
    ensures
        registered(present.take(0), max) == Set::<nat>::empty(),
        registered(present.take(present.len() as int), max) == registered(present, max),
{
    assert(registered(present.take(0), max) =~= Set::<nat>::empty());
    assert(present.take(present.len() as int) =~= present);
}

/// The identifiers that are taken and out of the generator's hands: live,
/// and not waiting in the prefetch buffer.
pub open spec fn issued(live: Set<nat>, prefetched: Seq<nat>) -> Set<nat> {
    live.difference(prefetched.to_set())
}

/// The prefetch buffer holds no identifier twice, and only live ones.
pub open spec fn coherent(live: Set<nat>, prefetched: Seq<nat>) -> bool {
    &&& prefetched.no_duplicates()
    &&& forall|i: int| 0 <= i < prefetched.len() ==> live.contains(#[trigger] prefetched[i])
}

/// One successful allocation: `id` is the canonical spelling of a number,
/// and nothing that was live is lost. Where the buffer was coherent it stays
/// so, the number is live afterwards, it was not issued before, and it is
/// the one number that this call issues.
pub open spec fn allocated(
    live: Set<nat>,
    prefetched: Seq<nat>,
    live_after: Set<nat>,
    prefetched_after: Seq<nat>,
    id: Seq<char>,
) -> bool {
    let v = value_of(id);
    &&& id == encode(v)
    &&& live.subset_of(live_after)
    &&& coherent(live, prefetched) ==> {
        &&& live_after.contains(v)
        &&& coherent(live_after, prefetched_after)
        &&& !issued(live, prefetched).contains(v)
        &&& issued(live_after, prefetched_after) == issued(live, prefetched).insert(v)
    }
}

/// One release: a well-formed identifier that was live leaves the live set
/// and the answer is `true`; anything else leaves the live set as it was and
/// the answer is `false`.
pub open spec fn released(
    live: Set<nat>,
    live_after: Set<nat>,
    id: Seq<char>,
    was_live: bool,
) -> bool {
    if well_formed(id) && live.contains(value_of(id)) {
        was_live && live_after == live.remove(value_of(id))
    } else {
        !was_live && live_after == live
    }
}

/// A source of unique identifiers.
pub trait IdGenerator {
    /// The live set.
    spec fn live(&self) -> Set<nat>;

    /// The prefetch buffer; the last entry is handed out first.
    spec fn prefetched(&self) -> Seq<nat>;

    /// Hands out an identifier that was not issued, or `None` where the
    /// generator found none; then nothing has changed.
    fn get(&mut self) -> (id: Option<String>)
        ensures
            match id {
                Some(s) => allocated(
                    old(self).live(),
                    old(self).prefetched(),
                    final(self).live(),
                    final(self).prefetched(),
                    s@,
                ),
                None => final(self).live() == old(self).live() && final(self).prefetched() == old(
                    self,
                ).prefetched(),
            },
    ;

    /// Takes `val` out of the live set and says whether it was there. The
    /// prefetch buffer is not looked at: `val` is meant to be an identifier
    /// that `get` has handed out.
    fn remove(&mut self, val: &str) -> (was_live: bool)
        ensures
            final(self).prefetched() == old(self).prefetched(),
            released(old(self).live(), final(self).live(), val@, was_live),
    ;
}

/// The state from which a run of allocations starts is coherent, and each
/// step of `states` is one allocation: the step from `states[k]` hands out
/// `ids[k]`.
pub open spec fn allocation_run<G: IdGenerator>(states: Seq<G>, ids: Seq<Seq<char>>) -> bool {
    &&& states.len() == ids.len() + 1
    &&& coherent(states[0].live(), states[0].prefetched())
    &&& forall|k: int|
        0 <= k < ids.len() ==> allocated(
            states[k].live(),
            states[k].prefetched(),
            states[k + 1].live(),
            states[k + 1].prefetched(),
            #[trigger] ids[k],
        )
}

proof fn lemma_run_keeps_issued<G: IdGenerator>(states: Seq<G>, ids: Seq<Seq<char>>, k: int)
    requires
        allocation_run(states, ids),
        0 <= k <= ids.len(),
    ensures
        coherent(states[k].live(), states[k].prefetched()),
        forall|j: int|
            0 <= j < k ==> issued(states[k].live(), states[k].prefetched()).contains(
                value_of(#[trigger] ids[j]),
            ),
    decreases k,
{
    if k > 0 {
        lemma_run_keeps_issued(states, ids, k - 1);
        assert(allocated(
            states[k - 1].live(),
            states[k - 1].prefetched(),
            states[k - 1 + 1].live(),
            states[k - 1 + 1].prefetched(),
            ids[k - 1],
        ));
    }
}

/// Allocations that no release comes between hand out identifiers that all
/// differ, and that spell numbers that all differ, whatever the generator
/// and however long the run.
pub proof fn lemma_allocations_distinct<G: IdGenerator>(states: Seq<G>, ids: Seq<Seq<char>>)
    requires
        allocation_run(states, ids),
    ensures
        forall|i: int, j: int|
            0 <= i < j < ids.len() ==> ids[i] != ids[j] && value_of(ids[i]) != value_of(ids[j]),
{
    assert forall|i: int, j: int| 0 <= i < j < ids.len() implies ids[i] != ids[j] && value_of(
        ids[i],
    ) != value_of(ids[j]) by {
        lemma_run_keeps_issued(states, ids, j);
        assert(allocated(
            states[j].live(),
            states[j].prefetched(),
            states[j + 1].live(),
            states[j + 1].prefetched(),
            ids[j],
        ));
        assert(issued(states[j].live(), states[j].prefetched()).contains(value_of(ids[i])));
    }
}

/// A released identifier is live no longer, so a later allocation is free to
/// hand it out again; and a release of what is no identifier changes nothing.
pub proof fn lemma_release_frees<G: IdGenerator>(
    before: G,
    after: G,
    id: Seq<char>,
    was_live: bool,
)
    requires
        released(before.live(), after.live(), id, was_live),
    ensures
        well_formed(id) ==> !after.live().contains(value_of(id)),
        !well_formed(id) ==> !was_live && after.live() == before.live(),
        after.live().subset_of(before.live()),
{
}

/// An allocation that is released at once, as after a failed write, leaves no
/// trace: the issued identifiers are those from before the allocation, and
/// for a generator without a buffer so is the live set.
pub proof fn lemma_release_undoes_allocation<G: IdGenerator>(
    before: G,
    holding: G,
    after: G,
    id: Seq<char>,
    was_live: bool,
)
    requires
        coherent(before.live(), before.prefetched()),
        allocated(
            before.live(),
            before.prefetched(),
            holding.live(),
            holding.prefetched(),
            id,
        ),
        released(holding.live(), after.live(), id, was_live),
        after.prefetched() == holding.prefetched(),
    ensures
        was_live,
        coherent(after.live(), after.prefetched()),
        issued(after.live(), after.prefetched()) == issued(before.live(), before.prefetched()),
        before.prefetched().len() == 0 && holding.prefetched().len() == 0 ==> after.live()
            == before.live(),
{
    let v = value_of(id);
    lemma_encode_spells(v);
    assert(well_formed(id));
    assert(after.live() == holding.live().remove(v));
    let was = issued(before.live(), before.prefetched());
    let held = issued(holding.live(), holding.prefetched());
    assert(held == was.insert(v));
    assert(held.contains(v));
    assert(!holding.prefetched().to_set().contains(v));
    assert(issued(after.live(), after.prefetched()) =~= held.remove(v));
    assert(was.insert(v).remove(v) =~= was);
    if before.prefetched().len() == 0 && holding.prefetched().len() == 0 {
        assert(issued(before.live(), before.prefetched()) =~= before.live());
        assert(issued(after.live(), after.prefetched()) =~= after.live());
    }
}

} // verus!
