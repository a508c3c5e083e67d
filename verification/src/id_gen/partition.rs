//! Identifiers that split the widest gaps of the range, with a prefetch
//! buffer.

use vstd::prelude::*;
use std::collections::BTreeSet;
use crate::base36::{
    b36_to, decode, encode, lemma_encode_spells, to_base36, value_of, well_formed,
};
use crate::id_gen::{
    allocated, coherent, issued, lemma_registered_ends, lemma_registered_next, range_fault, registered, IdGenerator,
    IdRangeError,
};
use crate::id_gen::draw::gen_range;
use crate::id_gen::gaps::{
    exhausted, refilled, lemma_refill_is_fresh, lemma_refill_empty_iff_exhausted,
};
use crate::id_gen::refill::refill;

verus! {

/// The numbers of a generator's set, as the live set that every generator
/// shows.
pub open spec fn as_live(taken: Set<u32>) -> Set<nat> {
    Set::new(|n: nat| n <= u32::MAX && taken.contains(n as u32))
}

/// The numbers of a generator's buffer, as the prefetch buffer that every
/// generator shows.
pub open spec fn as_prefetched(buffer: Seq<u32>) -> Seq<nat> {
    buffer.map_values(|x: u32| x as nat)
}

/// What the two views say of each other, told in the generator's own
/// numbers.
proof fn lemma_views(taken: Set<u32>, buffer: Seq<u32>)
    ensures
        coherent(as_live(taken), as_prefetched(buffer)) <==> buffer.no_duplicates() && forall|
            i: int,
        | 0 <= i < buffer.len() ==> taken.contains(#[trigger] buffer[i]),
        forall|x: u32| #[trigger]
            issued(as_live(taken), as_prefetched(buffer)).contains(x as nat) <==> taken.contains(x)
                && !buffer.contains(x),
{
    let live = as_live(taken);
    let pre = as_prefetched(buffer);
    assert forall|i: int| 0 <= i < buffer.len() implies (live.contains(#[trigger] pre[i])
        <==> taken.contains(buffer[i])) by {}
    if buffer.no_duplicates() {
        assert forall|i: int, j: int| 0 <= i < pre.len() && 0 <= j < pre.len() && i != j implies pre[i]
            != pre[j] by {
            assert(buffer[i] != buffer[j]);
        }
    }
    if pre.no_duplicates() {
        assert forall|i: int, j: int|
            0 <= i < buffer.len() && 0 <= j < buffer.len() && i != j implies buffer[i]
            != buffer[j] by {
            assert(pre[i] != pre[j]);
        }
    }
    if coherent(live, pre) {
        assert forall|i: int| 0 <= i < buffer.len() implies taken.contains(
            #[trigger] buffer[i],
        ) by {
            assert(live.contains(pre[i]));
        }
    }
    assert forall|x: u32| #[trigger]
        issued(live, pre).contains(x as nat) <==> taken.contains(x) && !buffer.contains(x) by {
        if buffer.contains(x) {
            let i = choose|i: int| 0 <= i < buffer.len() && buffer[i] == x;
            assert(pre[i] == x as nat);
            assert(pre.to_set().contains(x as nat));
        }
        if pre.to_set().contains(x as nat) {
            let i = choose|i: int| 0 <= i < pre.len() && pre[i] == x as nat;
            assert(buffer[i] == x);
        }
    }
}

/// Handing out the last entry of the buffer `buffer` is an allocation, both
/// where the buffer was there before and where a refill has just made it.
proof fn lemma_pop_allocates(
    taken: Set<u32>,
    held: Seq<u32>,
    taken_after: Set<u32>,
    buffer: Seq<u32>,
)
    requires
        buffer.len() > 0,
        (taken_after == taken && buffer == held) || ({
            &&& held.len() == 0
            &&& taken_after == taken.union(buffer.to_set())
            &&& buffer.no_duplicates()
            &&& forall|i: int| 0 <= i < buffer.len() ==> !taken.contains(#[trigger] buffer[i])
        }),
    ensures
        allocated(
            as_live(taken),
            as_prefetched(held),
            as_live(taken_after),
            as_prefetched(buffer.drop_last()),
            encode(buffer.last() as nat),
        ),
{
    let v = buffer.last();
    let rest = buffer.drop_last();
    lemma_encode_spells(v as nat);
    lemma_views(taken, held);
    lemma_views(taken_after, rest);
    let before = issued(as_live(taken), as_prefetched(held));
    let after = issued(as_live(taken_after), as_prefetched(rest));
    assert(as_live(taken).subset_of(as_live(taken_after)));
    if coherent(as_live(taken), as_prefetched(held)) {
        assert(buffer.no_duplicates());
        assert(buffer[buffer.len() - 1] == v);
        assert forall|i: int| 0 <= i < buffer.len() implies taken_after.contains(
            #[trigger] buffer[i],
        ) by {
            if taken_after != taken {
                assert(buffer.to_set().contains(buffer[i]));
            }
        }
        assert(taken_after.contains(v));
        assert forall|i: int| 0 <= i < rest.len() implies taken_after.contains(
            #[trigger] rest[i],
        ) by {
            assert(rest[i] == buffer[i]);
        }
        assert(rest.no_duplicates());
        if rest.contains(v) {
            let i = choose|i: int| 0 <= i < rest.len() && rest[i] == v;
            assert(buffer[i] == v);
        }
        assert(!rest.contains(v));
        if taken_after == taken {
            assert(held.contains(v));
        }
        assert(!before.contains(v as nat));
        assert forall|n: nat| after.contains(n) <==> before.insert(v as nat).contains(n) by {
            if n <= u32::MAX {
                let x = n as u32;
                assert(after.contains(x as nat) <==> taken_after.contains(x) && !rest.contains(x));
                assert(before.contains(x as nat) <==> taken.contains(x) && !held.contains(x));
                if rest.contains(x) {
                    let i = choose|i: int| 0 <= i < rest.len() && rest[i] == x;
                    assert(buffer[i] == x);
                    assert(buffer.contains(x));
                }
                if buffer.contains(x) && x != v {
                    let i = choose|i: int| 0 <= i < buffer.len() && buffer[i] == x;
                    assert(rest[i] == x);
                }
                if taken_after != taken {
                    if buffer.to_set().contains(x) {
                        assert(buffer.contains(x));
                    }
                    if buffer.contains(x) {
                        let i = choose|i: int| 0 <= i < buffer.len() && buffer[i] == x;
                        assert(!taken.contains(buffer[i]));
                    }
                }
            }
        }
        assert(after =~= before.insert(v as nat));
    }
}

/// Splits the widest gaps of `[min, max)`, hands out the pick from the
/// widest gap first, and keeps the other picks in a prefetch buffer.
pub struct PartitionIdGenerator {
    plan: Plan,
    numbers: BTreeSet<u32>,
    cache: Vec<u32>,
}

/// How a generator picks: from which range, in which way, and how many
/// picks to a refill.
struct Plan {
    min: u32,
    max: u32,
    is_random: bool,
    max_pregen_size: usize,
}

impl Plan {
    /// The range holds an identifier, and a refill may pick.
    #[verifier::type_invariant]
    spec fn may_pick(self) -> bool {
        self.min < self.max && self.max_pregen_size > 0
    }
}

impl PartitionIdGenerator {
    /// The lower end of the range.
    pub closed spec fn lower(&self) -> u32 {
        self.plan.min
    }

    /// The upper end of the range, which is never handed out.
    pub closed spec fn upper(&self) -> u32 {
        self.plan.max
    }

    /// Picks are drawn at random; otherwise they are midpoints.
    pub closed spec fn picks_at_random(&self) -> bool {
        self.plan.is_random
    }

    /// The most picks that one refill makes.
    pub closed spec fn prefetch_cap(&self) -> nat {
        self.plan.max_pregen_size as nat
    }

    /// The live numbers.
    pub closed spec fn taken(&self) -> Set<u32> {
        self.numbers@
    }

    /// The prefetch buffer; its last entry is handed out first.
    pub closed spec fn buffer(&self) -> Seq<u32> {
        self.cache@
    }

    /// Makes a generator for `[min, max)`. A `max_pregen_size` of zero puts
    /// no cap on a refill. Where `present_values` names nothing, one number
    /// drawn from the range is live and waits in the buffer; else the live
    /// set holds what the names spell and the buffer is empty.
    pub fn new(
        min: &str,
        max: &str,
        is_random: bool,
        max_pregen_size: usize,
        present_values: Option<Vec<String>>,
    ) -> (made: Result<PartitionIdGenerator, IdRangeError>)
        ensures
            match range_fault(decode(min@, u32::MAX as nat), decode(max@, u32::MAX as nat)) {
                Some(fault) => made == Err::<PartitionIdGenerator, IdRangeError>(fault),
                None => made matches Ok(g) && {
                    &&& g.lower() < g.upper()
                    &&& decode(min@, u32::MAX as nat) == Some(g.lower() as nat)
                    &&& decode(max@, u32::MAX as nat) == Some(g.upper() as nat)
                    &&& g.picks_at_random() == is_random
                    &&& g.prefetch_cap() == if max_pregen_size == 0 {
                        usize::MAX as nat
                    } else {
                        max_pregen_size as nat
                    }
                    &&& coherent(g.live(), g.prefetched())
                    &&& match present_values {
                        Some(ids) if ids.len() > 0 => {
                            &&& g.live() == registered(ids@, u32::MAX as nat)
                            &&& g.buffer().len() == 0
                        },
                        _ => {
                            &&& g.buffer().len() == 1
                            &&& g.lower() <= g.buffer()[0] < g.upper()
                            &&& g.taken() == Set::<u32>::empty().insert(g.buffer()[0])
                        },
                    }
                },
            },
    {
        let max_pregen_size: usize = if max_pregen_size == 0 {
            usize::MAX
        } else {
            max_pregen_size
        };
        let min: u32 = match b36_to(min) {
            Some(v) => v,
            None => return Err(IdRangeError::InvalidMin),
        };
        let max: u32 = match b36_to(max) {
            Some(v) => v,
            None => return Err(IdRangeError::InvalidMax),
        };
        if min >= max {
            return Err(IdRangeError::EmptyRange);
        }
        let mut made = PartitionIdGenerator {
            plan: Plan { min, max, is_random, max_pregen_size },
            numbers: BTreeSet::new(),
            cache: Vec::new(),
        };
        let named: usize = match &present_values {
            Some(ids) => ids.len(),
            None => 0,
        };
        if named == 0 {
            let first_id: u32 = gen_range(min, max);
            made.numbers.insert(first_id);
            made.cache.push(first_id);
            proof {
                lemma_views(made.numbers@, made.cache@);
                assert(made.cache@[0] == first_id);
                assert(made.numbers@ =~= Set::<u32>::empty().insert(first_id));
            }
        } else if let Some(ids) = present_values {
            proof {
                lemma_registered_ends(ids@, u32::MAX as nat);
            }
            for i in 0..ids.len()
                invariant
                    made.plan.min == min,
                    made.plan.max == max,
                    made.plan.is_random == is_random,
                    made.plan.max_pregen_size == max_pregen_size,
                    made.cache@.len() == 0,
                    made.live() == registered(ids@.take(i as int), u32::MAX as nat),
            {
                let ghost before = made.live();
                proof {
                    lemma_registered_next(ids@, i as int, u32::MAX as nat);
                }
                if let Some(v) = b36_to(ids[i].as_str()) {
                    made.numbers.insert(v);
                    assert(made.live() =~= before.insert(v as nat));
                }
            }
            proof {
                lemma_registered_ends(ids@, u32::MAX as nat);
                lemma_views(made.numbers@, made.cache@);
            }
        }
        Ok(made)
    }

    /// Fills the empty buffer from the widest gaps and makes the picks live.
    /// Says whether there was anything to pick.
    fn generate(&mut self) -> (filled: bool)
        requires
            old(self).buffer().len() == 0,
        ensures
            final(self).lower() == old(self).lower(),
            final(self).upper() == old(self).upper(),
            final(self).picks_at_random() == old(self).picks_at_random(),
            final(self).prefetch_cap() == old(self).prefetch_cap(),
            refilled(
                old(self).taken(),
                old(self).lower(),
                old(self).upper(),
                old(self).prefetch_cap(),
                old(self).picks_at_random(),
                final(self).buffer(),
            ),
            final(self).taken() == old(self).taken().union(final(self).buffer().to_set()),
            filled == (final(self).buffer().len() > 0),
    {
        proof {
            use_type_invariant(&self.plan);
        }
        let picks = refill(
            &self.numbers,
            self.plan.min,
            self.plan.max,
            self.plan.max_pregen_size,
            self.plan.is_random,
        );
        if picks.len() == 0 {
            self.cache = picks;
            assert(self.numbers@ =~= old(self).numbers@.union(self.cache@.to_set()));
            return false;
        }
        for i in 0..picks.len()
            invariant
                self.plan == old(self).plan,
                self.numbers@ == old(self).numbers@.union(picks@.take(i as int).to_set()),
        {
            self.numbers.insert(picks[i]);
            proof {
                let seen = picks@.take(i as int);
                let next = picks@.take(i + 1);
                assert(next =~= seen.push(picks@[i as int]));
                assert(next.to_set() =~= seen.to_set().insert(picks@[i as int])) by {
                    assert forall|x: u32| next.to_set().contains(x) <==> seen.to_set().insert(
                        picks@[i as int],
                    ).contains(x) by {
                        if next.contains(x) {
                            let k = choose|k: int| 0 <= k < next.len() && next[k] == x;
                            if k < i {
                                assert(seen[k] == x);
                            }
                        }
                        if seen.contains(x) {
                            let k = choose|k: int| 0 <= k < seen.len() && seen[k] == x;
                            assert(next[k] == x);
                        }
                        assert(next[i as int] == picks@[i as int]);
                    }
                }
                assert(self.numbers@ =~= old(self).numbers@.union(next.to_set()));
            }
        }
        assert(picks@.take(picks.len() as int) =~= picks@);
        self.cache = picks;
        true
    }
}

impl IdGenerator for PartitionIdGenerator {
    open spec fn live(&self) -> Set<nat> {
        as_live(self.taken())
    }

    open spec fn prefetched(&self) -> Seq<nat> {
        as_prefetched(self.buffer())
    }

    /// Hands out the last entry of the buffer. An empty buffer is refilled
    /// first; `None` says that the refill found no free number.
    fn get(&mut self) -> (id: Option<String>)
        ensures
            final(self).lower() == old(self).lower(),
            final(self).upper() == old(self).upper(),
            final(self).picks_at_random() == old(self).picks_at_random(),
            final(self).prefetch_cap() == old(self).prefetch_cap(),
            old(self).buffer().len() > 0 ==> {
                &&& id matches Some(s)
                &&& s@ == encode(old(self).buffer().last() as nat)
                &&& final(self).buffer() == old(self).buffer().drop_last()
                &&& final(self).taken() == old(self).taken()
            },
            old(self).buffer().len() == 0 ==> match id {
                Some(s) => exists|v: u32|
                    {
                        &&& s@ == encode(v as nat)
                        &&& refilled(
                            old(self).taken(),
                            old(self).lower(),
                            old(self).upper(),
                            old(self).prefetch_cap(),
                            old(self).picks_at_random(),
                            #[trigger] final(self).buffer().push(v),
                        )
                        &&& final(self).taken() == old(self).taken().union(
                            final(self).buffer().push(v).to_set(),
                        )
                    },
                None => {
                    &&& exhausted(old(self).taken(), old(self).lower(), old(self).upper())
                    &&& final(self).taken() == old(self).taken()
                    &&& final(self).buffer().len() == 0
                },
            },
            id is None <==> old(self).buffer().len() == 0 && exhausted(
                old(self).taken(),
                old(self).lower(),
                old(self).upper(),
            ),
    {
        proof {
            use_type_invariant(&self.plan);
        }
        if self.cache.len() == 0 {
            let filled = self.generate();
            proof {
                lemma_refill_empty_iff_exhausted(
                    old(self).numbers@,
                    self.plan.min,
                    self.plan.max,
                    self.plan.max_pregen_size as nat,
                    self.plan.is_random,
                    self.cache@,
                );
            }
            if !filled {
                assert(self.numbers@ =~= old(self).numbers@);
                assert(self.prefetched() =~= old(self).prefetched());
                return None;
            }
            proof {
                lemma_refill_is_fresh(
                    old(self).numbers@,
                    self.plan.min,
                    self.plan.max,
                    self.plan.max_pregen_size as nat,
                    self.plan.is_random,
                    self.cache@,
                );
            }
        }
        let ghost full = self.cache@;
        match self.cache.pop() {
            Some(v) => {
                let spelled = to_base36(v as u64);
                proof {
                    lemma_pop_allocates(old(self).numbers@, old(self).cache@, self.numbers@, full);
                    assert(self.cache@.push(v) =~= full);
                    if old(self).buffer().len() == 0 {
                        assert(spelled@ == encode(v as nat));
                        assert(refilled(
                            old(self).taken(),
                            old(self).lower(),
                            old(self).upper(),
                            old(self).prefetch_cap(),
                            old(self).picks_at_random(),
                            self.buffer().push(v),
                        ));
                        assert(self.taken() == old(self).taken().union(
                            self.buffer().push(v).to_set(),
                        ));
                    }
                }
                Some(spelled)
            },
            None => None,
        }
    }

    fn remove(&mut self, val: &str) -> (was_live: bool)
        ensures
            final(self).lower() == old(self).lower(),
            final(self).upper() == old(self).upper(),
            final(self).picks_at_random() == old(self).picks_at_random(),
            final(self).prefetch_cap() == old(self).prefetch_cap(),
            final(self).buffer() == old(self).buffer(),
    {
        match b36_to(val) {
            Some(id) => {
                let was_live = self.numbers.remove(&id);
                assert(self.live() =~= old(self).live().remove(id as nat));
                assert(was_live == old(self).live().contains(id as nat));
                assert(!was_live ==> self.live() =~= old(self).live());
                was_live
            },
            None => {
                assert(!well_formed(val@) || !self.live().contains(value_of(val@)));
                false
            },
        }
    }
}

} // verus!
