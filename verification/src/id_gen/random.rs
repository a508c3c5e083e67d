//! Uniform random identifiers with a bounded number of retries.

use vstd::prelude::*;
use std::collections::HashSet;
use crate::base36::{
    b36_to_usize, decode, encode, lemma_encode_spells, to_base36, value_of, well_formed,
};
use crate::id_gen::{
    issued, lemma_registered_ends, lemma_registered_next, range_fault, registered, IdGenerator, IdRangeError,
};
use crate::id_gen::draw::sample_single;

verus! {

/// A range `[min, max)` that holds a number.
struct Range {
    min: usize,
    max: usize,
}

impl Range {
    #[verifier::type_invariant]
    spec fn holds_a_number(self) -> bool {
        self.min < self.max
    }
}

/// Draws identifiers uniformly from `[min, max)` and keeps the first one
/// that is not live.
pub struct RandomIdGenerator {
    range: Range,
    max_iter: Option<usize>,
    set: HashSet<usize>,
}

impl RandomIdGenerator {
    /// The inclusive lower bound of the range.
    pub closed spec fn lower(&self) -> nat {
        self.range.min as nat
    }

    /// The exclusive upper bound of the range.
    pub closed spec fn upper(&self) -> nat {
        self.range.max as nat
    }

    /// The cap on collisions per allocation, where one was given.
    pub closed spec fn retry_cap(&self) -> Option<usize> {
        self.max_iter
    }

    /// Makes a generator for `[min, max)` whose live set holds what the
    /// names in `present_values` spell.
    pub fn new(
        min: &str,
        max: &str,
        max_iter: Option<usize>,
        present_values: Option<Vec<String>>,
    ) -> (made: Result<RandomIdGenerator, IdRangeError>)
        ensures
            match range_fault(decode(min@, usize::MAX as nat), decode(max@, usize::MAX as nat)) {
                Some(fault) => made == Err::<RandomIdGenerator, IdRangeError>(fault),
                None => made matches Ok(g) && {
                    &&& g.lower() < g.upper()
                    &&& decode(min@, usize::MAX as nat) == Some(g.lower())
                    &&& decode(max@, usize::MAX as nat) == Some(g.upper())
                    &&& g.retry_cap() == max_iter
                    &&& g.live() == match present_values {
                        Some(ids) => registered(ids@, usize::MAX as nat),
                        None => Set::<nat>::empty(),
                    }
                },
            },
    {
        let min: usize = match b36_to_usize(min) {
            Some(v) => v,
            None => return Err(IdRangeError::InvalidMin),
        };
        let max: usize = match b36_to_usize(max) {
            Some(v) => v,
            None => return Err(IdRangeError::InvalidMax),
        };
        if min >= max {
            return Err(IdRangeError::EmptyRange);
        }
        let mut made = RandomIdGenerator {
            range: Range { min, max },
            max_iter,
            set: HashSet::new(),
        };
        assert(made.live() =~= Set::<nat>::empty());
        if let Some(ids) = present_values {
            proof {
                lemma_registered_ends(ids@, usize::MAX as nat);
            }
            for i in 0..ids.len()
                invariant
                    made.range.min == min,
                    made.range.max == max,
                    made.max_iter == max_iter,
                    made.live() == registered(ids@.take(i as int), usize::MAX as nat),
            {
                let ghost before = made.live();
                proof {
                    lemma_registered_next(ids@, i as int, usize::MAX as nat);
                }
                if let Some(v) = b36_to_usize(ids[i].as_str()) {
                    made.set.insert(v);
                    assert(made.live() =~= before.insert(v as nat));
                }
            }
            proof {
                lemma_registered_ends(ids@, usize::MAX as nat);
            }
        }
        Ok(made)
    }

    /// Takes `candidate` if it is not live, and spells it.
    pub fn try_claim(&mut self, candidate: usize) -> (id: Option<String>)
        ensures
            final(self).lower() == old(self).lower(),
            final(self).upper() == old(self).upper(),
            final(self).retry_cap() == old(self).retry_cap(),
            match id {
                Some(s) => {
                    &&& !old(self).live().contains(candidate as nat)
                    &&& s@ == encode(candidate as nat)
                    &&& final(self).live() == old(self).live().insert(candidate as nat)
                },
                None => old(self).live().contains(candidate as nat) && final(self).live() == old(
                    self,
                ).live(),
            },
    {
        if self.set.insert(candidate) {
            assert(self.live() =~= old(self).live().insert(candidate as nat));
            Some(to_base36(candidate as u64))
        } else {
            assert(self.live() =~= old(self).live());
            None
        }
    }
}

impl IdGenerator for RandomIdGenerator {
    closed spec fn live(&self) -> Set<nat> {
        Set::new(|n: nat| n <= usize::MAX && self.set@.contains(n as usize))
    }

    /// This generator keeps no buffer.
    open spec fn prefetched(&self) -> Seq<nat> {
        Seq::empty()
    }

    /// Draws from `[min, max)` until a draw is not live. With a cap, gives
    /// up when as many draws as the cap have collided, and after one
    /// collision where the cap is zero; without one, after `usize::MAX`
    /// collisions. So an allocation can fail only where a number of the
    /// range is live.
    fn get(&mut self) -> (id: Option<String>)
        ensures
            final(self).lower() == old(self).lower(),
            final(self).upper() == old(self).upper(),
            final(self).retry_cap() == old(self).retry_cap(),
            id matches Some(s) ==> old(self).lower() <= value_of(s@) < old(self).upper(),
            id is None ==> exists|v: nat|
                old(self).lower() <= v < old(self).upper() && #[trigger] old(self).live().contains(
                    v,
                ),
    {
        let cap: usize = match self.max_iter {
            Some(limit) => limit,
            None => usize::MAX,
        };
        proof {
            use_type_invariant(&self.range);
        }
        let ghost before = *self;
        let mut candidate: usize = sample_single(self.range.min as u64, self.range.max as u64)
            as usize;
        let mut index: usize = 0;
        let ghost mut clash: nat = 0;
        loop
            invariant
                before == *old(self),
                self.range.min < self.range.max,
                self.range == before.range,
                self.max_iter == before.max_iter,
                self.live() == before.live(),
                self.range.min <= candidate < self.range.max,
                index == 0 || index < cap,
                index > 0 ==> self.range.min <= clash < self.range.max && before.live().contains(
                    clash,
                ),
            decreases cap - index,
        {
            proof {
                clash = candidate as nat;
            }
            if let Some(s) = self.try_claim(candidate) {
                proof {
                    lemma_encode_spells(candidate as nat);
                    assert(issued(before.live(), Seq::<nat>::empty()) =~= before.live());
                    assert(issued(self.live(), Seq::<nat>::empty()) =~= self.live());
                }
                return Some(s);
            }
            candidate = sample_single(self.range.min as u64, self.range.max as u64) as usize;
            index = index + 1;
            if index >= cap {
                return None;
            }
        }
    }

    fn remove(&mut self, val: &str) -> (was_live: bool)
        ensures
            final(self).lower() == old(self).lower(),
            final(self).upper() == old(self).upper(),
            final(self).retry_cap() == old(self).retry_cap(),
    {
        match b36_to_usize(val) {
            None => {
                assert(!well_formed(val@) || !self.live().contains(value_of(val@)));
                false
            },
            Some(id) => {
                let was_live = self.set.remove(&id);
                assert(self.live() =~= old(self).live().remove(id as nat));
                assert(was_live == old(self).live().contains(id as nat));
                assert(!was_live ==> self.live() =~= old(self).live());
                was_live
            },
        }
    }
}

} // verus!
