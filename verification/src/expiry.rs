//! When a paste is deleted, and what the deletion frees.
//!
//! Time is a count of seconds on a clock that never runs backwards; the
//! caller reads the clock.

use vstd::prelude::*;
use crate::id_gen::{released, IdGenerator};

verus! {

/// A paste that waits for its deletion.
#[derive(Debug, PartialEq, Eq)]
pub struct ExpiryJob {
    /// The time from which the paste is to be gone.
    pub deadline: u64,
    /// The identifier of the paste, which names its directory.
    pub id: String,
}

impl ExpiryJob {
    /// The job for a paste written at `now` that lives for `lifetime`.
    pub fn new(now: u64, lifetime: u64, id: String) -> (job: ExpiryJob)
        requires
            now + lifetime <= u64::MAX,
        ensures
            job.deadline == now + lifetime,
            job.id == id,
    {
        ExpiryJob { deadline: now + lifetime, id }
    }

    /// How long the scheduler has to sleep at `now` before it may delete
    /// the paste; `None` where the deadline has come.
    pub fn time_left(&self, now: u64) -> (wait: Option<u64>)
        ensures
            wait == time_left(self.deadline, now),
    {
        if now < self.deadline {
            Some(self.deadline - now)
        } else {
            None
        }
    }
}

/// The time between `now` and a `deadline` that lies ahead.
pub open spec fn time_left(deadline: u64, now: u64) -> Option<u64> {
    if now < deadline {
        Some((deadline - now) as u64)
    } else {
        None
    }
}

/// Ends a job once its directory was to be deleted. A paste that is gone
/// frees its identifier; one that could not be deleted keeps it, so that
/// the identifier is not given to another paste while the files exist.
/// Says whether an identifier was freed.
pub fn finish<G: IdGenerator>(ids: &mut G, job: &ExpiryJob, deleted: bool) -> (freed: bool)
    ensures
        final(ids).prefetched() == old(ids).prefetched(),
        deleted ==> released(old(ids).live(), final(ids).live(), job.id@, freed),
        !deleted ==> !freed && final(ids).live() == old(ids).live(),
{
    if deleted {
        ids.remove(job.id.as_str())
    } else {
        false
    }
}

/// A scheduler that sleeps for the time left never deletes before the
/// deadline: the sleep ends at the deadline or after it.
pub proof fn lemma_never_early(deadline: u64, now: u64)
    ensures
        match time_left(deadline, now) {
            Some(wait) => now + wait == deadline,
            None => now >= deadline,
        },
{
}

/// With one lifetime for all pastes, deadlines come in the order in which
/// the pastes were written, so the scheduler may serve its queue from the
/// head.
pub proof fn lemma_deadlines_follow_arrival(earlier: u64, later: u64, lifetime: u64)
    requires
        earlier <= later,
    ensures
        earlier + lifetime <= later + lifetime,
{
}

} // verus!
