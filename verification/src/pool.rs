//! Modem pool arbitration.
//!
//! A fixed set of modems is shared by concurrent senders and the background
//! poller.  Correctness here is per-modem mutual exclusion: a transaction may
//! only run while its caller holds that modem's lease, two leases for the
//! same modem never coexist, and leases for distinct modems are independent.
//! The pool is the arbitration state machine; the scheduler that parks and
//! wakes waiting callers lives outside this crate and merely retries
//! `try_acquire` after each `release`.

use vstd::prelude::*;

verus! {

/// What an acquisition attempt yields.
#[derive(Clone, Copy, PartialEq, Eq, Structural, Debug)]
pub enum AcquireOutcome {
    /// The lease was granted: the caller now holds the modem exclusively.
    Granted,
    /// Another caller holds the modem; try again after a release.
    Busy,
    /// The id is outside the fixed pool.
    UnknownModem,
}

/// A modem id is grantable in a pool state: in range and not held.
pub open spec fn spec_grantable(s: Seq<bool>, id: int) -> bool {
    0 <= id < s.len() && !s[id]
}

/// Arbitration state for the fixed modem set: which modems are held.
pub struct ModemPool {
    held: Vec<bool>,
}

impl View for ModemPool {
    type V = Seq<bool>;

    closed spec fn view(&self) -> Seq<bool> {
        self.held@
    }
}

impl ModemPool {
    /// A pool of `n` modems, none held.
    pub fn new(n: usize) -> (r: ModemPool)
        ensures
            r@.len() == n,
            forall|i: int| 0 <= i < n ==> !r@[i],
    {
        let mut held: Vec<bool> = Vec::new();
        let mut i: usize = 0;
        while i < n
            invariant
                i <= n,
                held@.len() == i,
                forall|k: int| 0 <= k < i ==> !held@[k],
            decreases n - i,
        {
            held.push(false);
            i = i + 1;
        }
        ModemPool { held }
    }

    /// How many modems the pool arbitrates.
    pub fn size(&self) -> (r: usize)
        ensures
            r == self@.len(),
    {
        self.held.len()
    }

    /// One acquisition attempt: an out-of-range id is refused outright and
    /// the pool is untouched; a held modem answers `Busy` and the pool is
    /// untouched; a free modem is granted and marked held.
    pub fn try_acquire(&mut self, id: usize) -> (r: AcquireOutcome)
        ensures
            r == AcquireOutcome::UnknownModem <==> id >= old(self)@.len(),
            r == AcquireOutcome::Busy <==> id < old(self)@.len() && old(self)@[id as int],
            r == AcquireOutcome::Granted <==> spec_grantable(old(self)@, id as int),
            r == AcquireOutcome::Granted ==> final(self)@ == old(self)@.update(id as int, true),
            r != AcquireOutcome::Granted ==> final(self)@ == old(self)@,
    {
        if id >= self.held.len() {
            AcquireOutcome::UnknownModem
        } else if self.held[id] {
            AcquireOutcome::Busy
        } else {
            self.held.set(id, true);
            AcquireOutcome::Granted
        }
    }

    /// Release a held lease: the modem becomes available again.  Callers
    /// release on every exit path — completion, error, or abandonment.
    pub fn release(&mut self, id: usize)
        requires
            id < old(self)@.len(),
        ensures
            final(self)@ == old(self)@.update(id as int, false),
    {
        self.held.set(id, false);
    }
}

/// Exclusion law: after a grant, a second request for the same modem is
/// not grantable until a release; there is never a second concurrent
/// lease on one modem.
pub proof fn lemma_exclusion(s: Seq<bool>, id: int)
    requires
        spec_grantable(s, id),
    ensures
        !spec_grantable(s.update(id, true), id),
{
}

/// Parallelism law: granting one modem changes nothing about any other
/// modem — a grantable modem stays grantable, so transactions on distinct
/// modems never wait on each other in the arbitration state.
pub proof fn lemma_independence(s: Seq<bool>, i: int, j: int)
    requires
        0 <= i < s.len(),
        0 <= j < s.len(),
        i != j,
    ensures
        s.update(i, true)[j] == s[j],
        spec_grantable(s, j) ==> spec_grantable(s.update(i, true), j),
{
}

/// Release law: after a release the modem is grantable again.
pub proof fn lemma_release_enables(s: Seq<bool>, id: int)
    requires
        0 <= id < s.len(),
    ensures
        spec_grantable(s.update(id, false), id),
{
}

} // verus!
