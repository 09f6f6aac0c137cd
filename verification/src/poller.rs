//! The inbound poll sweep.
//!
//! The poller cycles through every modem on a fixed interval, lists unread
//! messages, and pushes each decoded text downstream.  The collection logic
//! here is fault-isolated by construction: a failed or malformed modem
//! contributes only to the failure count, and every message of every
//! healthy modem is still delivered, in sweep order.

use vstd::prelude::*;
use crate::ErrorKind;
use crate::listing::{DecodeOutcome, SmsMessage};
use crate::pdu::copy_range;

verus! {

/// The queue records a sweep delivers: for each modem in order, the texts
/// of its decoded messages; a failed modem contributes nothing.
pub open spec fn spec_sweep_records(rs: Seq<Result<DecodeOutcome, ErrorKind>>) -> Seq<Seq<u8>>
    decreases rs.len(),
{
    if rs.len() == 0 {
        Seq::empty()
    } else {
        (match rs[0] {
            Ok(d) => d.messages@.map_values(|m: SmsMessage| m.text@),
            Err(_) => Seq::empty(),
        }) + spec_sweep_records(rs.skip(1))
    }
}

/// The failures a sweep counts: one per failed modem, plus every
/// malformed record of the modems that answered.
pub open spec fn spec_sweep_failures(rs: Seq<Result<DecodeOutcome, ErrorKind>>) -> int
    decreases rs.len(),
{
    if rs.len() == 0 {
        0
    } else {
        (match rs[0] {
            Ok(d) => d.malformed as int,
            Err(_) => 1int,
        }) + spec_sweep_failures(rs.skip(1))
    }
}

/// The failure count never goes negative.
pub proof fn lemma_sweep_failures_nonneg(rs: Seq<Result<DecodeOutcome, ErrorKind>>)
    ensures
        spec_sweep_failures(rs) >= 0,
    decreases rs.len(),
{
    if rs.len() > 0 {
        lemma_sweep_failures_nonneg(rs.skip(1));
    }
}

/// What one full sweep over the pool produced.
pub struct SweepReport {
    /// Every delivered record, in sweep order.
    pub records: Vec<Vec<u8>>,
    /// Failed modems plus malformed records, together.
    pub failures: usize,
}

/// Fold a sweep's per-modem outcomes into the records to deliver.
///
/// Fault isolation is the contract: the records are exactly the message
/// texts of the modems that answered, in order, whatever any other modem
/// did; no failure aborts the sweep.  The failure count saturates.
#[verifier::loop_isolation(false)]
pub fn sweep_collect(results: &Vec<Result<DecodeOutcome, ErrorKind>>) -> (r: SweepReport)
    ensures
        r.records@.map_values(|v: Vec<u8>| v@) == spec_sweep_records(results@),
        r.failures as int == if spec_sweep_failures(results@) <= usize::MAX {
            spec_sweep_failures(results@)
        } else {
            usize::MAX as int
        },
{
    let ghost rs = results@;
    let mut records: Vec<Vec<u8>> = Vec::new();
    let mut failures: usize = 0;
    let mut i: usize = 0;
    proof {
        assert(rs.skip(0) =~= rs);
        assert(records@.map_values(|v: Vec<u8>| v@) + spec_sweep_records(rs) =~= spec_sweep_records(
            rs,
        ));
        lemma_sweep_failures_nonneg(rs);
    }
    while i < results.len()
        invariant
            i <= rs.len(),
            spec_sweep_records(rs) == records@.map_values(|v: Vec<u8>| v@) + spec_sweep_records(
                rs.skip(i as int),
            ),
            spec_sweep_failures(rs.skip(i as int)) >= 0,
            spec_sweep_failures(rs) - spec_sweep_failures(rs.skip(i as int)) >= 0,
            failures as int == if spec_sweep_failures(rs) - spec_sweep_failures(rs.skip(i as int))
                <= usize::MAX {
                spec_sweep_failures(rs) - spec_sweep_failures(rs.skip(i as int))
            } else {
                usize::MAX as int
            },
        decreases rs.len() - i,
    {
        let ghost rest = rs.skip(i as int);
        proof {
            assert(rest[0] == rs[i as int]);
            assert(rest.skip(1) =~= rs.skip(i as int + 1));
            lemma_sweep_failures_nonneg(rest.skip(1));
            lemma_sweep_failures_nonneg(rest);
        }
        match &results[i] {
            Ok(d) => {
                let ghost head = d.messages@.map_values(|m: SmsMessage| m.text@);
                let ghost prefix0 = records@.map_values(|v: Vec<u8>| v@);
                proof {
                    assert(prefix0 + head.take(0) =~= prefix0);
                }
                let mut j: usize = 0;
                while j < d.messages.len()
                    invariant
                        j <= head.len(),
                        head == d.messages@.map_values(|m: SmsMessage| m.text@),
                        records@.map_values(|v: Vec<u8>| v@) == prefix0 + head.take(j as int),
                    decreases head.len() - j,
                {
                    let ghost rv = records@.map_values(|v: Vec<u8>| v@);
                    let text = copy_range(
                        d.messages[j].text.as_slice(),
                        0,
                        d.messages[j].text.len(),
                    );
                    proof {
                        assert(head[j as int] == d.messages@[j as int].text@);
                        assert(text@ == head[j as int]);
                    }
                    records.push(text);
                    proof {
                        assert(records@.map_values(|v: Vec<u8>| v@) =~= rv.push(head[j as int]));
                        assert(prefix0 + head.take(j as int + 1) =~= (prefix0 + head.take(
                            j as int,
                        )).push(head[j as int]));
                    }
                    j = j + 1;
                }
                proof {
                    assert(head.take(head.len() as int) =~= head);
                    assert(spec_sweep_records(rest) == head + spec_sweep_records(rest.skip(1)));
                    assert(spec_sweep_failures(rest) == d.malformed + spec_sweep_failures(
                        rest.skip(1),
                    ));
                    assert(prefix0 + head + spec_sweep_records(rest.skip(1)) =~= prefix0 + (head
                        + spec_sweep_records(rest.skip(1))));
                }
                let m = d.malformed;
                failures = if failures > usize::MAX - m {
                    usize::MAX
                } else {
                    failures + m
                };
            },
            Err(_) => {
                proof {
                    assert(spec_sweep_records(rest) == Seq::<Seq<u8>>::empty()
                        + spec_sweep_records(rest.skip(1)));
                    assert(spec_sweep_failures(rest) == 1 + spec_sweep_failures(rest.skip(1)));
                }
                failures = if failures == usize::MAX {
                    usize::MAX
                } else {
                    failures + 1
                };
            },
        }
        i = i + 1;
        proof {
            assert(spec_sweep_records(rs) == records@.map_values(|v: Vec<u8>| v@)
                + spec_sweep_records(rs.skip(i as int)));
        }
    }
    proof {
        assert(rs.skip(i as int) =~= Seq::<Result<DecodeOutcome, ErrorKind>>::empty());
        assert(records@.map_values(|v: Vec<u8>| v@) + spec_sweep_records(rs.skip(i as int))
            =~= records@.map_values(|v: Vec<u8>| v@));
    }
    SweepReport { records, failures }
}

/// Where the poller stands in its cycle over the fixed modem set.
pub struct PollerState {
    /// Size of the modem set.
    pub n_modems: usize,
    /// The modem the next poll visits.
    pub next: usize,
}

impl PollerState {
    /// The cursor stays inside the set (or the set is empty).
    pub open spec fn wf(&self) -> bool {
        self.n_modems == 0 || self.next < self.n_modems
    }

    /// A poller at the start of its first sweep.
    pub fn new(n_modems: usize) -> (r: PollerState)
        ensures
            r.wf(),
            r.n_modems == n_modems,
            r.next == 0,
    {
        PollerState { n_modems, next: 0 }
    }

    /// Move to the next modem.  Returns true when a full sweep just
    /// finished — the caller then waits the fixed poll interval before
    /// the next sweep; the wait is per sweep, never per modem.
    pub fn advance(&mut self) -> (wrapped: bool)
        requires
            old(self).wf(),
            old(self).n_modems > 0,
        ensures
            final(self).wf(),
            final(self).n_modems == old(self).n_modems,
            wrapped <==> old(self).next + 1 == old(self).n_modems,
            final(self).next as int == if old(self).next + 1 < old(self).n_modems {
                old(self).next + 1
            } else {
                0int
            },
    {
        if self.next + 1 < self.n_modems {
            self.next = self.next + 1;
            false
        } else {
            let wrapped = self.next + 1 == self.n_modems;
            self.next = 0;
            wrapped
        }
    }
}

} // verus!
