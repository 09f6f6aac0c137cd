//! AT-command transaction framing.
//!
//! A transaction writes one command line and then accumulates raw response
//! bytes until a terminator ("OK" or "ERROR") appears or the time budget is
//! spent.  The accumulation is byte-wise on purpose: chunk boundaries carry
//! no meaning, and the response is only interpreted as text once a complete,
//! terminator-bounded record is present.  The serial port itself lives
//! outside this crate; callers feed the chunks they read, with the time each
//! read took, and act on the step returned.

use vstd::prelude::*;
use crate::pdu::copy_range;

verus! {

/// Whether `needle` occurs as a contiguous run inside `hay`.
pub open spec fn contains_seq(hay: Seq<u8>, needle: Seq<u8>) -> bool {
    exists|i: int|
        0 <= i && i + needle.len() <= hay.len() && #[trigger] hay.subrange(i, i + needle.len())
            == needle
}

/// The success terminator, "OK".
pub open spec fn ok_terminator() -> Seq<u8> {
    seq![79u8, 75u8]
}

/// The failure terminator, "ERROR".
pub open spec fn error_terminator() -> Seq<u8> {
    seq![69u8, 82u8, 82u8, 79u8, 82u8]
}

/// Whether a response buffer holds either terminator.
pub open spec fn has_terminator(buf: Seq<u8>) -> bool {
    contains_seq(buf, ok_terminator()) || contains_seq(buf, error_terminator())
}

/// Whether `needle` matches `hay` at position `i`.
#[verifier::loop_isolation(false)]
fn match_at(hay: &[u8], needle: &[u8], i: usize) -> (r: bool)
    requires
        i + needle@.len() <= hay@.len(),
    ensures
        r <==> hay@.subrange(i as int, i as int + needle@.len() as int) == needle@,
{
    let hlen = hay.len();
    proof {
        assert(hay@.len() == hlen as int);
    }
    let mut j: usize = 0;
    while j < needle.len()
        invariant
            j <= needle@.len(),
            forall|q: int| 0 <= q < j ==> hay@[i + q] == needle@[q],
        decreases needle@.len() - j,
    {
        if hay[i + j] != needle[j] {
            proof {
                assert(hay@.subrange(i as int, i as int + needle@.len() as int)[j as int]
                    == hay@[i + j]);
            }
            return false;
        }
        j = j + 1;
    }
    proof {
        assert(hay@.subrange(i as int, i as int + needle@.len() as int) =~= needle@);
    }
    true
}

/// Substring search, exactly `contains_seq`.
#[verifier::loop_isolation(false)]
pub fn contains_bytes(hay: &[u8], needle: &[u8]) -> (r: bool)
    ensures
        r == contains_seq(hay@, needle@),
{
    if needle.len() > hay.len() {
        return false;
    }
    if needle.len() == 0 {
        proof {
            assert(hay@.subrange(0, 0 + needle@.len() as int) =~= needle@);
        }
        return true;
    }
    let n = needle.len();
    let mut i: usize = 0;
    while i <= hay.len() - n
        invariant
            n == needle@.len(),
            n <= hay@.len(),
            i <= hay@.len() - n + 1,
            forall|k: int|
                0 <= k < i ==> #[trigger] hay@.subrange(k, k + needle@.len() as int) != needle@,
        decreases hay@.len() - i,
    {
        if match_at(hay, needle, i) {
            return true;
        }
        i = i + 1;
    }
    proof {
        assert forall|k: int|
            0 <= k && k + needle@.len() <= hay@.len() implies #[trigger] hay@.subrange(
            k,
            k + needle@.len() as int,
        ) != needle@ by {
            assert(k < i);
        }
    }
    false
}

/// A completed transaction: the accumulated raw response, and the flag
/// derived from which terminator matched — success exactly when "OK"
/// appeared and "ERROR" did not.
pub struct CommandResult {
    /// The accumulated raw response bytes.
    pub response: Vec<u8>,
    /// Derived terminator flag.
    pub success: bool,
}

impl CommandResult {
    /// The flag really reflects the response's terminators.
    pub open spec fn wf(&self) -> bool {
        &&& has_terminator(self.response@)
        &&& self.success <==> (contains_seq(self.response@, ok_terminator()) && !contains_seq(
            self.response@,
            error_terminator(),
        ))
    }
}

/// What one feed of response bytes yields.
pub enum TransactionStep {
    /// No terminator yet and budget remains: keep reading.
    Pending,
    /// A terminator arrived: the transaction is over.
    Completed(CommandResult),
    /// The budget is spent with no terminator: the transaction timed out.
    TimedOut,
}

/// One command/response transaction in flight: the accumulated response
/// and the time budget.
pub struct Transaction {
    /// Raw response bytes accumulated so far.
    pub buf: Vec<u8>,
    /// Time consumed so far, capped at the budget.
    pub elapsed_ms: u64,
    /// The configured budget.
    pub timeout_ms: u64,
}

impl Transaction {
    /// The consumed time never exceeds the budget.
    pub open spec fn wf(&self) -> bool {
        self.elapsed_ms <= self.timeout_ms
    }

    /// Start a transaction with the given budget.
    pub fn new(timeout_ms: u64) -> (r: Transaction)
        ensures
            r.wf(),
            r.buf@ == Seq::<u8>::empty(),
            r.elapsed_ms == 0,
            r.timeout_ms == timeout_ms,
    {
        Transaction { buf: Vec::new(), elapsed_ms: 0, timeout_ms }
    }

    /// Feed one chunk of raw bytes that took `dt_ms` to read.
    ///
    /// The chunk is appended as bytes — no text boundary is assumed — and
    /// the step is decided: completed as soon as a terminator is present,
    /// timed out exactly when the budget is spent and no terminator ever
    /// arrived, pending otherwise.
    pub fn feed(&mut self, chunk: &[u8], dt_ms: u64) -> (r: TransactionStep)
        requires
            old(self).wf(),
        ensures
            final(self).wf(),
            final(self).timeout_ms == old(self).timeout_ms,
            final(self).buf@ == old(self).buf@ + chunk@,
            final(self).elapsed_ms as int == if old(self).elapsed_ms + dt_ms
                <= old(self).timeout_ms {
                old(self).elapsed_ms + dt_ms
            } else {
                old(self).timeout_ms as int
            },
            match r {
                TransactionStep::Completed(res) => has_terminator(final(self).buf@) && res.wf()
                    && res.response@ == final(self).buf@,
                TransactionStep::TimedOut => !has_terminator(final(self).buf@)
                    && final(self).elapsed_ms == final(self).timeout_ms,
                TransactionStep::Pending => !has_terminator(final(self).buf@)
                    && final(self).elapsed_ms < final(self).timeout_ms,
            },
    {
        let mut i: usize = 0;
        let ghost buf0 = self.buf@;
        while i < chunk.len()
            invariant
                i <= chunk@.len(),
                self.buf@ == buf0 + chunk@.take(i as int),
                self.elapsed_ms == old(self).elapsed_ms,
                self.timeout_ms == old(self).timeout_ms,
            decreases chunk@.len() - i,
        {
            self.buf.push(chunk[i]);
            proof {
                assert(self.buf@ =~= buf0 + chunk@.take(i as int + 1));
            }
            i = i + 1;
        }
        proof {
            assert(self.buf@ =~= buf0 + chunk@);
        }
        let remaining = self.timeout_ms - self.elapsed_ms;
        if dt_ms <= remaining {
            self.elapsed_ms = self.elapsed_ms + dt_ms;
        } else {
            self.elapsed_ms = self.timeout_ms;
        }
        let mut ok_t: Vec<u8> = Vec::new();
        ok_t.push(79);
        ok_t.push(75);
        let mut err_t: Vec<u8> = Vec::new();
        err_t.push(69);
        err_t.push(82);
        err_t.push(82);
        err_t.push(79);
        err_t.push(82);
        proof {
            assert(ok_t@ =~= ok_terminator());
            assert(err_t@ =~= error_terminator());
        }
        let has_ok = contains_bytes(self.buf.as_slice(), ok_t.as_slice());
        let has_err = contains_bytes(self.buf.as_slice(), err_t.as_slice());
        if has_ok || has_err {
            let response = copy_range(self.buf.as_slice(), 0, self.buf.len());
            proof {
                assert(response@ =~= self.buf@);
            }
            TransactionStep::Completed(CommandResult { response, success: has_ok && !has_err })
        } else if self.elapsed_ms >= self.timeout_ms {
            TransactionStep::TimedOut
        } else {
            TransactionStep::Pending
        }
    }
}

} // verus!
