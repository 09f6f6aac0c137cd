//! Operational counters.
//!
//! Plain saturating counters for sends, receptions, and the in-flight load
//! gauge.  Recording never fails and never blocks; exporting them to a
//! metrics registry is the embedding program's concern.

use vstd::prelude::*;

verus! {

/// The engine's counters: totals for sent and received messages, and the
/// current load gauge.
pub struct Counters {
    /// Messages sent, total.
    pub sms_sent: u64,
    /// Messages received, total.
    pub sms_received: u64,
    /// In-flight transactions right now.
    pub modem_load: u64,
}

impl Counters {
    /// All counters start at zero.
    pub fn new() -> (r: Counters)
        ensures
            r.sms_sent == 0,
            r.sms_received == 0,
            r.modem_load == 0,
    {
        Counters { sms_sent: 0, sms_received: 0, modem_load: 0 }
    }

    /// Count one sent message; saturates instead of wrapping.
    pub fn record_sent(&mut self)
        ensures
            final(self).sms_sent == if old(self).sms_sent < u64::MAX {
                old(self).sms_sent + 1
            } else {
                old(self).sms_sent as int
            },
            final(self).sms_received == old(self).sms_received,
            final(self).modem_load == old(self).modem_load,
    {
        if self.sms_sent < u64::MAX {
            self.sms_sent = self.sms_sent + 1;
        }
    }

    /// Count one received message; saturates instead of wrapping.
    pub fn record_received(&mut self)
        ensures
            final(self).sms_received == if old(self).sms_received < u64::MAX {
                old(self).sms_received + 1
            } else {
                old(self).sms_received as int
            },
            final(self).sms_sent == old(self).sms_sent,
            final(self).modem_load == old(self).modem_load,
    {
        if self.sms_received < u64::MAX {
            self.sms_received = self.sms_received + 1;
        }
    }

    /// One more transaction in flight; saturates instead of wrapping.
    pub fn load_up(&mut self)
        ensures
            final(self).modem_load == if old(self).modem_load < u64::MAX {
                old(self).modem_load + 1
            } else {
                old(self).modem_load as int
            },
            final(self).sms_sent == old(self).sms_sent,
            final(self).sms_received == old(self).sms_received,
    {
        if self.modem_load < u64::MAX {
            self.modem_load = self.modem_load + 1;
        }
    }

    /// One transaction left flight; never goes below zero.
    pub fn load_down(&mut self)
        ensures
            final(self).modem_load == if old(self).modem_load > 0 {
                old(self).modem_load - 1
            } else {
                0int
            },
            final(self).sms_sent == old(self).sms_sent,
            final(self).sms_received == old(self).sms_received,
    {
        if self.modem_load > 0 {
            self.modem_load = self.modem_load - 1;
        }
    }
}

} // verus!
