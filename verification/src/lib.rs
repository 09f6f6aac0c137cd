//! Modem control and SMS protocol engine: AT-command transaction framing,
//! an SMS PDU codec, and the arbitration that lets concurrent senders and a
//! background poller share a fixed set of modems safely.

pub mod channel;
pub mod dispatch;
pub mod hexbytes;
pub mod listing;
pub mod metrics;
pub mod pdu;
pub mod poller;
pub mod pool;

use vstd::prelude::*;

verus! {

/// The error taxonomy of the engine.
#[derive(Clone, Copy, PartialEq, Eq, Structural, Debug)]
pub enum ErrorKind {
    /// A serial write or read fault.
    IoFailure,
    /// No terminator arrived within the transaction budget.
    Timeout,
    /// A terminator arrived but the response could not be parsed.
    ProtocolError,
    /// The message or recipient could not be encoded.
    Encoding,
    /// A modem id outside the fixed pool.
    UnknownModem,
    /// The downstream queue rejected a push.
    QueueUnavailable,
}

} // verus!
