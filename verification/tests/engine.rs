//! Transaction framing, pool arbitration, dispatch, sweep, and counters.

use sms_engine::channel::{contains_bytes, Transaction, TransactionStep};
use sms_engine::dispatch::{
    cmd_list_all, cmd_notifications, cmd_pdu_mode, complete_send, format_outbound, plan_send,
};
use sms_engine::listing::{DecodeOutcome, SmsMessage};
use sms_engine::metrics::Counters;
use sms_engine::poller::{sweep_collect, PollerState};
use sms_engine::pool::{AcquireOutcome, ModemPool};
use sms_engine::ErrorKind;

#[test]
fn timeout_fires_exactly_at_the_budget() {
    // A transport that never returns a terminator fails with a timeout
    // after exactly the configured duration.
    let mut tx = Transaction::new(1000);
    assert!(matches!(tx.feed(b"", 300), TransactionStep::Pending));
    assert!(matches!(tx.feed(b"partial resp", 399), TransactionStep::Pending));
    // 999 ms consumed: not yet.
    assert!(matches!(tx.feed(b"onse", 300), TransactionStep::Pending));
    assert!(matches!(tx.feed(b"", 1), TransactionStep::TimedOut));
}

#[test]
fn timeout_in_one_oversized_wait() {
    let mut tx = Transaction::new(50);
    assert!(matches!(tx.feed(b"no terminator here", 5000), TransactionStep::TimedOut));
}

#[test]
fn terminator_spanning_chunks_completes() {
    // Chunk boundaries carry no meaning: "O" and "K" arrive separately.
    let mut tx = Transaction::new(1000);
    assert!(matches!(tx.feed(b"\r\nO", 10), TransactionStep::Pending));
    match tx.feed(b"K\r\n", 10) {
        TransactionStep::Completed(res) => {
            assert!(res.success);
            assert_eq!(res.response, b"\r\nOK\r\n".to_vec());
        }
        _ => panic!("expected completion"),
    }
}

#[test]
fn error_terminator_wins() {
    let mut tx = Transaction::new(1000);
    match tx.feed(b"+CMS ERROR: 500\r\nOK\r\n", 10) {
        TransactionStep::Completed(res) => assert!(!res.success),
        _ => panic!("expected completion"),
    }
}

#[test]
fn terminator_beats_timeout_in_the_same_chunk() {
    let mut tx = Transaction::new(100);
    match tx.feed(b"OK\r\n", 5000) {
        TransactionStep::Completed(res) => assert!(res.success),
        _ => panic!("expected completion"),
    }
}

#[test]
fn substring_search_is_exact() {
    assert!(contains_bytes(b"xxERRORyy", b"ERROR"));
    assert!(!contains_bytes(b"ERRO", b"ERROR"));
    assert!(contains_bytes(b"anything", b""));
    assert!(!contains_bytes(b"", b"OK"));
}

#[test]
fn same_modem_is_exclusive_until_release() {
    let mut pool = ModemPool::new(2);
    assert_eq!(pool.try_acquire(0), AcquireOutcome::Granted);
    // A second transaction on the same modem cannot start: no byte-level
    // interleaving is possible while the lease is held.
    assert_eq!(pool.try_acquire(0), AcquireOutcome::Busy);
    assert_eq!(pool.try_acquire(0), AcquireOutcome::Busy);
    pool.release(0);
    assert_eq!(pool.try_acquire(0), AcquireOutcome::Granted);
}

#[test]
fn distinct_modems_proceed_in_parallel() {
    let mut pool = ModemPool::new(3);
    assert_eq!(pool.try_acquire(0), AcquireOutcome::Granted);
    // Modem 1 is granted while modem 0 is still held.
    assert_eq!(pool.try_acquire(1), AcquireOutcome::Granted);
    assert_eq!(pool.try_acquire(2), AcquireOutcome::Granted);
    pool.release(1);
    assert_eq!(pool.try_acquire(1), AcquireOutcome::Granted);
}

#[test]
fn out_of_range_id_is_refused_without_side_effects() {
    let mut pool = ModemPool::new(2);
    assert_eq!(pool.try_acquire(2), AcquireOutcome::UnknownModem);
    assert_eq!(pool.try_acquire(usize::MAX), AcquireOutcome::UnknownModem);
    // The pool state was not touched: both modems still grantable.
    assert_eq!(pool.try_acquire(0), AcquireOutcome::Granted);
    assert_eq!(pool.try_acquire(1), AcquireOutcome::Granted);
}

#[test]
fn empty_pool_refuses_everything() {
    let mut pool = ModemPool::new(0);
    assert_eq!(pool.size(), 0);
    assert_eq!(pool.try_acquire(0), AcquireOutcome::UnknownModem);
}

#[test]
fn sweep_keeps_healthy_modems_despite_broken_ones() {
    // Modem 0 answers garbage, modem 1 answers one good record: modem 1's
    // message is still delivered.
    let good = DecodeOutcome {
        messages: vec![SmsMessage {
            sender: b"15550001234".to_vec(),
            text: b"still delivered".to_vec(),
            pdu: b"00".to_vec(),
            index: 1,
        }],
        malformed: 0,
    };
    let results: Vec<Result<DecodeOutcome, ErrorKind>> =
        vec![Err(ErrorKind::ProtocolError), Ok(good)];
    let report = sweep_collect(&results);
    assert_eq!(report.failures, 1);
    assert_eq!(report.records, vec![b"still delivered".to_vec()]);
}

#[test]
fn sweep_counts_malformed_records_too() {
    let partial = DecodeOutcome {
        messages: vec![SmsMessage {
            sender: b"15550001234".to_vec(),
            text: b"ok".to_vec(),
            pdu: b"00".to_vec(),
            index: 0,
        }],
        malformed: 2,
    };
    let results: Vec<Result<DecodeOutcome, ErrorKind>> =
        vec![Ok(partial), Err(ErrorKind::Timeout), Err(ErrorKind::IoFailure)];
    let report = sweep_collect(&results);
    assert_eq!(report.failures, 4);
    assert_eq!(report.records.len(), 1);
}

#[test]
fn poller_cycles_through_all_modems() {
    let mut st = PollerState::new(3);
    assert_eq!(st.next, 0);
    assert!(!st.advance());
    assert_eq!(st.next, 1);
    assert!(!st.advance());
    assert_eq!(st.next, 2);
    // The sweep ends here; the fixed wait happens between sweeps.
    assert!(st.advance());
    assert_eq!(st.next, 0);
}

#[test]
fn protocol_command_lines_are_preserved() {
    assert_eq!(cmd_pdu_mode(), b"AT+CMGF=0".to_vec());
    assert_eq!(cmd_notifications(), b"AT+CNMI=2,1,0,0,0".to_vec());
    assert_eq!(cmd_list_all(), b"AT+CMGL=4".to_vec());
}

#[test]
fn send_plan_builds_both_lines() {
    let plan = plan_send(b"15550001234", b"hello").expect("plans");
    // 20 octets in the unit, 19 of them counted: the SMSC-info octet is
    // excluded from the prepare line's count.
    assert_eq!(plan.prepare, b"AT+CMGS=19".to_vec());
    let mut expected = b"0011000b915155001032f40004aa0568656c6c6f".to_vec();
    expected.push(0x1A);
    assert_eq!(plan.body, expected);
}

#[test]
fn completed_send_yields_the_reference_or_fails() {
    let mut tx = Transaction::new(1000);
    let ok = match tx.feed(b"\r\n+CMGS: 42\r\nOK\r\n", 10) {
        TransactionStep::Completed(res) => res,
        _ => panic!("expected completion"),
    };
    let id = complete_send(&ok).expect("success");
    assert_eq!(id, 42);
    let mut tx2 = Transaction::new(1000);
    let bad = match tx2.feed(b"\r\nERROR\r\n", 10) {
        TransactionStep::Completed(res) => res,
        _ => panic!("expected completion"),
    };
    assert!(matches!(complete_send(&bad), Err(ErrorKind::ProtocolError)));
    // Success terminator but no "+CMGS:" reference line: unparsable.
    let mut tx3 = Transaction::new(1000);
    let no_ref = match tx3.feed(b"\r\nOK\r\n", 10) {
        TransactionStep::Completed(res) => res,
        _ => panic!("expected completion"),
    };
    assert!(matches!(complete_send(&no_ref), Err(ErrorKind::ProtocolError)));
}

#[test]
fn outbound_queue_record_format() {
    assert_eq!(
        format_outbound(b"15550001234", b"hello"),
        b"15550001234:hello".to_vec()
    );
}

#[test]
fn counters_saturate_and_never_fail() {
    let mut c = Counters::new();
    c.record_sent();
    c.record_sent();
    c.record_received();
    c.load_up();
    c.load_down();
    c.load_down();
    assert_eq!(c.sms_sent, 2);
    assert_eq!(c.sms_received, 1);
    assert_eq!(c.modem_load, 0);
}
