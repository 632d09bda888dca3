use std::time::Duration;
use std::time::Instant;

use benchrpc::clock::busy_sleep;
use benchrpc::message::{fixed_payload, make_request, MyBenchrpc, DEFAULT_PAYLOAD_LEN};
use benchrpc::pipeline::{ReceiveState, ReplyOutcome};
use benchrpc::queue::{CorrelationEntry, CorrelationQueue};
use benchrpc::stats::{qps, summarize};

fn entry(id: i64, sent_micros: u64) -> CorrelationEntry {
    let payload = String::from("ab");
    CorrelationEntry { request: make_request(id, &payload), sent_micros }
}

#[test]
fn qps_of_a_zero_length_run_is_zero() {
    assert_eq!(qps(1000, 0), 0);
    assert_eq!(qps(0, 0), 0);
}

#[test]
fn qps_exact_values() {
    assert_eq!(qps(1000, 2_000_000), 500);
    assert_eq!(qps(3, 1_000_000), 3);
    assert_eq!(qps(1, 2_000_000), 0);
    assert_eq!(qps(0, 5), 0);
}

#[test]
fn queue_refuses_beyond_capacity_and_keeps_fifo() {
    let mut q = CorrelationQueue::with_capacity(3);
    assert!(q.try_push(entry(0, 10)).is_ok());
    assert!(q.try_push(entry(1, 11)).is_ok());
    assert!(q.try_push(entry(2, 12)).is_ok());
    // a fourth push without any pop is refused: the caller would suspend
    let refused = q.try_push(entry(3, 13));
    let back = refused.expect_err("push into a full queue must be refused");
    assert_eq!(back.request.id, 3);
    assert_eq!(q.len(), 3);
    // after one pop the refused push goes through, FIFO order preserved
    let first = q.try_pop().expect("queue is not empty");
    assert_eq!(first.request.id, 0);
    assert!(q.try_push(back).is_ok());
    assert_eq!(q.try_pop().expect("entry").request.id, 1);
    assert_eq!(q.try_pop().expect("entry").request.id, 2);
    assert_eq!(q.try_pop().expect("entry").request.id, 3);
    assert!(q.try_pop().is_none());
}

#[test]
fn reply_without_outstanding_entry_is_reported_and_skipped() {
    let mut st = ReceiveState::new();
    let outcome = st.on_reply(5, None, 100);
    assert_eq!(outcome, ReplyOutcome::QueueEmpty);
    assert_eq!(st.received, 0);
    assert_eq!(st.hist.total, 0);
    // processing continues: the next reply with an entry still counts
    let outcome = st.on_reply(7, Some(entry(7, 40)), 100);
    assert_eq!(outcome, ReplyOutcome::Matched);
    assert_eq!(st.received, 1);
    assert_eq!(st.hist.total, 1);
    assert_eq!(st.hist.max, 60);
}

#[test]
fn id_mismatch_is_reported_but_still_counted() {
    let mut st = ReceiveState::new();
    let outcome = st.on_reply(4, Some(entry(3, 90)), 100);
    assert_eq!(outcome, ReplyOutcome::IdMismatch);
    assert_eq!(st.received, 1);
    assert_eq!(st.hist.total, 1);
    assert_eq!(st.hist.max, 10);
}

#[test]
fn echo_reply_carries_id_and_derived_payload() {
    let service = MyBenchrpc::default();
    let req = make_request(42, &String::from("abc"));
    let reply = service.reply_to(&req);
    assert_eq!(reply.id, 42);
    assert_eq!(reply.payload, String::from("pong: abc"));
}

#[test]
fn fixed_payload_is_constant_and_sized() {
    let p = fixed_payload(DEFAULT_PAYLOAD_LEN);
    assert_eq!(p.len(), 2048);
    assert!(p.chars().all(|c| c == 'x'));
    let empty = fixed_payload(0);
    assert_eq!(empty.len(), 0);
}

#[test]
fn end_to_end_echo_run_of_one_thousand() {
    let total: usize = 1000;
    let payload = fixed_payload(DEFAULT_PAYLOAD_LEN);
    let service = MyBenchrpc::default();
    let mut queue = CorrelationQueue::with_capacity(total);
    let mut st = ReceiveState::new();
    let mut mismatches: u64 = 0;
    for i in 0..total {
        let sent: u64 = i as u64;
        let req = make_request(i as i64, &payload);
        queue
            .try_push(CorrelationEntry { request: req.clone(), sent_micros: sent })
            .ok()
            .expect("queue has room for every in-flight request");
        let reply = service.reply_to(&req);
        assert_eq!(reply.id, i as i64);
        let popped = queue.try_pop();
        match st.on_reply(reply.id, popped, sent + 1) {
            ReplyOutcome::Matched => {}
            ReplyOutcome::IdMismatch | ReplyOutcome::QueueEmpty => mismatches += 1,
        }
    }
    assert_eq!(st.received, 1000);
    assert_eq!(mismatches, 0);
    let stats = summarize(&st.hist, total as u64, st.received, 1000);
    assert!(stats.p50 <= stats.p99);
    assert!(stats.p99 <= stats.max);
    assert_eq!(stats.max, 1);
    assert_eq!(stats.qps, 1_000_000);
}

#[test]
fn summarize_collects_the_snapshot() {
    let mut st = ReceiveState::new();
    st.on_reply(0, Some(entry(0, 0)), 7);
    let stats = summarize(&st.hist, 5, st.received, 2_000_000);
    assert_eq!(stats.total_requests, 5);
    assert_eq!(stats.received, 1);
    assert_eq!(stats.elapsed_micros, 2_000_000);
    assert_eq!(stats.p50, 8);
    assert_eq!(stats.p99, 8);
    assert_eq!(stats.max, 7);
    assert_eq!(stats.qps, 0);
}

#[test]
fn busy_sleep_waits_at_least_the_duration() {
    let start = Instant::now();
    busy_sleep(Duration::from_millis(2));
    assert!(start.elapsed().as_micros() >= 2000);
}
