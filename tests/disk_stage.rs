use staged_pipeline::disk::DiskStage;
use staged_pipeline::message::{producer, PipelineMessage, Poll, Record};

fn data(w: u64, m: u64) -> Poll<PipelineMessage<u64, u64>> {
    Poll::Received(PipelineMessage::Data(Record { write_payload: w, message_payload: m }))
}

#[test]
fn receiving_only_buffers() {
    let mut d: DiskStage<u64, u64> = DiskStage::new();
    let s = d.step(data(1, 11), 5, 100);
    assert!(!s.flushed);
    assert!(s.batch.is_none());
    assert!(!s.finished);
    assert!(d.disk().is_empty());
    assert_eq!(d.pending_messages(), 1);
}

#[test]
fn first_flush_commits_without_forwarding() {
    let mut d: DiskStage<u64, u64> = DiskStage::new();
    d.step(data(1, 11), 0, 100);
    d.step(data(2, 12), 0, 100);
    let s = d.step(Poll::Empty, 100, 100);
    assert!(s.flushed);
    assert!(s.batch.is_none());
    assert_eq!(d.disk(), &vec![1, 2]);
    assert_eq!(d.unstable_count(), 2);
    assert_eq!(d.pending_messages(), 2);
}

#[test]
fn second_flush_forwards_previous_cycle() {
    let mut d: DiskStage<u64, u64> = DiskStage::new();
    d.step(data(1, 11), 0, 100);
    d.step(data(2, 12), 0, 100);
    d.step(Poll::Empty, 100, 100);
    d.step(data(3, 13), 0, 100);
    let s = d.step(Poll::Empty, 150, 100);
    assert!(s.flushed);
    assert_eq!(s.batch, Some(vec![11, 12]));
    assert_eq!(d.disk(), &vec![1, 2, 3]);
    assert_eq!(d.unstable_count(), 1);
    assert_eq!(d.pending_messages(), 1);
}

#[test]
fn flush_gate_fires_at_exactly_the_delay() {
    let mut d: DiskStage<u64, u64> = DiskStage::new();
    assert!(!d.step(Poll::Empty, 99, 100).flushed);
    assert!(d.step(Poll::Empty, 100, 100).flushed);
}

#[test]
fn shutdown_waits_until_nothing_is_unstable() {
    let mut d: DiskStage<u64, u64> = DiskStage::new();
    d.step(data(1, 11), 0, 100);
    let s = d.step(Poll::Received(PipelineMessage::Shutdown), 0, 100);
    assert!(!s.finished);
    assert!(d.shutdown_requested());
    let s = d.step(Poll::Disconnected, 100, 100);
    assert!(!s.peer_lost);
    assert!(!s.finished);
    assert_eq!(d.unstable_count(), 1);
    let s = d.step(Poll::Disconnected, 100, 100);
    assert_eq!(s.batch, Some(vec![11]));
    assert!(s.finished);
    assert_eq!(d.unstable_count(), 0);
    assert_eq!(d.pending_messages(), 0);
    assert_eq!(d.disk(), &vec![1]);
}

#[test]
fn shutdown_with_empty_buffers_finishes_at_next_flush() {
    let mut d: DiskStage<u64, u64> = DiskStage::new();
    let s = d.step(Poll::Received(PipelineMessage::Shutdown), 10, 100);
    assert!(!s.finished);
    let s = d.step(Poll::Empty, 100, 100);
    assert!(s.finished);
    assert!(s.batch.is_none());
}

#[test]
fn lost_producer_is_reported_before_shutdown_only() {
    let mut d: DiskStage<u64, u64> = DiskStage::new();
    assert!(d.step(Poll::Disconnected, 0, 100).peer_lost);
    d.receive(PipelineMessage::Shutdown);
    assert!(!d.step(Poll::Disconnected, 0, 100).peer_lost);
}

#[test]
fn flush_moves_the_write_buffer() {
    let mut d: DiskStage<u64, u64> = DiskStage::new();
    d.receive(PipelineMessage::Data(Record { write_payload: 7, message_payload: 70 }));
    assert_eq!(d.flush(), None);
    d.receive(PipelineMessage::Data(Record { write_payload: 8, message_payload: 80 }));
    assert_eq!(d.flush(), Some(vec![70]));
    assert_eq!(d.flush(), Some(vec![80]));
    assert_eq!(d.flush(), None);
    assert_eq!(d.disk(), &vec![7, 8]);
}

#[test]
fn producer_stamps_both_payloads() {
    match producer(1234) {
        PipelineMessage::Data(r) => {
            assert_eq!(r.write_payload, 1234);
            assert_eq!(r.message_payload, 1234);
        }
        PipelineMessage::Shutdown => panic!("expected data"),
    }
}

fn run_disk(records: u64, poll_ms: u128) -> (Vec<u64>, Vec<Vec<u64>>) {
    let mut d: DiskStage<u64, u64> = DiskStage::new();
    let mut sent = Vec::new();
    let mut since_flush: u128 = 0;
    for i in 0..10_000u64 {
        let event = if i < records {
            data(i, 100 + i)
        } else if i == records {
            Poll::Received(PipelineMessage::Shutdown)
        } else {
            Poll::Disconnected
        };
        let s = d.step(event, since_flush, 20);
        since_flush = if s.flushed { 0 } else { since_flush + poll_ms };
        if let Some(b) = s.batch {
            sent.push(b);
        }
        if s.finished {
            return (d.disk().clone(), sent);
        }
    }
    panic!("disk stage did not finish");
}

#[test]
fn sent_messages_do_not_depend_on_timing() {
    let (store_a, sent_a) = run_disk(12, 1);
    let (store_b, sent_b) = run_disk(12, 7);
    let expected: Vec<u64> = (0..12).collect();
    assert_eq!(store_a, expected);
    assert_eq!(store_b, expected);
    let flat_a: Vec<u64> = sent_a.concat();
    let flat_b: Vec<u64> = sent_b.concat();
    assert_eq!(flat_a, (100..112).collect::<Vec<u64>>());
    assert_eq!(flat_a, flat_b);
    assert_ne!(sent_a.len(), sent_b.len());
}
