use staged_pipeline::message::{BatchMessage, Poll};
use staged_pipeline::network::NetworkStage;

fn batch(v: Vec<u64>) -> Poll<BatchMessage<u64>> {
    Poll::Received(BatchMessage::Batch(v))
}

#[test]
fn batch_is_sent_in_slices() {
    let mut n: NetworkStage<u64> = NetworkStage::new(100, 2);
    let s = n.step(batch(vec![1, 2, 3]), 0);
    assert_eq!(s.sent, Some(2));
    assert_eq!(n.num_sends(), 1);
    // Half of 100 ms, in nanoseconds, over two sends.
    assert_eq!(n.send_interval(), 25_000_000);
    assert_eq!(n.history(), &vec![1, 2]);
    let s = n.step(Poll::Empty, 24_999_999);
    assert_eq!(s.sent, None);
    let s = n.step(Poll::Empty, 25_000_000);
    assert_eq!(s.sent, Some(1));
    assert_eq!(n.num_sends(), 0);
    assert_eq!(n.history(), &vec![1, 2, 3]);
}

#[test]
fn slice_larger_than_batch_sends_it_whole() {
    let mut n: NetworkStage<u64> = NetworkStage::new(100, 10);
    n.receive(BatchMessage::Batch(vec![4, 5, 6]));
    assert_eq!(n.send(), Some(3));
    assert_eq!(n.history(), &vec![4, 5, 6]);
    assert_eq!(n.num_sends(), 0);
    // One send: the whole window.
    assert_eq!(n.send_interval(), 50_000_000);
}

#[test]
fn exact_multiple_needs_no_extra_send() {
    let mut n: NetworkStage<u64> = NetworkStage::new(20, 2);
    n.receive(BatchMessage::Batch(vec![1, 2, 3, 4]));
    assert_eq!(n.send(), Some(2));
    assert_eq!(n.num_sends(), 1);
    assert_eq!(n.send_interval(), 5_000_000);
    assert_eq!(n.send(), Some(2));
    assert_eq!(n.num_sends(), 0);
}

#[test]
fn nothing_to_send_skips_the_cycle() {
    let mut n: NetworkStage<u64> = NetworkStage::new(100, 2);
    assert_eq!(n.send(), None);
    let s = n.step(Poll::Empty, 1_000_000_000);
    assert_eq!(s.sent, None);
    assert!(!s.finished);
}

#[test]
fn batches_are_drained_in_order() {
    let mut n: NetworkStage<u64> = NetworkStage::new(100, 1);
    n.receive(BatchMessage::Batch(vec![1, 2]));
    n.receive(BatchMessage::Batch(vec![3]));
    assert_eq!(n.queued_batches(), 2);
    while n.send().is_some() {}
    assert_eq!(n.history(), &vec![1, 2, 3]);
    assert_eq!(n.queued_batches(), 0);
}

#[test]
fn empty_batch_sends_nothing() {
    let mut n: NetworkStage<u64> = NetworkStage::new(100, 2);
    n.receive(BatchMessage::Batch(vec![]));
    assert_eq!(n.send(), Some(0));
    assert_eq!(n.num_sends(), 0);
    assert_eq!(n.send_interval(), 0);
    assert!(n.history().is_empty());
}

#[test]
fn finishes_only_when_drained() {
    let mut n: NetworkStage<u64> = NetworkStage::new(100, 1);
    n.receive(BatchMessage::Batch(vec![1, 2]));
    let s = n.step(Poll::Received(BatchMessage::Shutdown), 0);
    assert!(!s.finished);
    assert_eq!(s.sent, Some(1));
    assert!(n.shutdown_requested());
    assert!(!n.is_done());
    let s = n.step(Poll::Disconnected, 0);
    assert!(!s.finished);
    assert!(!s.peer_lost);
    assert_eq!(s.sent, None);
    let s = n.step(Poll::Disconnected, 50_000_000);
    assert_eq!(s.sent, Some(1));
    let s = n.step(Poll::Disconnected, 0);
    assert!(s.finished);
    assert!(n.is_done());
    assert_eq!(n.history(), &vec![1, 2]);
}

#[test]
fn lost_disk_stage_is_reported_before_shutdown_only() {
    let mut n: NetworkStage<u64> = NetworkStage::new(100, 1);
    assert!(n.step(Poll::Disconnected, 0).peer_lost);
    n.receive(BatchMessage::Shutdown);
    let s = n.step(Poll::Disconnected, 0);
    assert!(!s.peer_lost);
    assert!(s.finished);
}

fn drain(mut n: NetworkStage<u64>, clock_step: u128) -> Vec<u64> {
    let mut inputs = vec![batch(vec![1, 2, 3]), batch(vec![4]), batch(vec![5, 6, 7, 8, 9])];
    inputs.push(Poll::Received(BatchMessage::Shutdown));
    inputs.reverse();
    let mut elapsed: u128 = 0;
    for _ in 0..10_000 {
        let event = inputs.pop().unwrap_or(Poll::Disconnected);
        let s = n.step(event, elapsed);
        if s.finished {
            return n.history().clone();
        }
        elapsed = if s.sent.is_some() { 0 } else { elapsed + clock_step };
    }
    panic!("network stage did not finish");
}

#[test]
fn history_does_not_depend_on_timing() {
    let fast = drain(NetworkStage::new(100, 2), 50_000_000);
    let slow = drain(NetworkStage::new(100, 2), 1_000_000);
    assert_eq!(fast, vec![1, 2, 3, 4, 5, 6, 7, 8, 9]);
    assert_eq!(fast, slow);
}
