use staged_pipeline::disk::DiskStage;
use staged_pipeline::message::{BatchMessage, PipelineMessage, Poll, Record};
use staged_pipeline::network::NetworkStage;
use std::collections::VecDeque;

/// What a simulated run leaves behind.
struct RunResult {
    disk_store: Vec<u64>,
    history: Vec<u64>,
    batch_lengths: Vec<usize>,
    disk_finished: bool,
    network_finished: bool,
}

/// Runs the pipeline on a simulated clock that advances one millisecond per tick. The
/// producer sends record `i` (both payloads `i * 10`) at tick `i * period`, and
/// `Shutdown` one period after the last record.
fn simulate(disk_delay: u128, msgs_per_interval: usize, records: u64, period: u64) -> RunResult {
    let mut disk: DiskStage<u64, u64> = DiskStage::new();
    let mut network: NetworkStage<u64> = NetworkStage::new(disk_delay, msgs_per_interval);
    let mut link_a: VecDeque<PipelineMessage<u64, u64>> = VecDeque::new();
    let mut link_b: VecDeque<BatchMessage<u64>> = VecDeque::new();
    let mut batch_lengths = Vec::new();
    let mut produced: u64 = 0;
    let mut producer_done = false;
    let mut disk_finished = false;
    let mut network_finished = false;
    let mut last_flush: u64 = 0;
    let mut last_send: u64 = 0;
    let mut now: u64 = 0;
    while !network_finished && now < 100_000 {
        if !producer_done && now == produced * period {
            if produced < records {
                let v = produced * 10;
                link_a.push_back(PipelineMessage::Data(Record { write_payload: v, message_payload: v }));
                produced += 1;
            } else {
                link_a.push_back(PipelineMessage::Shutdown);
                producer_done = true;
            }
        }
        if !disk_finished {
            let event = match link_a.pop_front() {
                Some(m) => Poll::Received(m),
                None if producer_done => Poll::Disconnected,
                None => Poll::Empty,
            };
            let out = disk.step(event, (now - last_flush) as u128, disk_delay);
            if out.flushed {
                last_flush = now;
            }
            if let Some(b) = out.batch {
                batch_lengths.push(b.len());
                link_b.push_back(BatchMessage::Batch(b));
            }
            if out.finished {
                link_b.push_back(BatchMessage::Shutdown);
                disk_finished = true;
            }
        }
        let event = match link_b.pop_front() {
            Some(m) => Poll::Received(m),
            None if disk_finished => Poll::Disconnected,
            None => Poll::Empty,
        };
        let out = network.step(event, ((now - last_send) as u128) * 1_000_000);
        if out.sent.is_some() {
            last_send = now;
        }
        network_finished = out.finished;
        now += 1;
    }
    RunResult {
        disk_store: disk.disk().clone(),
        history: network.history().clone(),
        batch_lengths,
        disk_finished,
        network_finished,
    }
}

#[test]
fn five_records_ten_ms_apart() {
    let r = simulate(100, 2, 5, 10);
    assert_eq!(r.disk_store, vec![0, 10, 20, 30, 40]);
    assert_eq!(r.history, vec![0, 10, 20, 30, 40]);
    assert!(r.disk_finished);
    assert!(r.network_finished);
}

#[test]
fn order_is_kept_across_many_cycles() {
    let r = simulate(20, 3, 40, 3);
    let expected: Vec<u64> = (0..40).map(|i| i * 10).collect();
    assert_eq!(r.history, expected);
    assert_eq!(r.disk_store, expected);
    assert!(r.batch_lengths.len() > 1);
}

#[test]
fn batch_lengths_add_up_to_records_generated() {
    let r = simulate(15, 2, 23, 2);
    assert_eq!(r.batch_lengths.iter().sum::<usize>(), 23);
    assert!(r.network_finished);
}

#[test]
fn no_records_shuts_down_cleanly() {
    let r = simulate(10, 1, 0, 5);
    assert!(r.disk_store.is_empty());
    assert!(r.history.is_empty());
    assert!(r.batch_lengths.is_empty());
    assert!(r.disk_finished);
    assert!(r.network_finished);
}

#[test]
fn rerun_gives_the_same_history() {
    let a = simulate(30, 4, 17, 4);
    let b = simulate(30, 4, 17, 4);
    assert_eq!(a.history, b.history);
    assert_eq!(a.batch_lengths, b.batch_lengths);
    let c = simulate(30, 4, 17, 1);
    assert_eq!(a.history, c.history);
}

#[test]
fn nothing_is_sent_before_the_following_flush() {
    // Records generated before the first flush are committed by it and sent only after
    // the second one.
    let mut disk: DiskStage<u64, u64> = DiskStage::new();
    let mut network: NetworkStage<u64> = NetworkStage::new(100, 8);
    for v in 0..3u64 {
        disk.step(Poll::Received(PipelineMessage::Data(Record { write_payload: v, message_payload: v })), 0, 100);
    }
    let first = disk.step(Poll::Empty, 100, 100);
    assert_eq!(disk.disk(), &vec![0, 1, 2]);
    assert!(first.batch.is_none());
    assert!(network.history().is_empty());
    let second = disk.step(Poll::Empty, 100, 100);
    let b = second.batch.expect("stable batch");
    network.receive(BatchMessage::Batch(b));
    assert_eq!(network.send(), Some(3));
    assert_eq!(network.history(), &vec![0, 1, 2]);
}
