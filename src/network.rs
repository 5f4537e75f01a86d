//! The network stage: queues the batches that the disk stage forwards and sends each
//! one in fixed-size slices, spread evenly over the window between disk flushes.

use vstd::prelude::*;
use vstd::arithmetic::div_mod::{lemma_basic_div, lemma_div_plus_one};
use std::collections::VecDeque;
use crate::message::{batch_poll_view, BatchMessage, BatchModel, Poll};

verus! {

/// Nanoseconds in a millisecond.
pub const NANOS_PER_MILLI: u128 = 1000000;

/// How many sends a batch of `len` messages takes, `msgs_per_interval` at a time:
/// `len / msgs_per_interval`, rounded up.
pub open spec fn sends_needed(len: nat, msgs_per_interval: nat) -> nat
    recommends
        msgs_per_interval > 0,
{
    ((len + msgs_per_interval - 1) / msgs_per_interval as int) as nat
}

/// The sending window, in nanoseconds, for a disk flush period of `disk_delay`
/// milliseconds: half of that period.
pub open spec fn window_of(disk_delay: u128) -> int {
    (disk_delay / 2) * NANOS_PER_MILLI
}

/// Taking one slice of at most `m` messages off a non-empty batch leaves one send fewer.
proof fn lemma_slice_takes_one_send(len: nat, m: nat)
    requires
        m > 0,
        len > 0,
    ensures
        sends_needed(len, m) >= 1,
        sends_needed((len - if m < len { m } else { len }) as nat, m) == sends_needed(len, m) - 1,
{
    lemma_div_plus_one(len - 1, m as int);
    assert((len + m - 1) == m + (len - 1));
    if m < len {
        assert((len - m) + m - 1 == len - 1);
    } else {
        lemma_basic_div(len - 1, m as int);
        lemma_basic_div(m - 1, m as int);
    }
}

/// A schedule with no sends left belongs to an empty batch.
proof fn lemma_no_sends_left(len: nat, m: nat)
    requires
        m > 0,
        sends_needed(len, m) == 0,
    ensures
        len == 0,
{
    if len > 0 {
        lemma_slice_takes_one_send(len, m);
    }
}

/// The abstract state of the network stage.
pub struct NetworkView<U> {
    /// Batches received and not yet started, oldest first.
    pub queue: Seq<Seq<U>>,
    /// What is left of the batch being sent.
    pub current: Seq<U>,
    /// Every message sent so far, in sending order.
    pub history: Seq<U>,
    /// Nanoseconds to wait between two sends of the current batch.
    pub send_interval: nat,
    /// Sends left for the current batch.
    pub num_sends: nat,
    /// Whether the disk stage has announced the end of its output.
    pub shutdown: bool,
    /// Nanoseconds over which one batch is spread.
    pub window: nat,
    pub msgs_per_interval: nat,
}

/// What one poll of the network stage asks its driver to do.
pub struct NetworkOutcome {
    /// The send gate fired and sent this many messages (possibly none): the send
    /// clock restarts.
    pub sent: Option<nat>,
    /// The stage is done and stops.
    pub finished: bool,
    /// The input channel closed before any `Shutdown` arrived.
    pub peer_lost: bool,
}

impl<U> NetworkView<U> {
    pub open spec fn initial(disk_delay: u128, msgs_per_interval: usize) -> Self {
        NetworkView {
            queue: Seq::empty(),
            current: Seq::empty(),
            history: Seq::empty(),
            send_interval: 0,
            num_sends: 0,
            shutdown: false,
            window: window_of(disk_delay) as nat,
            msgs_per_interval: msgs_per_interval as nat,
        }
    }

    /// The schedule matches what is left of the current batch.
    pub open spec fn wf(self) -> bool {
        &&& 0 < self.msgs_per_interval <= usize::MAX
        &&& self.window <= u128::MAX
        &&& self.send_interval <= u128::MAX
        &&& self.num_sends == sends_needed(self.current.len(), self.msgs_per_interval)
    }

    /// Everything received and not yet sent, in order.
    pub open spec fn pending(self) -> Seq<U> {
        self.current + self.queue.flatten()
    }

    pub open spec fn receive(self, m: BatchModel<U>) -> Self {
        match m {
            BatchModel::Batch(b) => NetworkView { queue: self.queue.push(b), ..self },
            BatchModel::Shutdown => NetworkView { shutdown: true, ..self },
        }
    }

    pub open spec fn absorb(self, event: Poll<BatchModel<U>>) -> Self {
        match event {
            Poll::Received(m) => self.receive(m),
            _ => self,
        }
    }

    /// Whether the stage may stop: shutdown was announced and nothing is left to send.
    pub open spec fn done(self) -> bool {
        self.shutdown && self.queue.len() == 0 && self.current.len() == 0
    }

    /// How many messages the next slice holds.
    pub open spec fn slice_len(self) -> nat {
        if self.msgs_per_interval < self.current.len() {
            self.msgs_per_interval
        } else {
            self.current.len()
        }
    }

    /// Sends the next slice of the current batch, if it has any left.
    pub open spec fn send_slice(self) -> Self {
        if self.current.len() > 0 {
            let k = self.slice_len() as int;
            NetworkView {
                current: self.current.skip(k),
                history: self.history + self.current.take(k),
                num_sends: (self.num_sends - 1) as nat,
                ..self
            }
        } else {
            self
        }
    }

    /// Starts the oldest queued batch and schedules its sends.
    pub open spec fn start_next(self) -> Self {
        let b = self.queue[0];
        let n = sends_needed(b.len(), self.msgs_per_interval);
        NetworkView {
            queue: self.queue.drop_first(),
            current: b,
            num_sends: n,
            send_interval: if n > 0 { self.window / n } else { self.send_interval },
            ..self
        }
    }

    /// Whether the send gate, once open, has something to do: a batch in progress or one
    /// waiting in the queue. Otherwise the cycle is skipped.
    pub open spec fn can_send(self) -> bool {
        self.num_sends > 0 || self.queue.len() > 0
    }

    /// The state after the send gate fires (when `can_send`).
    pub open spec fn send(self) -> Self {
        if self.num_sends == 0 {
            self.start_next().send_slice()
        } else {
            self.send_slice()
        }
    }

    /// How many messages the send gate sends when it fires (when `can_send`).
    pub open spec fn sent_count(self) -> nat {
        if self.num_sends == 0 {
            self.start_next().slice_len()
        } else {
            self.slice_len()
        }
    }

    pub open spec fn step(self, event: Poll<BatchModel<U>>, elapsed: u128) -> Self {
        let r = self.absorb(event);
        if !r.done() && elapsed >= r.send_interval && r.can_send() {
            r.send()
        } else {
            r
        }
    }

    pub open spec fn step_outcome(self, event: Poll<BatchModel<U>>, elapsed: u128) -> NetworkOutcome {
        let r = self.absorb(event);
        let peer_lost = event is Disconnected && !self.shutdown;
        if r.done() {
            NetworkOutcome { sent: None, finished: true, peer_lost }
        } else if elapsed >= r.send_interval && r.can_send() {
            NetworkOutcome { sent: Some(r.sent_count()), finished: false, peer_lost }
        } else {
            NetworkOutcome { sent: None, finished: false, peer_lost }
        }
    }
    /// Firing the send gate keeps the schedule consistent and only moves messages from
    /// the pending part to the end of the history, in order.
    pub proof fn lemma_send(self)
        requires
            self.wf(),
            self.can_send(),
        ensures
            self.send().wf(),
            self.send().history + self.send().pending() == self.history + self.pending(),
            self.send().shutdown == self.shutdown,
            self.send().window == self.window,
            self.send().msgs_per_interval == self.msgs_per_interval,
    {
        let m = self.msgs_per_interval;
        let r = if self.num_sends == 0 {
            lemma_no_sends_left(self.current.len(), m);
            let q = self.start_next();
            assert(self.queue.flatten() == self.queue[0] + self.queue.drop_first().flatten());
            assert(q.pending() =~= self.pending());
            assert(q.send_interval <= u128::MAX) by {
                if q.num_sends > 0 {
                    assert(self.window / q.num_sends <= self.window) by (nonlinear_arith)
                        requires q.num_sends > 0;
                }
            }
            q
        } else {
            self
        };
        assert(self.send() == r.send_slice());
        if r.current.len() > 0 {
            lemma_slice_takes_one_send(r.current.len(), m);
            let k = r.slice_len() as int;
            assert(r.current =~= r.current.take(k) + r.current.skip(k));
            assert(r.send_slice().history + r.send_slice().pending() =~= r.history + r.pending());
        }
    }
}

/// One poll of the network stage: what its receive found, and nanoseconds since its last send.
pub type NetworkEvent<U> = (Poll<BatchModel<U>>, u128);

/// The batches received through `events`, in arrival order.
pub open spec fn received_batches<U>(events: Seq<NetworkEvent<U>>) -> Seq<Seq<U>>
    decreases events.len(),
{
    if events.len() == 0 {
        Seq::empty()
    } else {
        let earlier = received_batches(events.drop_last());
        match events.last().0 {
            Poll::Received(BatchModel::Batch(b)) => earlier.push(b),
            _ => earlier,
        }
    }
}

impl<U> NetworkView<U> {
    /// The state after polling through `events`.
    pub open spec fn run(self, events: Seq<NetworkEvent<U>>) -> Self
        decreases events.len(),
    {
        if events.len() == 0 {
            self
        } else {
            self.run(events.drop_last()).step(events.last().0, events.last().1)
        }
    }
}

proof fn lemma_network_run_inv<U>(
    disk_delay: u128,
    msgs_per_interval: usize,
    events: Seq<NetworkEvent<U>>,
)
    requires
        msgs_per_interval > 0,
        window_of(disk_delay) <= u128::MAX,
    ensures
        ({
            let s = NetworkView::<U>::initial(disk_delay, msgs_per_interval).run(events);
            s.wf() && s.history + s.pending() == received_batches(events).flatten()
        }),
    decreases events.len(),
{
    let i = NetworkView::<U>::initial(disk_delay, msgs_per_interval);
    if events.len() == 0 {
        lemma_basic_div(msgs_per_interval - 1, msgs_per_interval as int);
        assert(i.queue.flatten() =~= Seq::<U>::empty());
        assert(received_batches(events).flatten() =~= Seq::<U>::empty());
        assert(i.history + i.pending() =~= Seq::<U>::empty());
    } else {
        let pre = events.drop_last();
        let e = events.last();
        lemma_network_run_inv(disk_delay, msgs_per_interval, pre);
        let s0 = i.run(pre);
        let r = s0.absorb(e.0);
        assert(r.history + r.pending() == received_batches(events).flatten()) by {
            match e.0 {
                Poll::Received(BatchModel::Batch(b)) => {
                    s0.queue.lemma_flatten_push(b);
                    received_batches(pre).lemma_flatten_push(b);
                    assert(r.history + r.pending() =~= s0.history + s0.pending() + b);
                },
                _ => {},
            }
        }
        if !r.done() && e.1 >= r.send_interval && r.can_send() {
            r.lemma_send();
        }
    }
}

/// The network stage keeps order: after any polls from the initial state, the send
/// history is the beginning of the received batches laid end to end (nothing is sent
/// before the batch carrying it arrived), and once the stage is done it is all of them.
pub proof fn lemma_network_keeps_order<U>(
    disk_delay: u128,
    msgs_per_interval: usize,
    events: Seq<NetworkEvent<U>>,
)
    requires
        msgs_per_interval > 0,
        window_of(disk_delay) <= u128::MAX,
    ensures
        ({
            let s = NetworkView::<U>::initial(disk_delay, msgs_per_interval).run(events);
            let all = received_batches(events).flatten();
            &&& s.history == all.take(s.history.len() as int)
            &&& s.done() ==> s.history == all
        }),
{
    lemma_network_run_inv(disk_delay, msgs_per_interval, events);
    let s = NetworkView::<U>::initial(disk_delay, msgs_per_interval).run(events);
    let all = received_batches(events).flatten();
    assert(all.take(s.history.len() as int) =~= s.history);
    if s.done() {
        assert(s.queue.flatten() =~= Seq::<U>::empty());
        assert(all =~= s.history);
    }
}

/// The send history does not depend on the clock: two runs of the network stage that
/// receive the same batches and are done have sent the same messages in the same order,
/// whatever the times at which they polled.
pub proof fn lemma_network_independent_of_timing<U>(
    disk_delay: u128,
    msgs_per_interval: usize,
    events1: Seq<NetworkEvent<U>>,
    events2: Seq<NetworkEvent<U>>,
)
    requires
        msgs_per_interval > 0,
        window_of(disk_delay) <= u128::MAX,
        NetworkView::<U>::initial(disk_delay, msgs_per_interval).run(events1).done(),
        NetworkView::<U>::initial(disk_delay, msgs_per_interval).run(events2).done(),
        received_batches(events1) == received_batches(events2),
    ensures
        NetworkView::<U>::initial(disk_delay, msgs_per_interval).run(events1).history
            == NetworkView::<U>::initial(disk_delay, msgs_per_interval).run(events2).history,
{
    lemma_network_keeps_order(disk_delay, msgs_per_interval, events1);
    lemma_network_keeps_order(disk_delay, msgs_per_interval, events2);
}

/// The network stage. Owns its queue of pending batches and the send history.
pub struct NetworkStage<U> {
    network_buffers: VecDeque<Vec<U>>,
    buffer_to_be_sent: Vec<U>,
    network_history: Vec<U>,
    send_interval: u128,
    num_sends: u128,
    shutdown: bool,
    window: u128,
    msgs_per_interval: usize,
}

/// The actions one poll of the network stage asks for.
pub struct NetworkStep {
    /// `Some(n)`: the send gate fired and the last `n` entries of the history were
    /// just sent; the send clock restarts.
    pub sent: Option<usize>,
    pub finished: bool,
    pub peer_lost: bool,
}

impl NetworkStep {
    pub open spec fn outcome(&self) -> NetworkOutcome {
        NetworkOutcome {
            sent: match self.sent {
                Some(n) => Some(n as nat),
                None => None,
            },
            finished: self.finished,
            peer_lost: self.peer_lost,
        }
    }
}

impl<U> View for NetworkStage<U> {
    type V = NetworkView<U>;

    closed spec fn view(&self) -> NetworkView<U> {
        NetworkView {
            queue: self.network_buffers@.map_values(|b: Vec<U>| b@),
            current: self.buffer_to_be_sent@,
            history: self.network_history@,
            send_interval: self.send_interval as nat,
            num_sends: self.num_sends as nat,
            shutdown: self.shutdown,
            window: self.window as nat,
            msgs_per_interval: self.msgs_per_interval as nat,
        }
    }
}

impl<U> NetworkStage<U> {
    /// A network stage that sends `msgs_per_interval` messages at a time and spreads
    /// each batch over half of the disk flush period `disk_delay` (milliseconds).
    pub fn new(disk_delay: u128, msgs_per_interval: usize) -> (s: Self)
        requires
            msgs_per_interval > 0,
            window_of(disk_delay) <= u128::MAX,
        ensures
            s@ == NetworkView::<U>::initial(disk_delay, msgs_per_interval),
            s@.wf(),
    {
        let s = NetworkStage {
            network_buffers: VecDeque::new(),
            buffer_to_be_sent: Vec::new(),
            network_history: Vec::new(),
            send_interval: 0,
            num_sends: 0,
            shutdown: false,
            window: (disk_delay / 2) * NANOS_PER_MILLI,
            msgs_per_interval,
        };
        proof {
            assert(s@.queue =~= Seq::<Seq<U>>::empty());
            assert(s@ =~= NetworkView::<U>::initial(disk_delay, msgs_per_interval));
            assert((0 + msgs_per_interval - 1) / msgs_per_interval as int == 0) by {
                lemma_basic_div(msgs_per_interval - 1, msgs_per_interval as int);
            }
        }
        s
    }

    /// Takes one message from the disk stage.
    pub fn receive(&mut self, m: BatchMessage<U>)
        requires
            old(self)@.wf(),
        ensures
            final(self)@ == old(self)@.receive(m@),
            final(self)@.wf(),
    {
        match m {
            BatchMessage::Batch(b) => {
                self.network_buffers.push_back(b);
                proof {
                    assert(self@.queue =~= old(self)@.queue.push(b@));
                }
            },
            BatchMessage::Shutdown => {
                self.shutdown = true;
            },
        }
    }

    /// Whether the stage may stop: shutdown was announced and nothing is left to send.
    pub fn is_done(&self) -> (r: bool)
        ensures
            r == self@.done(),
    {
        self.shutdown && self.network_buffers.len() == 0 && self.buffer_to_be_sent.len() == 0
    }

    /// Sends the next slice of the current batch into the history; returns its length.
    fn send_to_network(&mut self) -> (n: usize)
        requires
            old(self)@.wf(),
        ensures
            final(self)@ == old(self)@.send_slice(),
            n == old(self)@.slice_len(),
            final(self)@.wf(),
    {
        let buffer_size = self.buffer_to_be_sent.len();
        if buffer_size > 0 {
            let split_index = if self.msgs_per_interval < buffer_size {
                self.msgs_per_interval
            } else {
                buffer_size
            };
            proof {
                lemma_slice_takes_one_send(buffer_size as nat, self.msgs_per_interval as nat);
            }
            let mut v = self.buffer_to_be_sent.split_off(split_index);
            std::mem::swap(&mut v, &mut self.buffer_to_be_sent);
            self.network_history.append(&mut v);
            self.num_sends = self.num_sends - 1;
            proof {
                assert(self@ =~= old(self)@.send_slice());
            }
            split_index
        } else {
            0
        }
    }

    /// Runs the send gate: starts the next queued batch when the current one is done,
    /// then sends one slice. `None` when there was nothing to start.
    pub fn send(&mut self) -> (r: Option<usize>)
        requires
            old(self)@.wf(),
        ensures
            old(self)@.can_send() ==> final(self)@ == old(self)@.send() && r == Some(
                old(self)@.sent_count() as usize,
            ),
            !old(self)@.can_send() ==> final(self)@ == old(self)@ && r is None,
            final(self)@.wf(),
    {
        if self.num_sends == 0 {
            match self.network_buffers.pop_front() {
                Some(b) => {
                    let buffer_size = b.len();
                    self.buffer_to_be_sent = b;
                    let num_sends = ((buffer_size as u128) + (self.msgs_per_interval as u128 - 1))
                        / (self.msgs_per_interval as u128);
                    self.num_sends = num_sends;
                    if num_sends > 0 {
                        self.send_interval = self.window / num_sends;
                    }
                    proof {
                        assert(self@.queue =~= old(self)@.queue.drop_first());
                        assert(self@.current == old(self)@.queue[0]);
                        assert(self@ =~= old(self)@.start_next());
                    }
                },
                None => {
                    return None;
                },
            }
        }
        let n = self.send_to_network();
        Some(n)
    }
    /// One iteration of the network stage's poll loop: takes what the non-blocking
    /// receive found, stops when nothing is left after a shutdown, and otherwise runs
    /// the send gate when `elapsed` (nanoseconds since the last send) has reached the
    /// current send interval.
    pub fn step(&mut self, event: Poll<BatchMessage<U>>, elapsed: u128) -> (r: NetworkStep)
        requires
            old(self)@.wf(),
        ensures
            final(self)@ == old(self)@.step(batch_poll_view(event), elapsed),
            r.outcome() == old(self)@.step_outcome(batch_poll_view(event), elapsed),
            final(self)@.wf(),
            r.finished ==> final(self)@.shutdown && final(self)@.queue.len() == 0
                && final(self)@.current.len() == 0,
    {
        let peer_lost = match event {
            Poll::Received(m) => {
                self.receive(m);
                false
            },
            Poll::Empty => false,
            Poll::Disconnected => !self.shutdown,
        };
        if self.is_done() {
            return NetworkStep { sent: None, finished: true, peer_lost };
        }
        if elapsed >= self.send_interval {
            let sent = self.send();
            NetworkStep { sent, finished: false, peer_lost }
        } else {
            NetworkStep { sent: None, finished: false, peer_lost }
        }
    }

    /// The send history: every message sent so far, in sending order.
    pub fn history(&self) -> (r: &Vec<U>)
        ensures
            r@ == self@.history,
    {
        &self.network_history
    }

    /// Sends left for the batch in progress.
    pub fn num_sends(&self) -> (r: u128)
        ensures
            r == self@.num_sends,
    {
        self.num_sends
    }

    /// Nanoseconds between two sends of the batch in progress.
    pub fn send_interval(&self) -> (r: u128)
        ensures
            r == self@.send_interval,
    {
        self.send_interval
    }

    /// How many batches wait in the queue.
    pub fn queued_batches(&self) -> (r: usize)
        ensures
            r == self@.queue.len(),
    {
        self.network_buffers.len()
    }

    /// Whether the disk stage has announced the end of its output.
    pub fn shutdown_requested(&self) -> (r: bool)
        ensures
            r == self@.shutdown,
    {
        self.shutdown
    }
}

} // verus!
