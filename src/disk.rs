//! The disk stage: buffers incoming records, commits them to the disk store when its
//! flush gate fires, and forwards a record's message only one flush cycle after the
//! cycle that committed its write.

use vstd::prelude::*;
use crate::message::{messages, writes, PipelineMessage, Poll, Record};

verus! {

/// The abstract state of the disk stage.
pub struct DiskView<T, U> {
    /// Everything committed so far, in arrival order.
    pub store: Seq<T>,
    /// Writes received since the last flush.
    pub write_buffer: Seq<T>,
    /// Messages received and not yet forwarded.
    pub network_buffer: Seq<U>,
    /// How many records the latest flush committed; they become stable at the next one.
    pub unstable_count: nat,
    /// Whether the producer has announced the end of its input.
    pub shutdown: bool,
}

/// What one poll of the disk stage asks its driver to do.
pub struct DiskOutcome<U> {
    /// A batch of stable messages to forward downstream.
    pub batch: Option<Seq<U>>,
    /// The flush gate fired: the flush clock restarts.
    pub flushed: bool,
    /// The stage is done: forward `Shutdown` downstream and stop.
    pub finished: bool,
    /// The input channel closed before any `Shutdown` arrived.
    pub peer_lost: bool,
}

impl<T, U> DiskView<T, U> {
    pub open spec fn initial() -> Self {
        DiskView {
            store: Seq::empty(),
            write_buffer: Seq::empty(),
            network_buffer: Seq::empty(),
            unstable_count: 0,
            shutdown: false,
        }
    }

    /// Every buffered message is either one of the records committed by the latest
    /// flush or one whose write is still in the write buffer.
    pub open spec fn wf(self) -> bool {
        self.network_buffer.len() == self.unstable_count + self.write_buffer.len()
    }

    pub open spec fn receive(self, m: PipelineMessage<T, U>) -> Self {
        match m {
            PipelineMessage::Data(r) => DiskView {
                write_buffer: self.write_buffer.push(r.write_payload),
                network_buffer: self.network_buffer.push(r.message_payload),
                ..self
            },
            PipelineMessage::Shutdown => DiskView { shutdown: true, ..self },
        }
    }

    pub open spec fn absorb(self, event: Poll<PipelineMessage<T, U>>) -> Self {
        match event {
            Poll::Received(m) => self.receive(m),
            _ => self,
        }
    }

    /// The records committed by the previous flush are now stable: their messages
    /// are forwarded, as one batch, when there are any.
    pub open spec fn flushed_batch(self) -> Option<Seq<U>> {
        if self.unstable_count > 0 {
            Some(self.network_buffer.take(self.unstable_count as int))
        } else {
            None
        }
    }

    /// The state after the flush gate fires: the write buffer is committed and
    /// becomes the unstable set, and the stable messages leave the network buffer.
    pub open spec fn flush(self) -> Self {
        DiskView {
            store: self.store + self.write_buffer,
            write_buffer: Seq::empty(),
            network_buffer: self.network_buffer.skip(self.unstable_count as int),
            unstable_count: self.write_buffer.len(),
            shutdown: self.shutdown,
        }
    }

    /// Whether the stage may stop: shutdown was announced and no write is left
    /// buffered or unconfirmed.
    pub open spec fn done(self) -> bool {
        self.shutdown && self.unstable_count == 0
    }

    pub open spec fn step(self, event: Poll<PipelineMessage<T, U>>, elapsed: u128, disk_delay: u128) -> Self {
        let r = self.absorb(event);
        if elapsed >= disk_delay {
            r.flush()
        } else {
            r
        }
    }

    pub open spec fn step_outcome(
        self,
        event: Poll<PipelineMessage<T, U>>,
        elapsed: u128,
        disk_delay: u128,
    ) -> DiskOutcome<U> {
        let r = self.absorb(event);
        let peer_lost = event is Disconnected && !self.shutdown;
        if elapsed >= disk_delay {
            DiskOutcome {
                batch: r.flushed_batch(),
                flushed: true,
                finished: r.flush().done(),
                peer_lost,
            }
        } else {
            DiskOutcome { batch: None, flushed: false, finished: false, peer_lost }
        }
    }
}

/// One poll of the disk stage: what its receive found, and milliseconds since its last flush.
pub type DiskEvent<T, U> = (Poll<PipelineMessage<T, U>>, u128);

/// The records received through `events`, in arrival order.
pub open spec fn received_records<T, U>(events: Seq<DiskEvent<T, U>>) -> Seq<Record<T, U>>
    decreases events.len(),
{
    if events.len() == 0 {
        Seq::empty()
    } else {
        let earlier = received_records(events.drop_last());
        match events.last().0 {
            Poll::Received(PipelineMessage::Data(r)) => earlier.push(r),
            _ => earlier,
        }
    }
}

impl<T, U> DiskView<T, U> {
    /// The state after polling through `events` with flush period `disk_delay`.
    pub open spec fn run(self, events: Seq<DiskEvent<T, U>>, disk_delay: u128) -> Self
        decreases events.len(),
    {
        if events.len() == 0 {
            self
        } else {
            let e = events.last();
            self.run(events.drop_last(), disk_delay).step(e.0, e.1, disk_delay)
        }
    }

    /// The batches forwarded while polling through `events`, in sending order.
    pub open spec fn sent(self, events: Seq<DiskEvent<T, U>>, disk_delay: u128) -> Seq<Seq<U>>
        decreases events.len(),
    {
        if events.len() == 0 {
            Seq::empty()
        } else {
            let e = events.last();
            let earlier = self.sent(events.drop_last(), disk_delay);
            match self.run(events.drop_last(), disk_delay).step_outcome(e.0, e.1, disk_delay).batch {
                Some(b) => earlier.push(b),
                None => earlier,
            }
        }
    }

    /// Whether the last poll of `events` finished the stage.
    pub open spec fn finishes(self, events: Seq<DiskEvent<T, U>>, disk_delay: u128) -> bool {
        events.len() > 0 && self.run(events.drop_last(), disk_delay).step_outcome(
            events.last().0,
            events.last().1,
            disk_delay,
        ).finished
    }

    /// What holds after any polls from the initial state.
    pub open spec fn run_inv(self, events: Seq<DiskEvent<T, U>>, disk_delay: u128) -> bool {
        let s = self.run(events, disk_delay);
        let f = self.sent(events, disk_delay).flatten();
        &&& s.wf()
        &&& s.store + s.write_buffer == writes(received_records(events))
        &&& f + s.network_buffer == messages(received_records(events))
        &&& f.len() + s.unstable_count == s.store.len()
    }
}

proof fn lemma_disk_run_inv<T, U>(events: Seq<DiskEvent<T, U>>, disk_delay: u128)
    ensures
        DiskView::<T, U>::initial().run_inv(events, disk_delay),
    decreases events.len(),
{
    let i = DiskView::<T, U>::initial();
    if events.len() == 0 {
        assert(i.store + i.write_buffer =~= writes(received_records(events)));
        assert(i.sent(events, disk_delay).flatten() =~= Seq::<U>::empty());
        assert(i.sent(events, disk_delay).flatten() + i.network_buffer =~= messages(
            received_records(events),
        ));
    } else {
        let pre = events.drop_last();
        let e = events.last();
        lemma_disk_run_inv(pre, disk_delay);
        let s0 = i.run(pre, disk_delay);
        let f0 = i.sent(pre, disk_delay).flatten();
        let a = s0.absorb(e.0);
        let rs0 = received_records(pre);
        assert(a.wf());
        assert(a.store + a.write_buffer == writes(received_records(events)) && f0
            + a.network_buffer == messages(received_records(events))) by {
            match e.0 {
                Poll::Received(PipelineMessage::Data(r)) => {
                    assert(writes(rs0.push(r)) =~= writes(rs0).push(r.write_payload));
                    assert(messages(rs0.push(r)) =~= messages(rs0).push(r.message_payload));
                    assert(a.store + a.write_buffer =~= (s0.store + s0.write_buffer).push(
                        r.write_payload,
                    ));
                    assert(f0 + a.network_buffer =~= (f0 + s0.network_buffer).push(
                        r.message_payload,
                    ));
                },
                _ => {},
            }
        }
        if e.1 >= disk_delay {
            let u = a.unstable_count as int;
            let fl = a.flush();
            assert(fl.store + fl.write_buffer =~= a.store + a.write_buffer);
            if u > 0 {
                assert(i.sent(events, disk_delay) == i.sent(pre, disk_delay).push(
                    a.network_buffer.take(u),
                ));
                i.sent(pre, disk_delay).lemma_flatten_push(a.network_buffer.take(u));
                assert(f0 + a.network_buffer.take(u) + fl.network_buffer =~= f0 + a.network_buffer);
            } else {
                assert(fl.network_buffer =~= a.network_buffer);
            }
        }
    }
}

/// The disk stage keeps order and loses nothing, and forwards a record only one flush
/// after the flush that committed its write. After any polls from the initial state:
/// the disk store followed by the write buffer is every write received; the batches sent,
/// laid end to end, followed by the messages still buffered, are every message received;
/// what was sent is exactly the records committed before the latest flush; and the batch
/// the next flush sends holds exactly the messages of the records the latest flush committed.
pub proof fn lemma_disk_keeps_order<T, U>(events: Seq<DiskEvent<T, U>>, disk_delay: u128)
    ensures
        ({
            let i = DiskView::<T, U>::initial();
            let s = i.run(events, disk_delay);
            let f = i.sent(events, disk_delay).flatten();
            let rs = received_records(events);
            &&& s.store + s.write_buffer == writes(rs)
            &&& f + s.network_buffer == messages(rs)
            &&& f.len() + s.unstable_count == s.store.len()
            &&& f == messages(rs.take(f.len() as int))
            &&& s.store.take(f.len() as int) == writes(rs.take(f.len() as int))
            &&& s.network_buffer.take(s.unstable_count as int) == messages(
                rs.subrange(f.len() as int, s.store.len() as int),
            )
            &&& s.store.skip(f.len() as int) == writes(
                rs.subrange(f.len() as int, s.store.len() as int),
            )
        }),
{
    lemma_disk_run_inv(events, disk_delay);
    let i = DiskView::<T, U>::initial();
    let s = i.run(events, disk_delay);
    let f = i.sent(events, disk_delay).flatten();
    let rs = received_records(events);
    let n = f.len() as int;
    let m = s.store.len() as int;
    assert(writes(rs).len() == rs.len());
    assert(f =~= messages(rs).take(n));
    assert(messages(rs).take(n) =~= messages(rs.take(n)));
    assert(s.store.take(n) =~= writes(rs).take(n));
    assert(writes(rs).take(n) =~= writes(rs.take(n)));
    assert(s.network_buffer.take(s.unstable_count as int) =~= messages(rs).subrange(n, m));
    assert(messages(rs).subrange(n, m) =~= messages(rs.subrange(n, m)));
    assert(s.store.skip(n) =~= writes(rs).subrange(n, m));
    assert(writes(rs).subrange(n, m) =~= writes(rs.subrange(n, m)));
}

/// The disk stage finishes only when every write received is in the disk store and every
/// message received has been sent, each exactly once, in arrival order: the lengths of the
/// batches sent add up to the number of records received.
pub proof fn lemma_disk_finishes_complete<T, U>(events: Seq<DiskEvent<T, U>>, disk_delay: u128)
    ensures
        ({
            let i = DiskView::<T, U>::initial();
            let s = i.run(events, disk_delay);
            let rs = received_records(events);
            i.finishes(events, disk_delay) ==> {
                &&& s.shutdown && s.unstable_count == 0
                &&& s.store == writes(rs)
                &&& i.sent(events, disk_delay).flatten() == messages(rs)
                &&& i.sent(events, disk_delay).flatten().len() == rs.len()
            }
        }),
{
    lemma_disk_run_inv(events, disk_delay);
    let i = DiskView::<T, U>::initial();
    let s = i.run(events, disk_delay);
    if i.finishes(events, disk_delay) {
        assert(events.last().1 >= disk_delay);
        assert(s.store =~= s.store + s.write_buffer);
        assert(i.sent(events, disk_delay).flatten() =~= i.sent(events, disk_delay).flatten()
            + s.network_buffer);
    }
}

/// Batches do not depend on the clock: two runs of the disk stage that receive the same
/// records and finish send the same messages, in the same order, and leave the same disk
/// store, whatever the times at which they polled.
pub proof fn lemma_disk_independent_of_timing<T, U>(
    events1: Seq<DiskEvent<T, U>>,
    events2: Seq<DiskEvent<T, U>>,
    disk_delay: u128,
)
    requires
        DiskView::<T, U>::initial().finishes(events1, disk_delay),
        DiskView::<T, U>::initial().finishes(events2, disk_delay),
        received_records(events1) == received_records(events2),
    ensures
        DiskView::<T, U>::initial().sent(events1, disk_delay).flatten() == DiskView::<
            T,
            U,
        >::initial().sent(events2, disk_delay).flatten(),
        DiskView::<T, U>::initial().run(events1, disk_delay).store == DiskView::<
            T,
            U,
        >::initial().run(events2, disk_delay).store,
{
    lemma_disk_finishes_complete(events1, disk_delay);
    lemma_disk_finishes_complete(events2, disk_delay);
}

/// The disk stage. Owns the disk store and both pending buffers.
pub struct DiskStage<T, U> {
    disk: Vec<T>,
    disk_buffer: Vec<T>,
    network_buffer: Vec<U>,
    unstable_count: usize,
    shutdown: bool,
}

/// The actions one poll of the disk stage asks for.
pub struct DiskStep<U> {
    pub batch: Option<Vec<U>>,
    pub flushed: bool,
    pub finished: bool,
    pub peer_lost: bool,
}

impl<U> DiskStep<U> {
    pub open spec fn outcome(&self) -> DiskOutcome<U> {
        DiskOutcome {
            batch: match self.batch {
                Some(b) => Some(b@),
                None => None,
            },
            flushed: self.flushed,
            finished: self.finished,
            peer_lost: self.peer_lost,
        }
    }
}

impl<T, U> View for DiskStage<T, U> {
    type V = DiskView<T, U>;

    closed spec fn view(&self) -> DiskView<T, U> {
        DiskView {
            store: self.disk@,
            write_buffer: self.disk_buffer@,
            network_buffer: self.network_buffer@,
            unstable_count: self.unstable_count as nat,
            shutdown: self.shutdown,
        }
    }
}

impl<T, U> DiskStage<T, U> {
    pub fn new() -> (s: Self)
        ensures
            s@ == DiskView::<T, U>::initial(),
    {
        let s = DiskStage {
            disk: Vec::new(),
            disk_buffer: Vec::new(),
            network_buffer: Vec::new(),
            unstable_count: 0,
            shutdown: false,
        };
        proof {
            assert(s@ =~= DiskView::<T, U>::initial());
        }
        s
    }

    /// Takes one message from the producer.
    pub fn receive(&mut self, m: PipelineMessage<T, U>)
        requires
            old(self)@.wf(),
        ensures
            final(self)@ == old(self)@.receive(m),
            final(self)@.wf(),
    {
        match m {
            PipelineMessage::Data(r) => {
                self.disk_buffer.push(r.write_payload);
                self.network_buffer.push(r.message_payload);
            },
            PipelineMessage::Shutdown => {
                self.shutdown = true;
            },
        }
    }

    /// Runs the flush gate: commits the write buffer to the disk store and hands back
    /// the batch of messages that became stable, if any.
    pub fn flush(&mut self) -> (batch: Option<Vec<U>>)
        requires
            old(self)@.wf(),
        ensures
            final(self)@ == old(self)@.flush(),
            final(self)@.wf(),
            match batch {
                Some(b) => old(self)@.flushed_batch() == Some(b@),
                None => old(self)@.flushed_batch() is None,
            },
    {
        let stable_count = self.unstable_count;
        self.unstable_count = self.disk_buffer.len();
        self.disk.append(&mut self.disk_buffer);
        if stable_count > 0 {
            let mut batch = self.network_buffer.split_off(stable_count);
            std::mem::swap(&mut batch, &mut self.network_buffer);
            Some(batch)
        } else {
            proof {
                assert(self.network_buffer@ =~= self.network_buffer@.skip(0));
            }
            None
        }
    }

    /// One iteration of the disk stage's poll loop: takes what the non-blocking receive
    /// found, then runs the flush gate when `elapsed` (time since the last flush)
    /// has reached `disk_delay`.
    pub fn step(&mut self, event: Poll<PipelineMessage<T, U>>, elapsed: u128, disk_delay: u128) -> (r: DiskStep<U>)
        requires
            old(self)@.wf(),
        ensures
            final(self)@ == old(self)@.step(event, elapsed, disk_delay),
            r.outcome() == old(self)@.step_outcome(event, elapsed, disk_delay),
            final(self)@.wf(),
            r.finished ==> final(self)@.shutdown && final(self)@.unstable_count == 0
                && final(self)@.write_buffer.len() == 0 && final(self)@.network_buffer.len() == 0,
    {
        let peer_lost = match event {
            Poll::Received(m) => {
                self.receive(m);
                false
            },
            Poll::Empty => false,
            Poll::Disconnected => !self.shutdown,
        };
        if elapsed >= disk_delay {
            let batch = self.flush();
            let finished = self.shutdown && self.unstable_count == 0;
            DiskStep { batch, flushed: true, finished, peer_lost }
        } else {
            DiskStep { batch: None, flushed: false, finished: false, peer_lost }
        }
    }

    /// The disk store: every write committed so far.
    pub fn disk(&self) -> (r: &Vec<T>)
        ensures
            r@ == self@.store,
    {
        &self.disk
    }

    /// How many records the latest flush committed that are not yet stable.
    pub fn unstable_count(&self) -> (r: usize)
        ensures
            r == self@.unstable_count,
    {
        self.unstable_count
    }

    /// Whether the producer has announced the end of its input.
    pub fn shutdown_requested(&self) -> (r: bool)
        ensures
            r == self@.shutdown,
    {
        self.shutdown
    }

    /// How many messages wait to be forwarded.
    pub fn pending_messages(&self) -> (r: usize)
        ensures
            r == self@.network_buffer.len(),
    {
        self.network_buffer.len()
    }
}

} // verus!
