//! A model of the whole pipeline: the producer, the two stages and the two ordered
//! channels between them, driven by any interleaving of the stages' poll iterations
//! and any readings of their clocks. The laws of the pipeline are proved over it.

use vstd::prelude::*;
use vstd::arithmetic::div_mod::lemma_basic_div;
use crate::disk::{DiskOutcome, DiskView};
use crate::message::{messages, writes, BatchModel, PipelineMessage, Poll, Record};
use crate::network::{window_of, NetworkView};

verus! {

/// One thing that can happen in the pipeline.
pub enum PipelineEvent<T, U> {
    /// The producer sends one record.
    Produce(Record<T, U>),
    /// The producer sends `Shutdown` and stops.
    EndInput,
    /// The disk stage runs one iteration of its poll loop, this many milliseconds after
    /// its last flush.
    DiskPoll(u128),
    /// The network stage runs one iteration of its poll loop, this many nanoseconds
    /// after its last send.
    NetworkPoll(u128),
}

pub open spec fn records_of<T, U>(m: PipelineMessage<T, U>) -> Seq<Record<T, U>> {
    match m {
        PipelineMessage::Data(r) => seq![r],
        PipelineMessage::Shutdown => Seq::empty(),
    }
}

/// The records travelling on the producer's channel, in order.
pub open spec fn records_in<T, U>(link: Seq<PipelineMessage<T, U>>) -> Seq<Record<T, U>>
    decreases link.len(),
{
    if link.len() == 0 {
        Seq::empty()
    } else {
        records_of(link[0]) + records_in(link.drop_first())
    }
}

pub open spec fn contents_of<U>(m: BatchModel<U>) -> Seq<U> {
    match m {
        BatchModel::Batch(b) => b,
        BatchModel::Shutdown => Seq::empty(),
    }
}

/// The messages travelling on the disk stage's channel, in order.
pub open spec fn contents<U>(link: Seq<BatchModel<U>>) -> Seq<U>
    decreases link.len(),
{
    if link.len() == 0 {
        Seq::empty()
    } else {
        contents_of(link[0]) + contents(link.drop_first())
    }
}

/// What the disk stage sends downstream after one poll.
pub open spec fn emitted<U>(o: DiskOutcome<U>) -> Seq<BatchModel<U>> {
    let batches = match o.batch {
        Some(b) => seq![BatchModel::Batch(b)],
        None => Seq::empty(),
    };
    if o.finished {
        batches.push(BatchModel::Shutdown)
    } else {
        batches
    }
}

proof fn lemma_records_in_push<T, U>(link: Seq<PipelineMessage<T, U>>, m: PipelineMessage<T, U>)
    ensures
        records_in(link.push(m)) == records_in(link) + records_of(m),
    decreases link.len(),
{
    if link.len() == 0 {
        assert(link.push(m).drop_first() =~= link);
        assert(records_in(link.push(m)) =~= records_of(m));
    } else {
        assert(link.push(m).drop_first() =~= link.drop_first().push(m));
        lemma_records_in_push(link.drop_first(), m);
        assert(records_in(link.push(m)) =~= records_in(link) + records_of(m));
    }
}

proof fn lemma_contents_append<U>(link: Seq<BatchModel<U>>, more: Seq<BatchModel<U>>)
    ensures
        contents(link + more) == contents(link) + contents(more),
    decreases link.len(),
{
    if link.len() == 0 {
        assert(link + more =~= more);
        assert(contents(link + more) =~= contents(link) + contents(more));
    } else {
        assert((link + more).drop_first() =~= link.drop_first() + more);
        lemma_contents_append(link.drop_first(), more);
        assert(contents(link + more) =~= contents(link) + contents(more));
    }
}

proof fn lemma_contents_single<U>(m: BatchModel<U>)
    ensures
        contents(seq![m]) == contents_of(m),
{
    assert(seq![m].drop_first() =~= Seq::<BatchModel<U>>::empty());
    assert(seq![m][0] == m);
    assert(contents(Seq::<BatchModel<U>>::empty()) =~= Seq::<U>::empty());
    assert(contents(seq![m]) =~= contents_of(m));
}

/// The state of the whole pipeline.
pub struct PipelineView<T, U> {
    /// Every record the producer has sent, in order.
    pub generated: Seq<Record<T, U>>,
    pub producer_done: bool,
    /// The channel from the producer to the disk stage.
    pub link_a: Seq<PipelineMessage<T, U>>,
    pub disk: DiskView<T, U>,
    pub disk_done: bool,
    /// The channel from the disk stage to the network stage.
    pub link_b: Seq<BatchModel<U>>,
    /// Every batch the network stage has received, in order.
    pub delivered: Seq<Seq<U>>,
    pub network: NetworkView<U>,
    pub network_done: bool,
    pub disk_delay: u128,
}

impl<T, U> PipelineView<T, U> {
    pub open spec fn initial(disk_delay: u128, msgs_per_interval: usize) -> Self {
        PipelineView {
            generated: Seq::empty(),
            producer_done: false,
            link_a: Seq::empty(),
            disk: DiskView::initial(),
            disk_done: false,
            link_b: Seq::empty(),
            delivered: Seq::empty(),
            network: NetworkView::initial(disk_delay, msgs_per_interval),
            network_done: false,
            disk_delay,
        }
    }

    /// What the disk stage's non-blocking receive finds.
    pub open spec fn disk_event(self) -> Poll<PipelineMessage<T, U>> {
        if self.link_a.len() > 0 {
            Poll::Received(self.link_a[0])
        } else if self.producer_done {
            Poll::Disconnected
        } else {
            Poll::Empty
        }
    }

    /// What the network stage's non-blocking receive finds.
    pub open spec fn network_event(self) -> Poll<BatchModel<U>> {
        if self.link_b.len() > 0 {
            Poll::Received(self.link_b[0])
        } else if self.disk_done {
            Poll::Disconnected
        } else {
            Poll::Empty
        }
    }

    pub open spec fn next(self, e: PipelineEvent<T, U>) -> Self {
        match e {
            PipelineEvent::Produce(r) => if self.producer_done {
                self
            } else {
                PipelineView {
                    generated: self.generated.push(r),
                    link_a: self.link_a.push(PipelineMessage::Data(r)),
                    ..self
                }
            },
            PipelineEvent::EndInput => if self.producer_done {
                self
            } else {
                PipelineView {
                    link_a: self.link_a.push(PipelineMessage::Shutdown),
                    producer_done: true,
                    ..self
                }
            },
            PipelineEvent::DiskPoll(elapsed) => if self.disk_done {
                self
            } else {
                let ev = self.disk_event();
                let o = self.disk.step_outcome(ev, elapsed, self.disk_delay);
                PipelineView {
                    link_a: if self.link_a.len() > 0 {
                        self.link_a.drop_first()
                    } else {
                        self.link_a
                    },
                    disk: self.disk.step(ev, elapsed, self.disk_delay),
                    disk_done: o.finished,
                    link_b: self.link_b + emitted(o),
                    ..self
                }
            },
            PipelineEvent::NetworkPoll(elapsed) => if self.network_done {
                self
            } else {
                let ev = self.network_event();
                let o = self.network.step_outcome(ev, elapsed);
                PipelineView {
                    link_b: if self.link_b.len() > 0 {
                        self.link_b.drop_first()
                    } else {
                        self.link_b
                    },
                    delivered: match ev {
                        Poll::Received(BatchModel::Batch(b)) => self.delivered.push(b),
                        _ => self.delivered,
                    },
                    network: self.network.step(ev, elapsed),
                    network_done: o.finished,
                    ..self
                }
            },
        }
    }

    /// The state after the given events, in order.
    pub open spec fn run(self, events: Seq<PipelineEvent<T, U>>) -> Self
        decreases events.len(),
    {
        if events.len() == 0 {
            self
        } else {
            self.run(events.drop_last()).next(events.last())
        }
    }

    /// How many records the disk stage has taken from its channel.
    pub open spec fn taken(self) -> int {
        self.generated.len() - records_in(self.link_a).len()
    }

    /// Everything that has left the disk stage, in order.
    pub open spec fn forwarded(self) -> Seq<U> {
        self.network.history + self.network.pending() + contents(self.link_b)
    }

    pub open spec fn inv(self) -> bool {
        &&& self.disk.wf()
        &&& self.network.wf()
        &&& records_in(self.link_a).len() <= self.generated.len()
        &&& self.generated.skip(self.taken()) == records_in(self.link_a)
        &&& writes(self.generated.take(self.taken())) == self.disk.store + self.disk.write_buffer
        &&& messages(self.generated.take(self.taken())) == self.forwarded()
            + self.disk.network_buffer
        &&& self.delivered.flatten() == self.network.history + self.network.pending()
        &&& forall|i: int|
            0 <= i < self.link_a.len() && (#[trigger] self.link_a[i]) is Shutdown ==> i
                == self.link_a.len() - 1 && self.producer_done
        &&& self.producer_done ==> self.disk.shutdown || (self.link_a.len() > 0
            && self.link_a.last() is Shutdown)
        &&& self.disk.shutdown ==> self.producer_done && self.link_a.len() == 0
        &&& forall|i: int|
            0 <= i < self.link_b.len() && (#[trigger] self.link_b[i]) is Shutdown ==> i
                == self.link_b.len() - 1 && self.disk_done
        &&& self.disk_done ==> self.network.shutdown || (self.link_b.len() > 0
            && self.link_b.last() is Shutdown)
        &&& self.network.shutdown ==> self.disk_done && self.link_b.len() == 0
        &&& self.disk_done ==> self.disk.shutdown && self.disk.unstable_count == 0
            && self.disk.write_buffer.len() == 0
        &&& self.network_done ==> self.network.done()
    }
    proof fn lemma_produce_inv(self, r: Record<T, U>)
        requires
            self.inv(),
        ensures
            self.next(PipelineEvent::Produce(r)).inv(),
    {
        if !self.producer_done {
            let p = self.next(PipelineEvent::Produce(r));
            lemma_records_in_push(self.link_a, PipelineMessage::Data(r));
            assert(records_of(PipelineMessage::Data(r)) == seq![r]);
            assert(p.taken() == self.taken());
            assert(p.generated.take(p.taken()) =~= self.generated.take(self.taken()));
            assert(p.generated.skip(p.taken()) =~= self.generated.skip(self.taken()).push(r));
            assert forall|i: int|
                0 <= i < p.link_a.len() && (#[trigger] p.link_a[i]) is Shutdown implies i
                    == p.link_a.len() - 1 && p.producer_done by {
                if i < self.link_a.len() {
                    assert(p.link_a[i] == self.link_a[i]);
                }
            }
            assert(records_in(p.link_a).len() <= p.generated.len());
            assert(p.generated.skip(p.taken()) == records_in(p.link_a));
            assert(writes(p.generated.take(p.taken())) == p.disk.store + p.disk.write_buffer);
            assert(p.disk.shutdown ==> p.producer_done && p.link_a.len() == 0);
        }
    }

    proof fn lemma_end_input_inv(self)
        requires
            self.inv(),
        ensures
            self.next(PipelineEvent::EndInput).inv(),
    {
        if !self.producer_done {
            let p = self.next(PipelineEvent::EndInput);
            lemma_records_in_push(self.link_a, PipelineMessage::Shutdown);
            assert(records_in(p.link_a) =~= records_in(self.link_a));
            assert forall|i: int|
                0 <= i < p.link_a.len() && (#[trigger] p.link_a[i]) is Shutdown implies i
                    == p.link_a.len() - 1 && p.producer_done by {
                if i < self.link_a.len() {
                    assert(p.link_a[i] == self.link_a[i]);
                }
            }
        }
    }
    proof fn lemma_disk_poll_inv(self, elapsed: u128)
        requires
            self.inv(),
        ensures
            self.next(PipelineEvent::DiskPoll(elapsed)).inv(),
    {
        if !self.disk_done {
            let p = self.next(PipelineEvent::DiskPoll(elapsed));
            let ev = self.disk_event();
            let a = self.disk.absorb(ev);
            let k = self.taken();
            let g = self.generated;
            // Taking one message from the producer's channel.
            assert(writes(g.take(p.taken())) == a.store + a.write_buffer && messages(
                g.take(p.taken()),
            ) == self.forwarded() + a.network_buffer && g.skip(p.taken()) == records_in(p.link_a)
                && records_in(p.link_a).len() <= g.len()) by {
                if self.link_a.len() > 0 {
                    assert(records_in(self.link_a) == records_of(self.link_a[0]) + records_in(
                        p.link_a,
                    ));
                    match self.link_a[0] {
                        PipelineMessage::Data(r) => {
                            assert(p.taken() == k + 1);
                            assert(g.skip(k)[0] == r);
                            assert(g.take(k + 1) =~= g.take(k).push(r));
                            assert(writes(g.take(k + 1)) =~= writes(g.take(k)).push(r.write_payload));
                            assert(messages(g.take(k + 1)) =~= messages(g.take(k)).push(
                                r.message_payload,
                            ));
                            assert(g.skip(k + 1) =~= g.skip(k).drop_first());
                            assert(a.store + a.write_buffer =~= (self.disk.store
                                + self.disk.write_buffer).push(r.write_payload));
                            assert(self.forwarded() + a.network_buffer =~= (self.forwarded()
                                + self.disk.network_buffer).push(r.message_payload));
                        },
                        PipelineMessage::Shutdown => {
                            assert(records_of(self.link_a[0]) =~= Seq::<Record<T, U>>::empty());
                            assert(records_in(p.link_a) =~= records_in(self.link_a));
                        },
                    }
                }
            }
            assert forall|i: int|
                0 <= i < p.link_a.len() && (#[trigger] p.link_a[i]) is Shutdown implies i
                    == p.link_a.len() - 1 && p.producer_done by {
                assert(p.link_a[i] == self.link_a[i + 1]);
            }
            assert(p.producer_done ==> p.disk.shutdown || (p.link_a.len() > 0
                && p.link_a.last() is Shutdown)) by {
                if self.link_a.len() > 0 && !a.shutdown {
                    assert(self.link_a[0] is Data);
                    if self.producer_done {
                        assert(self.link_a.last() is Shutdown);
                        assert(self.link_a.len() > 1);
                        assert(p.link_a.last() == self.link_a.last());
                    }
                }
            }
            if elapsed >= self.disk_delay {
                let o = self.disk.step_outcome(ev, elapsed, self.disk_delay);
                let u = a.unstable_count as int;
                assert(a.network_buffer =~= a.network_buffer.take(u) + a.network_buffer.skip(u));
                lemma_contents_append(self.link_b, emitted(o));
                if u > 0 {
                    lemma_contents_single(BatchModel::Batch(a.network_buffer.take(u)));
                    assert(o.batch == Some(a.network_buffer.take(u)));
                    if o.finished {
                        assert(emitted(o) =~= seq![BatchModel::Batch(a.network_buffer.take(u))]
                            + seq![BatchModel::<U>::Shutdown]);
                        lemma_contents_append(
                            seq![BatchModel::Batch(a.network_buffer.take(u))],
                            seq![BatchModel::<U>::Shutdown],
                        );
                        lemma_contents_single(BatchModel::<U>::Shutdown);
                    } else {
                        assert(emitted(o) =~= seq![BatchModel::Batch(a.network_buffer.take(u))]);
                    }
                } else {
                    assert(a.network_buffer.take(u) =~= Seq::<U>::empty());
                    if o.finished {
                        lemma_contents_single(BatchModel::<U>::Shutdown);
                        assert(emitted(o) =~= seq![BatchModel::<U>::Shutdown]);
                    } else {
                        assert(emitted(o) =~= Seq::<BatchModel<U>>::empty());
                    }
                }
                assert(contents(p.link_b) =~= contents(self.link_b) + a.network_buffer.take(u));
                assert(p.forwarded() + p.disk.network_buffer =~= self.forwarded()
                    + a.network_buffer);
                assert(p.disk.store + p.disk.write_buffer =~= a.store + a.write_buffer);
                assert forall|i: int|
                    0 <= i < p.link_b.len() && (#[trigger] p.link_b[i]) is Shutdown implies i
                        == p.link_b.len() - 1 && p.disk_done by {
                    if i < self.link_b.len() {
                        assert(p.link_b[i] == self.link_b[i]);
                    } else {
                        assert(p.link_b[i] == emitted(o)[i - self.link_b.len()]);
                    }
                }
                if o.finished {
                    assert(p.link_b.last() == emitted(o).last());
                }
            } else {
                assert(p.disk == a);
            }
        }
    }
    proof fn lemma_network_poll_inv(self, elapsed: u128)
        requires
            self.inv(),
        ensures
            self.next(PipelineEvent::NetworkPoll(elapsed)).inv(),
    {
        if !self.network_done {
            let p = self.next(PipelineEvent::NetworkPoll(elapsed));
            let ev = self.network_event();
            let r = self.network.absorb(ev);
            // Taking one message from the disk stage's channel.
            assert(r.wf() && p.delivered.flatten() == r.history + r.pending() && r.history
                + r.pending() + contents(p.link_b) == self.forwarded()) by {
                if self.link_b.len() > 0 {
                    assert(contents(self.link_b) == contents_of(self.link_b[0]) + contents(
                        p.link_b,
                    ));
                    match self.link_b[0] {
                        BatchModel::Batch(b) => {
                            self.network.queue.lemma_flatten_push(b);
                            self.delivered.lemma_flatten_push(b);
                            assert(r.pending() =~= self.network.pending() + b);
                            assert(r.history + r.pending() + contents(p.link_b) =~= self.forwarded());
                        },
                        BatchModel::Shutdown => {
                            assert(r.history + r.pending() + contents(p.link_b) =~= self.forwarded());
                        },
                    }
                }
            }
            assert(p.disk_done ==> p.network.shutdown || (p.link_b.len() > 0
                && p.link_b.last() is Shutdown)) by {
                if self.link_b.len() > 0 && !r.shutdown {
                    assert(self.link_b[0] is Batch);
                    if self.disk_done {
                        assert(self.link_b.last() is Shutdown);
                        assert(self.link_b.len() > 1);
                        assert(p.link_b.last() == self.link_b.last());
                    }
                }
            }
            assert forall|i: int|
                0 <= i < p.link_b.len() && (#[trigger] p.link_b[i]) is Shutdown implies i
                    == p.link_b.len() - 1 && p.disk_done by {
                assert(p.link_b[i] == self.link_b[i + 1]);
            }
            if !r.done() && elapsed >= r.send_interval && r.can_send() {
                r.lemma_send();
            }
            assert(p.forwarded() == r.history + r.pending() + contents(p.link_b));
        }
    }

    proof fn lemma_next_inv(self, e: PipelineEvent<T, U>)
        requires
            self.inv(),
        ensures
            self.next(e).inv(),
    {
        match e {
            PipelineEvent::Produce(r) => self.lemma_produce_inv(r),
            PipelineEvent::EndInput => self.lemma_end_input_inv(),
            PipelineEvent::DiskPoll(elapsed) => self.lemma_disk_poll_inv(elapsed),
            PipelineEvent::NetworkPoll(elapsed) => self.lemma_network_poll_inv(elapsed),
        }
    }
}

/// Every state the pipeline reaches satisfies its invariant.
proof fn lemma_run_inv<T, U>(disk_delay: u128, msgs_per_interval: usize, events: Seq<PipelineEvent<T, U>>)
    requires
        msgs_per_interval > 0,
        window_of(disk_delay) <= u128::MAX,
    ensures
        PipelineView::initial(disk_delay, msgs_per_interval).run(events).inv(),
    decreases events.len(),
{
    let start = PipelineView::<T, U>::initial(disk_delay, msgs_per_interval);
    if events.len() == 0 {
        lemma_basic_div(msgs_per_interval - 1, msgs_per_interval as int);
        assert(records_in(start.link_a) =~= Seq::<Record<T, U>>::empty());
        assert(contents(start.link_b) =~= Seq::<U>::empty());
        assert(start.network.queue.flatten() =~= Seq::<U>::empty());
        assert(start.delivered.flatten() =~= Seq::<U>::empty());
        assert(start.generated.take(0) =~= Seq::<Record<T, U>>::empty());
        assert(writes(start.generated.take(0)) =~= Seq::<T>::empty());
        assert(messages(start.generated.take(0)) =~= Seq::<U>::empty());
        assert(start.forwarded() + start.disk.network_buffer =~= Seq::<U>::empty());
        assert(start.disk.store + start.disk.write_buffer =~= Seq::<T>::empty());
        assert(start.generated.skip(0) =~= Seq::<Record<T, U>>::empty());
    } else {
        lemma_run_inv(disk_delay, msgs_per_interval, events.drop_last());
        start.run(events.drop_last()).lemma_next_inv(events.last());
    }
}

/// Order is kept across the whole pipeline: in every reachable state the send history
/// is the beginning of the generated messages, in generation order, and once the network
/// stage has finished it is all of them.
pub proof fn lemma_order_preserved<T, U>(
    disk_delay: u128,
    msgs_per_interval: usize,
    events: Seq<PipelineEvent<T, U>>,
)
    requires
        msgs_per_interval > 0,
        window_of(disk_delay) <= u128::MAX,
    ensures
        ({
            let p = PipelineView::initial(disk_delay, msgs_per_interval).run(events);
            &&& p.network.history == messages(p.generated).take(p.network.history.len() as int)
            &&& p.network_done ==> p.network.history == messages(p.generated)
        }),
{
    lemma_run_inv(disk_delay, msgs_per_interval, events);
    let p = PipelineView::<T, U>::initial(disk_delay, msgs_per_interval).run(events);
    let g = p.generated;
    let h = p.network.history;
    assert(g =~= g.take(p.taken()) + g.skip(p.taken()));
    assert(messages(g) =~= messages(g.take(p.taken())) + messages(g.skip(p.taken())));
    assert(messages(g).take(h.len() as int) =~= h);
    if p.network_done {
        assert(p.link_b.len() == 0);
        assert(p.link_a.len() == 0);
        assert(records_in(p.link_a) =~= Seq::<Record<T, U>>::empty());
        assert(contents(p.link_b) =~= Seq::<U>::empty());
        assert(p.network.queue.flatten() =~= Seq::<U>::empty());
        assert(messages(g) =~= h);
    }
}

/// Durability comes before forwarding: in every reachable state, the messages that have
/// left the disk stage are exactly those of the records committed before its latest
/// flush, and the write of every sent record is in the disk store.
pub proof fn lemma_stability_delay<T, U>(
    disk_delay: u128,
    msgs_per_interval: usize,
    events: Seq<PipelineEvent<T, U>>,
)
    requires
        msgs_per_interval > 0,
        window_of(disk_delay) <= u128::MAX,
    ensures
        ({
            let p = PipelineView::initial(disk_delay, msgs_per_interval).run(events);
            let h = p.network.history.len() as int;
            &&& p.forwarded().len() + p.disk.unstable_count == p.disk.store.len()
            &&& p.forwarded() == messages(p.generated.take(p.forwarded().len() as int))
            &&& p.disk.store.take(p.forwarded().len() as int) == writes(
                p.generated.take(p.forwarded().len() as int),
            )
            &&& h <= p.forwarded().len()
            &&& p.disk.store.take(h) == writes(p.generated.take(h))
        }),
{
    lemma_run_inv(disk_delay, msgs_per_interval, events);
    let p = PipelineView::<T, U>::initial(disk_delay, msgs_per_interval).run(events);
    let g = p.generated;
    let k = p.taken();
    let f = p.forwarded().len() as int;
    let h = p.network.history.len() as int;
    assert(messages(g.take(k)).len() == k);
    assert(writes(g.take(k)).len() == k);
    assert(g.take(k).take(f) =~= g.take(f));
    assert(g.take(k).take(h) =~= g.take(h));
    assert(p.forwarded() =~= messages(g.take(k)).take(f));
    assert(messages(g.take(k)).take(f) =~= messages(g.take(f)));
    assert(p.disk.store.take(f) =~= writes(g.take(k)).take(f));
    assert(writes(g.take(k)).take(f) =~= writes(g.take(f)));
    assert(p.disk.store.take(h) =~= writes(g.take(k)).take(h));
    assert(writes(g.take(k)).take(h) =~= writes(g.take(h)));
}

/// Nothing is lost or duplicated: once the network stage has seen the disk stage's
/// `Shutdown`, the batches it received, laid end to end, are exactly the generated
/// messages, so their lengths add up to the number of records generated.
pub proof fn lemma_no_loss<T, U>(
    disk_delay: u128,
    msgs_per_interval: usize,
    events: Seq<PipelineEvent<T, U>>,
)
    requires
        msgs_per_interval > 0,
        window_of(disk_delay) <= u128::MAX,
    ensures
        ({
            let p = PipelineView::initial(disk_delay, msgs_per_interval).run(events);
            p.network.shutdown ==> p.delivered.flatten() == messages(p.generated)
                && p.delivered.flatten().len() == p.generated.len()
        }),
{
    lemma_run_inv(disk_delay, msgs_per_interval, events);
    let p = PipelineView::<T, U>::initial(disk_delay, msgs_per_interval).run(events);
    if p.network.shutdown {
        assert(records_in(p.link_a) =~= Seq::<Record<T, U>>::empty());
        assert(contents(p.link_b) =~= Seq::<U>::empty());
        assert(p.generated.take(p.taken()) =~= p.generated);
        assert(p.delivered.flatten() =~= messages(p.generated));
    }
}

/// The disk stage finishes only when no write is left unconfirmed: every generated
/// record's write is then in the disk store.
pub proof fn lemma_disk_finishes_committed<T, U>(
    disk_delay: u128,
    msgs_per_interval: usize,
    events: Seq<PipelineEvent<T, U>>,
)
    requires
        msgs_per_interval > 0,
        window_of(disk_delay) <= u128::MAX,
    ensures
        ({
            let p = PipelineView::initial(disk_delay, msgs_per_interval).run(events);
            p.disk_done ==> p.disk.unstable_count == 0 && p.disk.write_buffer.len() == 0
                && p.disk.store == writes(p.generated)
        }),
{
    lemma_run_inv(disk_delay, msgs_per_interval, events);
    let p = PipelineView::<T, U>::initial(disk_delay, msgs_per_interval).run(events);
    if p.disk_done {
        assert(records_in(p.link_a) =~= Seq::<Record<T, U>>::empty());
        assert(p.generated.take(p.taken()) =~= p.generated);
        assert(p.disk.store =~= p.disk.store + p.disk.write_buffer);
    }
}

/// The network stage finishes only when its queue and its batch in progress are both
/// empty, after the disk stage has finished and its channel has drained.
pub proof fn lemma_network_finishes_drained<T, U>(
    disk_delay: u128,
    msgs_per_interval: usize,
    events: Seq<PipelineEvent<T, U>>,
)
    requires
        msgs_per_interval > 0,
        window_of(disk_delay) <= u128::MAX,
    ensures
        ({
            let p = PipelineView::initial(disk_delay, msgs_per_interval).run(events);
            p.network_done ==> p.network.queue.len() == 0 && p.network.current.len() == 0
                && p.disk_done && p.link_b.len() == 0
        }),
{
    lemma_run_inv(disk_delay, msgs_per_interval, events);
}

/// The send history does not depend on the clock: two runs that generate the same records
/// and run to completion send them in the same order, whatever the times at which their
/// stages polled.
pub proof fn lemma_history_independent_of_timing<T, U>(
    disk_delay: u128,
    msgs_per_interval: usize,
    events1: Seq<PipelineEvent<T, U>>,
    events2: Seq<PipelineEvent<T, U>>,
)
    requires
        msgs_per_interval > 0,
        window_of(disk_delay) <= u128::MAX,
        PipelineView::initial(disk_delay, msgs_per_interval).run(events1).network_done,
        PipelineView::initial(disk_delay, msgs_per_interval).run(events2).network_done,
        PipelineView::initial(disk_delay, msgs_per_interval).run(events1).generated
            == PipelineView::initial(disk_delay, msgs_per_interval).run(events2).generated,
    ensures
        PipelineView::<T, U>::initial(disk_delay, msgs_per_interval).run(events1).network.history
            == PipelineView::<T, U>::initial(disk_delay, msgs_per_interval).run(
            events2,
        ).network.history,
{
    lemma_order_preserved(disk_delay, msgs_per_interval, events1);
    lemma_order_preserved(disk_delay, msgs_per_interval, events2);
}

} // verus!
