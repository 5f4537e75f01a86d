//! The values that travel between the stages.

use vstd::prelude::*;

verus! {

/// One generated event: the part that is persisted and the part that is sent.
#[derive(Clone, Debug)]
pub struct Record<T, U> {
    pub write_payload: T,
    pub message_payload: U,
}

/// What the producer sends to the disk stage.
#[derive(Clone, Debug)]
pub enum PipelineMessage<T, U> {
    Data(Record<T, U>),
    Shutdown,
}

/// The write payloads of `rs`, in order.
pub open spec fn writes<T, U>(rs: Seq<Record<T, U>>) -> Seq<T> {
    rs.map_values(|r: Record<T, U>| r.write_payload)
}

/// The message payloads of `rs`, in order.
pub open spec fn messages<T, U>(rs: Seq<Record<T, U>>) -> Seq<U> {
    rs.map_values(|r: Record<T, U>| r.message_payload)
}

/// What a stage found when it looked at its input channel without blocking.
pub enum Poll<M> {
    Received(M),
    Empty,
    Disconnected,
}

/// What the disk stage sends to the network stage.
#[derive(Clone, Debug)]
pub enum BatchMessage<U> {
    Batch(Vec<U>),
    Shutdown,
}

/// A `BatchMessage` with its batch seen as a sequence.
pub enum BatchModel<U> {
    Batch(Seq<U>),
    Shutdown,
}

impl<U> View for BatchMessage<U> {
    type V = BatchModel<U>;

    open spec fn view(&self) -> BatchModel<U> {
        match self {
            BatchMessage::Batch(b) => BatchModel::Batch(b@),
            BatchMessage::Shutdown => BatchModel::Shutdown,
        }
    }
}

/// What the network stage found on its input channel, with any batch seen as a sequence.
pub open spec fn batch_poll_view<U>(p: Poll<BatchMessage<U>>) -> Poll<BatchModel<U>> {
    match p {
        Poll::Received(m) => Poll::Received(m@),
        Poll::Empty => Poll::Empty,
        Poll::Disconnected => Poll::Disconnected,
    }
}

/// Builds the message that carries one timestamped record: both payloads hold the timestamp.
pub fn producer(timestamp: u128) -> (m: PipelineMessage<u128, u128>)
    ensures
        m == PipelineMessage::Data(Record { write_payload: timestamp, message_payload: timestamp }),
{
    PipelineMessage::Data(Record { write_payload: timestamp, message_payload: timestamp })
}

} // verus!
