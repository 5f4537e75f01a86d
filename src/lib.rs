//! A three-stage data pipeline (producer, disk writer, network sender),
//! modelled as verified state machines driven by a poll loop.

pub mod args;
pub mod clock;
pub mod disk;
pub mod message;
pub mod network;
pub mod pipeline;
