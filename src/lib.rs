//! Decision core of a TCP fan-out relay.
//!
//! One upstream source is read; every chunk read from it is copied, whole and
//! in order, to every downstream client that was connected before the chunk
//! arrived. The network work itself (connecting, accepting, reading, writing)
//! is done by the caller; this crate decides what happens next and keeps the
//! set of live clients, with a model of what each of them has been sent.

mod registry;
mod relay;
mod transfer;

pub use registry::{
    ascending, dropped, kept, lemma_kept, lemma_late_join_skips_earlier_bytes,
    lemma_round_arrives_whole, lemma_sink_gets_rounds_since_join, SinkRegistry,
};
pub use relay::{round_ended, Action, Event, Phase, Relay};
pub use transfer::{SinkWrite, WriteOutcome, WriteStatus};
