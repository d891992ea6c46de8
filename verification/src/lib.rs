//! Frequency-hopping sequencer core: the sequence data model, the byte ring and
//! framed serial link that deliver it, and the playback state machine.

pub mod alignment;
pub mod comm;
pub mod comm_messages;
pub mod orders;
pub mod planning;
pub mod sequence;
pub mod sequencer;
pub mod uplink;
pub mod util;
