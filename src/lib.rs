//! A verified model of the host/runtime boundary of a block-producing node:
//! a transactional storage overlay, the commit policy of the call-boundary
//! client, the header digest log and its scanning, the per-block execution
//! state machine, and the runtime's version descriptor.

pub mod overlay;
pub mod client;
pub mod codec;
pub mod digest;
pub mod grandpa;
pub mod storage;
pub mod executive;
pub mod version;
pub mod session;
