//! A publish/subscribe broker core: the binary wire codec, packet framing,
//! the in-memory channel engine with consumer groups, and the decisions of
//! the client and broker connection handlers.

pub mod codec;
pub mod messages;
pub mod packet;
pub mod waker;
pub mod storage;
pub mod channel;
pub mod sleep;
pub mod registry;
pub mod broker;
pub mod demux;
pub mod queue;
