//! A Generic Netlink client core: attribute and message codecs, frame
//! classification, family-name resolution and dump aggregation, all over
//! plain byte buffers. The socket itself is left to the caller, which sends
//! the buffers built here and hands back the buffers it receives.

pub mod attr;
pub mod engine;
pub mod error;
pub mod family;
pub mod frame;
pub mod wire;
