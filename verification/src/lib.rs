//! A multi-tenant message receiving and routing core.
//!
//! A listener accepts connections from many peers; each peer speaks a
//! length-delimited binary protocol, and each inbound message carries a tenant
//! identifier that selects which registered handler processes it. This crate
//! holds the verified core of that layer:
//!
//! - [`codec`]: the envelope format — an 8-byte big-endian tenant identifier
//!   followed by the payload bytes.
//! - [`framing`]: the frame format — a 4-byte big-endian length prefix
//!   followed by that many payload bytes.
//! - [`routing`]: the routing table mapping tenant identifiers to handlers.
//! - [`runner`]: the per-connection processing step and its sequential trace.
//! - [`policy`]: the disposition of each failure condition.
//!
//! The network transport itself (binding, accepting, reading and writing
//! sockets) is not part of this crate's logic; callers drive it and hand the
//! raw frame bytes to the functions here.

pub mod codec;
pub mod framing;
pub mod routing;
pub mod policy;
pub mod runner;
