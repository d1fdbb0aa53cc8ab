//! An RFC1035 DNS message codec.
//!
//! The crate turns a domain-name query into the exact byte layout that the
//! protocol fixes on the wire, and decodes the same entities back out of a
//! byte buffer: the fixed 12-byte header, one question entry, and one
//! resource record.  Transport (sockets, timeouts, retries) is left to the
//! caller, which hands the codec plain byte buffers.

pub mod decode;
pub mod dns;
pub mod encode;
pub mod types;
pub mod wire;
