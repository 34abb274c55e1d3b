//! A verified client transport for a language-analysis server.
//!
//! The library speaks JSON-RPC 2.0 over a length-prefixed byte stream:
//! it frames and serialises outbound messages, parses and classifies
//! inbound ones, correlates responses with outstanding requests, and
//! drives the client lifecycle (start, handshake, stop).  All I/O is
//! left to the embedding application, which hands the library plain
//! bytes and executes the commands it plans.

pub mod bytes;
pub mod client;
pub mod codec;
pub mod compiler;
pub mod graph;
pub mod json;
pub mod lifecycle;
pub mod log_parser;
pub mod message;
pub mod params;
pub mod texlab;
pub mod vcs;
