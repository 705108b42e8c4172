//! Core of a non-blocking HTTP reverse proxy: flip buffers, an incremental
//! request-head parser, a token-indexed connection table and the event
//! routing that ties them together. Socket and event-loop plumbing lives
//! outside this crate; everything here is plain data and verified logic.

pub mod buffer;
pub mod connection;
pub mod http;
pub mod parser;
pub mod server;
pub mod token;
