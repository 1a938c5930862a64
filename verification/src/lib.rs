//! A bare HTTP/1.1 protocol engine: request parsing from bytes, a
//! path-segment routing trie with parameter capture, response
//! serialisation, and the per-connection dispatch decisions.
//!
//! Everything here works on plain values; sockets and tasks belong to
//! the embedding program.
pub mod http;
