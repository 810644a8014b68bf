//! A DNS message engine: the wire codec for headers, names, questions and
//! answers, and the decisions of a minimal forwarding resolver.
//!
//! Every function states what it computes over mathematical models of the
//! data: byte sequences, label sequences and the views of the message types.

pub mod error;
pub mod parser;
pub mod resolver;
pub mod roundtrip;
pub mod trusted;
pub mod types;
pub mod wire;
