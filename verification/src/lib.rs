//! DNS message codec: bit-exact header handling, domain names with pointer
//! decompression, questions and answers, and the response-building rules of a
//! small forwarding resolver.

pub mod dots;
pub mod hops;
pub mod input;
pub mod message;
pub mod offsets;
pub mod output;
pub mod parser;
pub mod plain;
pub mod resolver;
pub mod roundtrip;
pub mod transport;
pub mod writer;
