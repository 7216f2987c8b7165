//! The matching and buffering core of a streaming markup rewriter: a
//! selector-matching machine over a flat instruction table, and a stream
//! front end that carries unresolved token tails across writes.

pub mod payload;
pub mod program;
pub mod buffer;
pub mod transform_stream;
pub mod matching;
