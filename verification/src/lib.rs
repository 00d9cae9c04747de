//! A small tape machine: eight instructions over a fixed tape of bytes,
//! a decoder for its source text, three rewriting stages and an engine.

pub mod brackets;
pub mod decode;
pub mod dump;
pub mod engine;
pub mod equivalence;
pub mod op;
pub mod rle;
pub mod zero;
