//! Incremental decoder for the RIFF/AVI container format.
//!
//! The `parser` module holds pure decoders from byte windows to structured
//! records; the `state` module holds the resumable driver that sequences
//! them, tracks nested list boundaries and classifies streams.

pub mod parser;
pub mod state;
