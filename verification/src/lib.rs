//! Runtime core of a modular, graph-programmable audio synthesizer.
//!
//! The crate covers the three parts of the engine that carry real logic:
//! the control/automation value model that feeds typed parameters into
//! compiled code, the voice tracker with its per-buffer bookkeeping, and
//! the binary patch format with its two-pass, validating restore.
//! Floating-point samples are carried as IEEE 754 bit patterns (`u32`),
//! and musical time is kept in exact integer units, so every decision the
//! engine makes is over plain values.

pub mod bytes;
pub mod codec;
pub mod codegen;
pub mod graph;
pub mod notes;
pub mod patch;
pub mod perf;
pub mod persist;
pub mod saved;
pub mod timing;
