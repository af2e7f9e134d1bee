//! A two-phase engine for a small esoteric language: a builder scans source
//! text into a tagged instruction sequence with a jump table, and an
//! interpreter executes the sequence against a fixed 512-cell byte tape,
//! accumulating a character output stream.

pub mod builder;
pub mod interp;
pub mod ir;
pub mod laws;
