//! A cursor over a growable byte buffer that reads and writes fixed-width
//! integers in both byte orders, and LEB128-style variable-length integers
//! with optional ZigZag sign folding.

pub mod binary;
pub mod codec;
pub mod laws;
