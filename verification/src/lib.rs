//! Reconstruction of a complete instruction enumeration from a sparse
//! fuzzer log.
//!
//! The fuzzer walks a bounded space of variable-length instruction byte
//! sequences in a fixed odometer-like order and logs only the interesting
//! entries.  This library recovers logged entries from their textual form,
//! replays the enumeration order between two logged waypoints, and fills
//! the gaps so that downstream analysis sees the complete dense sequence.

pub mod instruction;
pub mod parser;
pub mod utils;
