//! Reader for the GtkWave FST (Fast Signal Trace) waveform file format.
//!
//! The library parses an in-memory FST image into an index (header, design
//! hierarchy, per-variable geometry, value-change block directory) and decodes
//! any single variable's full timeline of value changes on demand.

pub mod bytes;
pub mod compress;
pub mod error;
pub mod fst;
pub mod geometry;
pub mod header;
pub mod hierarchy;
pub mod text;
pub mod valvec;
pub mod varint;
pub mod vcblock;
pub mod wave;
