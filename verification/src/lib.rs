//! A locality-preserving spatial point store.
//!
//! Fixed-size spatial records are given Hilbert-curve keys, reordered so that
//! spatially nearby records are also nearby on disk, and persisted into a
//! directly memory-mappable file of fixed-stride records.

pub mod codec;
pub mod errors;
pub mod order;
pub mod pipeline;
pub mod point;
pub mod record_file;
pub mod region;
pub mod store;
pub mod wire;
