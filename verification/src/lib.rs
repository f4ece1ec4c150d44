//! Client-side core for the OPeNDAP (DAP2) wire format: parsers for the DDS
//! and DAS textual descriptors, a decoder for the binary DODS payload, and
//! coordinate-aware constraint and URL builders.
//!
//! Floating-point data is carried as IEEE-754 bit patterns (`u32`/`u64`), so
//! that every byte-level decoding step has an exact integer meaning; callers
//! that want `f32`/`f64` values reinterpret the bits.

pub mod das;
pub mod data;
pub mod dds;
pub mod dods;
pub mod errors;
pub mod lemmas;
pub mod query;
pub mod text;
pub mod url;
pub mod url_builder;
