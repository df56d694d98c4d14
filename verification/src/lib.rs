//! A SHA-256 message digest for small targets, with its behaviour proved against the
//! FIPS 180-4 definition of SHA-256.
//!
//! `spec` holds the mathematical definition; `bytes` the big-endian conversions;
//! the block buffer and the compression engine are internal; `digest` holds the `Digest`
//! interface, the `Sha256` digest and the laws that relate its operations.

pub mod spec;
pub mod bytes;
mod buffer;
mod engine;
mod lemmas;
pub mod digest;

pub use digest::{Digest, Sha256, Sha256Model};
