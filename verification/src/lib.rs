//! Cross-references citation keys used in a document source against keys
//! declared in a bibliography, reporting each citation that lacks a matching
//! bibliography entry together with the closest declared key by edit distance.
//!
//! The library is pure computation over in-memory lines and key collections:
//! extraction of citation keys from document lines, extraction of entry keys
//! from bibliography lines, set difference between the two collections, and a
//! nearest-key lookup by edit distance for every unmatched citation. File
//! reading and console output belong to the surrounding binary.

pub mod distance;
pub mod extract;
pub mod files;
pub mod reconcile;
pub mod text;
