//! Canonical, address-ordered symbol tables for one binary module.
//!
//! The crate reconciles symbols discovered by debug-info parsing with
//! synthetic placeholder symbols for executable code regions that carry no
//! debug information, renumbers per-compilation-unit identifier spaces into a
//! module-wide namespace, and renders each record in the text format consumed
//! by crash-symbolication tooling.

pub mod hex;
pub mod lines;
pub mod symbol;
pub mod synth;
pub mod table;
