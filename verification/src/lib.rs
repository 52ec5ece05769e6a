//! Multi-variant build pipeline and fat-binary runtime dispatch.
//!
//! The library covers the logic of a build driver that compiles one binary
//! per CPU feature set, deduplicates identical outputs, packs the variants
//! into a single fat binary (a compressed fallback plus binary deltas), and
//! at program start picks the variant best suited to the host CPU.

pub mod codec;
pub mod config;
pub mod dispatch;
pub mod driver;
pub mod features;
pub mod launcher;
pub mod manifest;
pub mod order;
pub mod pack;
pub mod rank;
pub mod rustc_queries;
pub mod text;
