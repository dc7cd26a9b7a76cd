//! Duplicate-file detection: size grouping, content fingerprints, full
//! content digests and the state that the viewer keeps about a run.

pub mod types;
pub mod group;
pub mod text;
pub mod paths;
pub mod digest;
pub mod hash;
pub mod cache;
pub mod fingerprint;
pub mod scan;
pub mod pipeline;
pub mod ui;
