//! Batch optimization of asset files in place: discovery and classification
//! of the files to optimize, the per-file atomic replace transaction, and the
//! per-category statistics that the workers fill.

pub mod args;
pub mod display;
pub mod select;
pub mod stats;
pub mod transaction;
