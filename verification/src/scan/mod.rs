//! The planning of scans: which row ranges to read, and which rows of each.

pub mod laws;
pub mod repeated_scan;
pub mod selection;
pub mod treemap;
