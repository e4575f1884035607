//! Periodic collection of one asset's venue listings into per-series CSV files: the
//! encodings written to disk, the file operations of each fetch cycle, and the laws
//! those operations obey over a model of the file system.

pub mod cycle;
pub mod encode;
pub mod record;
pub mod stamp;
pub mod store;
