//! The snapshot file of an exact index, version 3.

pub mod format;
pub mod migrate;
pub mod reader;
pub mod writer;
