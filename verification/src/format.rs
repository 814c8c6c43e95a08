//! The on-disk container format.

pub mod header;
