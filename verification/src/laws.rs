//! What the operations bring about, stated over a model of the disk.

pub mod attributes;
pub mod committing;
pub mod content;
pub mod directories;
pub mod entries;
pub mod layering;
pub mod lifecycle;
pub mod merging;
pub mod moving;
pub mod ranges;
pub mod replaying;
