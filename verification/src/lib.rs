//! An overlay filesystem: a writable upper layer stacked over a read-only lower one.

pub mod attr;
pub mod commit;
pub mod digest;
pub mod errno;
pub mod file_ops;
pub mod files;
pub mod filter;
pub mod fuse_ops;
pub mod inode;
pub mod laws;
pub mod layers;
pub mod listing;
pub mod model;
pub mod overlay;
pub mod path;
pub mod protocol;
pub mod text;
pub mod tree;
pub mod walk;
pub mod xattr;
