//! The error codes of the Linux system interface that operations answer with.

use vstd::prelude::*;

verus! {

/// No such file or directory.
pub const ENOENT: i32 = 2;

/// Input or output failed.
pub const EIO: i32 = 5;

/// Permission denied.
pub const EACCES: i32 = 13;

/// The entry exists already.
pub const EEXIST: i32 = 17;

/// The entry is a directory.
pub const EISDIR: i32 = 21;

/// Invalid argument.
pub const EINVAL: i32 = 22;

/// The result does not fit.
pub const ERANGE: i32 = 34;

/// The directory is not empty.
pub const ENOTEMPTY: i32 = 39;

/// There is no such attribute.
pub const ENODATA: i32 = 61;

/// The operation is not supported.
pub const ENOTSUP: i32 = 95;

} // verus!
