//! The attributes of an entry as the kernel is told them.

use crate::protocol::{FileKind, Meta, Stamp};
use vstd::prelude::*;

verus! {

/// The attributes of an entry.
#[derive(Clone, Copy, PartialEq, Eq, Structural, Debug)]
pub struct FileAttr {
    pub ino: u64,
    pub size: u64,
    pub blocks: u64,
    pub atime: Stamp,
    pub mtime: Stamp,
    /// Seconds since the epoch.
    pub ctime: u64,
    pub kind: FileKind,
    pub perm: u16,
    pub nlink: u32,
    pub uid: u32,
    pub gid: u32,
    pub rdev: u32,
    pub blksize: u32,
    pub flags: u32,
}

impl FileAttr {
    /// The attributes that an inode number and metadata make. Numbers that are too wide
    /// lose their upper bits, and a time of change before the epoch becomes the epoch.
    pub open spec fn of(ino: u64, meta: Meta) -> FileAttr {
        FileAttr {
            ino,
            size: meta.size,
            blocks: meta.blocks,
            atime: meta.atime,
            mtime: meta.mtime,
            ctime: if meta.ctime >= 0 {
                meta.ctime as u64
            } else {
                0
            },
            kind: meta.kind,
            perm: meta.mode as u16,
            nlink: meta.nlink as u32,
            uid: meta.uid,
            gid: meta.gid,
            rdev: meta.rdev as u32,
            blksize: meta.blksize as u32,
            flags: 0,
        }
    }
}

/// The attributes tell what the metadata says: type, length, blocks, times, owner, and of the
/// permissions, the links, the device number and the block size all that fits.
pub open spec fn tells(attr: FileAttr, meta: Meta) -> bool {
    &&& attr.kind == meta.kind
    &&& attr.size == meta.size
    &&& attr.blocks == meta.blocks
    &&& attr.atime == meta.atime
    &&& attr.mtime == meta.mtime
    &&& meta.ctime >= 0 ==> attr.ctime == meta.ctime
    &&& meta.ctime < 0 ==> attr.ctime == 0
    &&& attr.perm & 0o7777 == meta.mode & 0o7777
    &&& meta.mode <= u16::MAX ==> attr.perm == meta.mode
    &&& meta.nlink <= u32::MAX ==> attr.nlink == meta.nlink
    &&& meta.rdev <= u32::MAX ==> attr.rdev == meta.rdev
    &&& meta.blksize <= u32::MAX ==> attr.blksize == meta.blksize
    &&& attr.uid == meta.uid
    &&& attr.gid == meta.gid
    &&& attr.flags == 0
}

/// The attributes of an entry tell its number and its metadata, and nothing else.
pub proof fn law_attributes(ino: u64, meta: Meta)
    ensures
        FileAttr::of(ino, meta).ino == ino,
        tells(FileAttr::of(ino, meta), meta),
{
    let mode = meta.mode;
    assert((mode as u16) & 0o7777 == mode & 0o7777) by (bit_vector);
}

/// The attributes that an inode number and metadata make.
pub fn make_attr(ino: u64, meta: Meta) -> (r: FileAttr)
    ensures
        r == FileAttr::of(ino, meta),
{
    FileAttr {
        ino,
        size: meta.size,
        blocks: meta.blocks,
        atime: meta.atime,
        mtime: meta.mtime,
        ctime: if meta.ctime >= 0 {
            meta.ctime as u64
        } else {
            0
        },
        kind: meta.kind,
        perm: #[verifier::truncate] (meta.mode as u16),
        nlink: #[verifier::truncate] (meta.nlink as u32),
        uid: meta.uid,
        gid: meta.gid,
        rdev: #[verifier::truncate] (meta.rdev as u32),
        blksize: #[verifier::truncate] (meta.blksize as u32),
        flags: 0,
    }
}

/// What a type is found to be, test by test.
#[derive(Clone, Copy, PartialEq, Eq, Structural, Debug)]
pub struct KindTests {
    pub is_dir: bool,
    pub is_symlink: bool,
    pub is_fifo: bool,
    pub is_socket: bool,
    pub is_char_device: bool,
    pub is_block_device: bool,
}

impl KindTests {
    /// The type of which these are the tests; one that meets none is a regular file.
    pub open spec fn names(self) -> FileKind {
        if self.is_dir {
            FileKind::Directory
        } else if self.is_symlink {
            FileKind::Symlink
        } else if self.is_fifo {
            FileKind::NamedPipe
        } else if self.is_socket {
            FileKind::Socket
        } else if self.is_char_device {
            FileKind::CharDevice
        } else if self.is_block_device {
            FileKind::BlockDevice
        } else {
            FileKind::RegularFile
        }
    }

    /// The type of which these are the tests.
    pub fn kind(&self) -> (r: FileKind)
        ensures
            r == self.names(),
    {
        if self.is_dir {
            FileKind::Directory
        } else if self.is_symlink {
            FileKind::Symlink
        } else if self.is_fifo {
            FileKind::NamedPipe
        } else if self.is_socket {
            FileKind::Socket
        } else if self.is_char_device {
            FileKind::CharDevice
        } else if self.is_block_device {
            FileKind::BlockDevice
        } else {
            FileKind::RegularFile
        }
    }
}

/// The type of a listed entry; one that could not be read counts as a regular file.
pub open spec fn listed_kind(kind: Result<FileKind, i32>) -> FileKind {
    match kind {
        Ok(k) => k,
        Err(_) => FileKind::RegularFile,
    }
}

/// The type of a listed entry.
pub fn entry_file_type(kind: &Result<FileKind, i32>) -> (r: FileKind)
    ensures
        r == listed_kind(*kind),
{
    match kind {
        Ok(k) => *k,
        Err(_) => FileKind::RegularFile,
    }
}

/// A type is told only if its own test is met, and that of a file only if no test is. Of
/// types that are told apart by one test each, the one that is met is told.
pub proof fn law_type_by_tests(t: KindTests)
    ensures
        t.names() is Directory ==> t.is_dir,
        t.names() is Symlink ==> t.is_symlink,
        t.names() is NamedPipe ==> t.is_fifo,
        t.names() is Socket ==> t.is_socket,
        t.names() is CharDevice ==> t.is_char_device,
        t.names() is BlockDevice ==> t.is_block_device,
        t.names() is RegularFile <==> !(t.is_dir || t.is_symlink || t.is_fifo || t.is_socket
            || t.is_char_device || t.is_block_device),
        t.is_dir ==> t.names() is Directory,
        t.is_symlink && !t.is_dir ==> t.names() is Symlink,
{
}

/// An entry is listed with the type that was read; one whose type could not be read is listed
/// as a file.
pub proof fn law_listed_type(kind: FileKind, code: i32)
    ensures
        listed_kind(Ok(kind)) == kind,
        listed_kind(Err(code)) is RegularFile,
{
}

} // verus!
