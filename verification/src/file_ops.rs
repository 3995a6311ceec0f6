//! The operations on the content of a file.

use crate::errno::{EACCES, EINVAL, EIO, ENOENT};
use crate::fuse_ops::{
    FsStat, OverlayOps, O_ACCMODE, O_RDWR, O_TRUNC, O_WRONLY, SEEK_CUR, SEEK_END, SEEK_SET, X_OK,
};
use crate::layers::{LayerManager, Place};
use crate::path::{copy_range, FsPath};
use crate::protocol::{
    Action, Answer, FileKind, Flow, Layer, Load, Loaded, Meta, Reply, Space, Spot, Stop, Tape,
    Which, World,
};
use vstd::prelude::*;

verus! {

impl OverlayOps {
    /// The open flags ask to write.
    pub open spec fn wants_write(flags: i32) -> bool {
        flags & O_ACCMODE == O_WRONLY || flags & O_ACCMODE == O_RDWR
    }

    /// Opens the first entry for writing: it is brought up, and emptied if that is asked.
    pub open spec fn opening(place: Place, flags: i32, w: World) -> Flow<()> {
        LayerManager::promoting(place, Which::First, w).bind(
            |u: (), w: World|
                if flags & O_TRUNC != 0 {
                    Action::Truncate(Spot::upper(Which::First)).run(w)
                } else {
                    Flow::Got((), w)
                },
        )
    }

    /// Opens a file. Only a file opened for writing is brought up.
    pub fn open(&self, t: &mut Tape, ino: u64, flags: i32) -> (r: Result<(), Stop>)
        ensures
            final(t).flow(r) == if Self::wants_write(flags) {
                self.from_path(
                    ino,
                    old(t).world(),
                    |path: Seq<u8>, w: World|
                        Self::opening(LayerManager::place(path), flags, w),
                )
            } else {
                Flow::Got((), old(t).world())
            },
            crate::protocol::spares_lower(r),
    {
        let access: i32 = flags & O_ACCMODE;
        if access == O_WRONLY || access == O_RDWR {
            let path = self.path(ino)?;
            self.layers.copy_on_write(t, &path, Which::First)?;
            if flags & O_TRUNC != 0 {
                t.run(Action::Truncate(Spot::upper(Which::First)))?;
            }
        }
        Ok(())
    }

    /// Reads from the entry that is found under the first path. At or behind the end there
    /// is nothing to read, and the file is not opened.
    pub open spec fn reading(place: Place, offset: u64, size: u32, w: World) -> Flow<Seq<u8>> {
        LayerManager::resolving(place, Which::First, w).bind(
            |at: Option<Layer>, w: World|
                match at {
                    None => Flow::Fail(ENOENT, w),
                    Some(layer) => Self::reading_at(Spot::entry(layer, Which::First), offset, size, w),
                },
        )
    }

    /// Reads from an entry.
    pub open spec fn reading_at(s: Spot, offset: u64, size: u32, w: World) -> Flow<Seq<u8>> {
        Action::Stat(s).probe(w).bind(
            |m: Option<Meta>, w: World|
                if m matches Some(meta) && offset >= meta.size {
                    Flow::Got(Seq::empty(), w)
                } else {
                    Action::OpenRead(s).run(w).bind(
                        |u: (), w: World|
                            Action::SeekTo(offset).run(w).bind(
                                |u: (), w: World| Action::ReadSome(size).data(w),
                            ),
                    )
                },
        )
    }

    fn read_at(&self, t: &mut Tape, s: Spot, offset: u64, size: u32) -> (r: Result<Vec<u8>, Stop>)
        ensures
            match r {
                Ok(b) => Self::reading_at(s, offset, size, old(t).world()) == Flow::Got(
                    b@,
                    final(t).world(),
                ),
                Err(e) => Self::reading_at(s, offset, size, old(t).world()) == e.flow::<Seq<u8>>(
                    final(t).world(),
                ),
            },
            crate::protocol::spares_lower(r),
    {
        if let Some(meta) = t.probe(Action::Stat(s))? {
            if offset >= meta.size {
                let none: Vec<u8> = Vec::new();
                assert(none@ =~= Seq::<u8>::empty());
                return Ok(none);
            }
        }
        t.run(Action::OpenRead(s))?;
        t.run(Action::SeekTo(offset))?;
        let read = t.data(Action::ReadSome(size))?;
        let data = copy_range(read.as_slice(), 0, read.len());
        assert(data@ =~= read@);
        Ok(data)
    }

    /// Reads from a file.
    pub fn read(&self, t: &mut Tape, ino: u64, offset: u64, size: u32) -> (r: Result<Vec<u8>, Stop>)
        ensures
            ({
                let flow = self.from_path(
                    ino,
                    old(t).world(),
                    |path: Seq<u8>, w: World|
                        Self::reading(LayerManager::place(path), offset, size, w),
                );
                match r {
                    Ok(b) => flow == Flow::Got(b@, final(t).world()),
                    Err(s) => flow == s.flow::<Seq<u8>>(final(t).world()),
                }
            }),
            crate::protocol::spares_lower(r),
    {
        let path = self.path(ino)?;
        match self.layers.resolve(t, &path, Which::First)? {
            None => Err(Stop::Fail(ENOENT)),
            Some(layer) => self.read_at(t, Spot::entry(layer, Which::First), offset, size),
        }
    }

    /// Writes to the first entry, which is brought up. The number of bytes written loses
    /// what does not fit in 32 bits.
    pub open spec fn writing(place: Place, offset: u64, w: World) -> Flow<u32> {
        LayerManager::promoting(place, Which::First, w).bind(
            |u: (), w: World|
                Action::OpenWrite(Spot::upper(Which::First)).run(w).bind(
                    |u: (), w: World|
                        Action::SeekTo(offset).run(w).bind(
                            |u: (), w: World|
                                Action::WriteData.count(w).bind(
                                    |n: i64, w: World| Flow::Got(n as u32, w),
                                ),
                        ),
                ),
        )
    }

    fn write_steps(&self, t: &mut Tape, ino: u64, offset: u64) -> (r: Result<u32, Stop>)
        ensures
            final(t).flow(r) == self.from_path(
                ino,
                old(t).world(),
                |path: Seq<u8>, w: World| Self::writing(LayerManager::place(path), offset, w),
            ),
            crate::protocol::spares_lower(r),
    {
        let path = self.path(ino)?;
        self.layers.copy_on_write(t, &path, Which::First)?;
        t.run(Action::OpenWrite(Spot::upper(Which::First)))?;
        t.run(Action::SeekTo(offset))?;
        let n = t.count(Action::WriteData)?;
        Ok(#[verifier::truncate] (n as u32))
    }

    /// Writes data to a file. These are the bytes that go out.
    pub fn write(&self, t: &mut Tape, ino: u64, offset: u64, data: &[u8]) -> (r: Result<
        u32,
        Stop,
    >)
        ensures
            final(t).flow(r) == self.from_path(
                ino,
                old(t).world(),
                |path: Seq<u8>, w: World| Self::writing(LayerManager::place(path), offset, w),
            ),
            final(t).load@ == (Loaded { data: data@, ..Loaded::none() }),
            crate::protocol::spares_lower(r),
    {
        let r = self.write_steps(t, ino, offset);
        t.carry(Load::of_data(data));
        r
    }

    /// Whether the upper layer has the first entry as a regular file.
    pub open spec fn finding_file(w: World) -> Flow<bool> {
        Action::Lstat(Spot::upper(Which::First)).probe(w).bind(
            |m: Option<Meta>, w: World|
                Flow::Got(m matches Some(meta) && meta.kind is RegularFile, w),
        )
    }

    fn is_upper_file(&self, t: &mut Tape) -> (r: Result<bool, Stop>)
        ensures
            final(t).flow(r) == Self::finding_file(old(t).world()),
            crate::protocol::spares_lower(r),
    {
        match t.probe(Action::Lstat(Spot::upper(Which::First)))? {
            Some(meta) => Ok(meta.kind == FileKind::RegularFile),
            None => Ok(false),
        }
    }

    /// Flushes the first entry, where the upper layer has it as a file that can be opened.
    pub open spec fn flushing(w: World) -> Flow<()> {
        Self::finding_file(w).bind(
            |file: bool, w: World|
                if !file {
                    Flow::Got((), w)
                } else {
                    Action::OpenWrite(Spot::upper(Which::First)).test(w).bind(
                        |open: bool, w: World|
                            if !open {
                                Flow::Got((), w)
                            } else {
                                Action::SyncAll.test(w).bind(
                                    |ok: bool, w: World|
                                        if ok {
                                            Flow::Got((), w)
                                        } else {
                                            Flow::Fail(EIO, w)
                                        },
                                )
                            },
                    )
                },
        )
    }

    /// Flushes a file on closing it. What has no path, or is not in the upper layer, needs
    /// no flushing.
    pub fn flush(&self, t: &mut Tape, ino: u64) -> (r: Result<(), Stop>)
        ensures
            final(t).flow(r) == match self.inodes@.path_of(ino) {
                Some(_) => Self::flushing(old(t).world()),
                None => Flow::Got((), old(t).world()),
            },
            crate::protocol::spares_lower(r),
    {
        if self.inodes.get_path(ino).is_none() {
            return Ok(());
        }
        if !self.is_upper_file(t)? {
            return Ok(());
        }
        if !t.test(Action::OpenWrite(Spot::upper(Which::First)))? {
            return Ok(());
        }
        if t.test(Action::SyncAll)? {
            Ok(())
        } else {
            Err(Stop::Fail(EIO))
        }
    }

    /// Flushes the first entry, where the upper layer has it as a file.
    pub open spec fn syncing(datasync: bool, w: World) -> Flow<()> {
        Self::finding_file(w).bind(
            |file: bool, w: World|
                if !file {
                    Flow::Got((), w)
                } else {
                    Action::OpenWrite(Spot::upper(Which::First)).run(w).bind(
                        |u: (), w: World| Action::Fsync(datasync).run(w),
                    )
                },
        )
    }

    /// Flushes a file on request.
    pub fn fsync(&self, t: &mut Tape, ino: u64, datasync: bool) -> (r: Result<(), Stop>)
        ensures
            final(t).flow(r) == self.from_path(
                ino,
                old(t).world(),
                |path: Seq<u8>, w: World| Self::syncing(datasync, w),
            ),
            crate::protocol::spares_lower(r),
    {
        self.path(ino)?;
        if !self.is_upper_file(t)? {
            return Ok(());
        }
        t.run(Action::OpenWrite(Spot::upper(Which::First)))?;
        t.run(Action::Fsync(datasync))
    }

    /// Changes the allocation of the first entry, which is brought up.
    pub open spec fn allocating(
        place: Place,
        offset: u64,
        length: u64,
        mode: i32,
        w: World,
    ) -> Flow<()> {
        LayerManager::promoting(place, Which::First, w).bind(
            |u: (), w: World|
                Action::OpenWrite(Spot::upper(Which::First)).run(w).bind(
                    |u: (), w: World| Action::Allocate(offset, length, mode).run(w),
                ),
        )
    }

    /// Changes the allocation of a file.
    pub fn fallocate(&self, t: &mut Tape, ino: u64, offset: u64, length: u64, mode: i32) -> (r:
        Result<(), Stop>)
        ensures
            final(t).flow(r) == self.from_path(
                ino,
                old(t).world(),
                |path: Seq<u8>, w: World|
                    Self::allocating(LayerManager::place(path), offset, length, mode, w),
            ),
            crate::protocol::spares_lower(r),
    {
        let path = self.path(ino)?;
        self.layers.copy_on_write(t, &path, Which::First)?;
        t.run(Action::OpenWrite(Spot::upper(Which::First)))?;
        t.run(Action::Allocate(offset, length, mode))
    }

    /// The position that many bytes from the end, where it is not before the start and can
    /// be written in 64 bits.
    pub open spec fn from_end(size: u64, offset: i64) -> Option<i64> {
        let sum = (size as i64) + offset;
        if 0 <= sum <= i64::MAX {
            Some(sum as i64)
        } else {
            None
        }
    }

    /// Seeks in an entry.
    pub open spec fn seeking(s: Spot, offset: i64, whence: i32, w: World) -> Flow<i64> {
        if whence == SEEK_SET {
            if offset < 0 {
                Flow::Fail(EINVAL, w)
            } else {
                Flow::Got(offset, w)
            }
        } else if whence == SEEK_END {
            Action::Lstat(s).meta(w).bind(
                |meta: Meta, w: World|
                    match Self::from_end(meta.size, offset) {
                        Some(p) => Flow::Got(p, w),
                        None => Flow::Fail(EINVAL, w),
                    },
            )
        } else if whence == SEEK_CUR {
            Flow::Fail(EINVAL, w)
        } else {
            Action::OpenRead(s).run(w).bind(
                |u: (), w: World| Action::SeekBy(offset, whence).count(w),
            )
        }
    }

    fn seek(&self, t: &mut Tape, s: Spot, offset: i64, whence: i32) -> (r: Result<i64, Stop>)
        ensures
            final(t).flow(r) == Self::seeking(s, offset, whence, old(t).world()),
            crate::protocol::spares_lower(r),
    {
        if whence == SEEK_SET {
            if offset < 0 {
                return Err(Stop::Fail(EINVAL));
            }
            return Ok(offset);
        }
        if whence == SEEK_END {
            let meta = t.meta(Action::Lstat(s))?;
            let size: i64 = #[verifier::truncate] (meta.size as i64);
            return match size.checked_add(offset) {
                Some(p) => if p < 0 {
                    Err(Stop::Fail(EINVAL))
                } else {
                    Ok(p)
                },
                None => Err(Stop::Fail(EINVAL)),
            };
        }
        if whence == SEEK_CUR {
            return Err(Stop::Fail(EINVAL));
        }
        t.run(Action::OpenRead(s))?;
        t.count(Action::SeekBy(offset, whence))
    }

    /// Seeks in a file.
    pub fn lseek(&self, t: &mut Tape, ino: u64, offset: i64, whence: i32) -> (r: Result<i64, Stop>)
        ensures
            final(t).flow(r) == self.from_path(
                ino,
                old(t).world(),
                |path: Seq<u8>, w: World|
                    LayerManager::resolving(LayerManager::place(path), Which::First, w).bind(
                        |at: Option<Layer>, w: World|
                            match at {
                                None => Flow::Fail(ENOENT, w),
                                Some(layer) => Self::seeking(
                                    Spot::entry(layer, Which::First),
                                    offset,
                                    whence,
                                    w,
                                ),
                            },
                    ),
            ),
            crate::protocol::spares_lower(r),
    {
        let path = self.path(ino)?;
        match self.layers.resolve(t, &path, Which::First)? {
            None => Err(Stop::Fail(ENOENT)),
            Some(layer) => self.seek(t, Spot::entry(layer, Which::First), offset, whence),
        }
    }

    /// Copies from the first entry to the second, which is brought up. The number of bytes
    /// copied loses what does not fit in 32 bits.
    pub open spec fn ranging(
        place_in: Place,
        place_out: Place,
        offset_in: u64,
        offset_out: u64,
        len: u64,
        w: World,
    ) -> Flow<u32> {
        LayerManager::resolving(place_in, Which::First, w).bind(
            |at: Option<Layer>, w: World|
                match at {
                    None => Flow::Fail(ENOENT, w),
                    Some(layer) => LayerManager::promoting(place_out, Which::Second, w).bind(
                        |u: (), w: World|
                            Action::OpenRead(Spot::entry(layer, Which::First)).run(w).bind(
                                |u: (), w: World|
                                    Action::OpenWrite(Spot::upper(Which::Second)).run(w).bind(
                                        |u: (), w: World|
                                            Action::CopyRange(offset_in, offset_out, len).count(
                                                w,
                                            ).bind(|n: i64, w: World| Flow::Got(n as u32, w)),
                                    ),
                            ),
                    ),
                },
        )
    }

    /// The two paths that copying from one file to another is about.
    pub fn copy_paths(&self, ino_in: u64, ino_out: u64) -> (r: (FsPath, FsPath))
        ensures
            r.0@ == self.path_or_root(ino_in),
            r.1@ == self.path_or_root(ino_out),
    {
        (self.entry_path(ino_in), self.entry_path(ino_out))
    }

    /// Copies from one file to another.
    pub fn copy_file_range(
        &self,
        t: &mut Tape,
        ino_in: u64,
        offset_in: u64,
        ino_out: u64,
        offset_out: u64,
        len: u64,
    ) -> (r: Result<u32, Stop>)
        ensures
            final(t).flow(r) == self.from_path(
                ino_in,
                old(t).world(),
                |path_in: Seq<u8>, w: World|
                    self.from_path(
                        ino_out,
                        w,
                        |path_out: Seq<u8>, w: World|
                            Self::ranging(
                                LayerManager::place(path_in),
                                LayerManager::place(path_out),
                                offset_in,
                                offset_out,
                                len,
                                w,
                            ),
                    ),
            ),
            crate::protocol::spares_lower(r),
    {
        let path_in = self.path(ino_in)?;
        let path_out = self.path(ino_out)?;
        let layer = match self.layers.resolve(t, &path_in, Which::First)? {
            None => return Err(Stop::Fail(ENOENT)),
            Some(layer) => layer,
        };
        self.layers.copy_on_write(t, &path_out, Which::Second)?;
        t.run(Action::OpenRead(Spot::entry(layer, Which::First)))?;
        t.run(Action::OpenWrite(Spot::upper(Which::Second)))?;
        let n = t.count(Action::CopyRange(offset_in, offset_out, len))?;
        Ok(#[verifier::truncate] (n as u32))
    }

    /// Tests whether the first entry may be accessed. Only the superuser is held to
    /// anything here: it may execute only what someone may, and enter any directory.
    pub open spec fn testing(place: Place, uid: u32, mask: i32, w: World) -> Flow<()> {
        LayerManager::resolving(place, Which::First, w).bind(
            |at: Option<Layer>, w: World|
                match at {
                    None => Flow::Fail(ENOENT, w),
                    Some(layer) => if mask == 0 || uid != 0 || mask & X_OK == 0 {
                        Flow::Got((), w)
                    } else {
                        Action::Lstat(Spot::entry(layer, Which::First)).probe(w).bind(
                            |m: Option<Meta>, w: World|
                                match m {
                                    None => Flow::Fail(ENOENT, w),
                                    Some(meta) => if !(meta.kind is Directory) && meta.mode & 0o111
                                        == 0 {
                                        Flow::Fail(EACCES, w)
                                    } else {
                                        Flow::Got((), w)
                                    },
                                },
                        )
                    },
                },
        )
    }

    /// Tests whether an entry may be accessed.
    pub fn access(&self, t: &mut Tape, uid: u32, ino: u64, mask: i32) -> (r: Result<(), Stop>)
        ensures
            final(t).flow(r) == self.from_path(
                ino,
                old(t).world(),
                |path: Seq<u8>, w: World| Self::testing(LayerManager::place(path), uid, mask, w),
            ),
            crate::protocol::spares_lower(r),
    {
        let path = self.path(ino)?;
        let layer = match self.layers.resolve(t, &path, Which::First)? {
            None => return Err(Stop::Fail(ENOENT)),
            Some(layer) => layer,
        };
        if mask == 0 {
            return Ok(());
        }
        if uid != 0 {
            return Ok(());
        }
        if mask & X_OK != 0 {
            let meta = match t.probe(Action::Lstat(Spot::entry(layer, Which::First)))? {
                Some(meta) => meta,
                None => return Err(Stop::Fail(ENOENT)),
            };
            if meta.kind != FileKind::Directory && meta.mode & 0o111 == 0 {
                return Err(Stop::Fail(EACCES));
            }
        }
        Ok(())
    }

    /// The answer where the size of a layer is not known.
    pub open spec fn no_stat() -> FsStat {
        FsStat {
            blocks: 0,
            bfree: 0,
            bavail: 0,
            files: 0,
            ffree: 0,
            bsize: 512,
            namelen: 255,
            frsize: 0,
        }
    }

    /// The size is that of the lower layer, the room that of the upper one.
    pub open spec fn both_stat(lower: Space, upper: Space) -> FsStat {
        FsStat {
            blocks: lower.blocks,
            bfree: upper.bfree,
            bavail: upper.bavail,
            files: lower.files,
            ffree: upper.ffree,
            bsize: upper.bsize as u32,
            namelen: upper.namemax as u32,
            frsize: upper.frsize as u32,
        }
    }

    /// The size of a layer, where it is known.
    pub open spec fn sizing(layer: Layer, w: World) -> Flow<Option<Space>> {
        Action::Space(layer).ask(w).bind(
            |r: Answer, w: World|
                match r {
                    Answer::Space(s) => Flow::Got(Some(s), w),
                    _ => Flow::Got(None, w),
                },
        )
    }

    /// The size and the fill of the overlay.
    pub open spec fn measuring(w: World) -> Flow<FsStat> {
        Self::sizing(Layer::Lower, w).bind(
            |lower: Option<Space>, w: World|
                match lower {
                    None => Flow::Got(Self::no_stat(), w),
                    Some(l) => Self::sizing(Layer::Upper, w).bind(
                        |upper: Option<Space>, w: World|
                            match upper {
                                None => Flow::Got(Self::no_stat(), w),
                                Some(u) => Flow::Got(Self::both_stat(l, u), w),
                            },
                    ),
                },
        )
    }

    fn space(&self, t: &mut Tape, layer: Layer) -> (r: Result<Option<Space>, Stop>)
        ensures
            final(t).flow(r) == Self::sizing(layer, old(t).world()),
            crate::protocol::spares_lower(r),
    {
        match t.ask(Action::Space(layer))? {
            Reply::Space(s) => Ok(Some(*s)),
            _ => Ok(None),
        }
    }

    /// The size and the fill of the overlay.
    pub fn statfs(&self, t: &mut Tape) -> (r: Result<FsStat, Stop>)
        ensures
            final(t).flow(r) == Self::measuring(old(t).world()),
            crate::protocol::spares_lower(r),
    {
        let none = FsStat {
            blocks: 0,
            bfree: 0,
            bavail: 0,
            files: 0,
            ffree: 0,
            bsize: 512,
            namelen: 255,
            frsize: 0,
        };
        let lower = match self.space(t, Layer::Lower)? {
            Some(s) => s,
            None => return Ok(none),
        };
        let upper = match self.space(t, Layer::Upper)? {
            Some(s) => s,
            None => return Ok(none),
        };
        Ok(
            FsStat {
                blocks: lower.blocks,
                bfree: upper.bfree,
                bavail: upper.bavail,
                files: lower.files,
                ffree: upper.ffree,
                bsize: #[verifier::truncate] (upper.bsize as u32),
                namelen: #[verifier::truncate] (upper.namemax as u32),
                frsize: #[verifier::truncate] (upper.frsize as u32),
            },
        )
    }
}

} // verus!
