//! The operations that the kernel asks for.

use crate::attr::{make_attr, FileAttr};
use crate::errno::{EACCES, EEXIST, EINVAL, EIO, EISDIR, ENOENT, ENOTSUP};
use crate::files::OverlayFiles;
use crate::inode::{InodeMode, InodeStore, Inodes};
use crate::layers::{LayerManager, Place};
use crate::path::FsPath;
use crate::protocol::{
    Action, Answer, FileKind, Flow, Layer, Load, Loaded, Mark, Meta, Reply, Space, Spot, Stamp,
    Stop, Tape, TimeSet, Which, World,
};
use vstd::prelude::*;

verus! {

/// The part of the open flags that says how a file is accessed.
pub const O_ACCMODE: i32 = 3;

/// Open for writing.
pub const O_WRONLY: i32 = 1;

/// Open for reading and writing.
pub const O_RDWR: i32 = 2;

/// Empty the file on opening it.
pub const O_TRUNC: i32 = 512;

/// Test for the permission to execute.
pub const X_OK: i32 = 1;

/// Seek from the start.
pub const SEEK_SET: i32 = 0;

/// Seek from the current position.
pub const SEEK_CUR: i32 = 1;

/// Seek from the end.
pub const SEEK_END: i32 = 2;

/// Refuse to rename over an existing entry.
pub const RENAME_NOREPLACE: u32 = 1;

/// Swap the two entries.
pub const RENAME_EXCHANGE: u32 = 2;

/// The attributes to set.
#[derive(Clone, Copy, PartialEq, Eq, Structural, Debug)]
pub struct SetAttr {
    pub mode: Option<u32>,
    pub uid: Option<u32>,
    pub gid: Option<u32>,
    pub size: Option<u64>,
    pub atime: Option<TimeSet>,
    pub mtime: Option<TimeSet>,
}

/// The size and the fill of the overlay.
#[derive(Clone, Copy, PartialEq, Eq, Structural, Debug)]
pub struct FsStat {
    pub blocks: u64,
    pub bfree: u64,
    pub bavail: u64,
    pub files: u64,
    pub ffree: u64,
    pub bsize: u32,
    pub namelen: u32,
    pub frsize: u32,
}

/// The operations of an overlay: its inode numbers and its layers.
pub struct OverlayOps {
    pub inodes: InodeStore,
    pub layers: LayerManager,
}

impl OverlayOps {
    /// The inode table is well formed.
    pub open spec fn wf(&self) -> bool {
        self.inodes.wf()
    }

    /// Metadata of the entry that is found under the first path.
    pub open spec fn inspecting(place: Place, w: World) -> Flow<Meta> {
        LayerManager::resolving(place, Which::First, w).bind(
            |at: Option<Layer>, w: World|
                match at {
                    None => Flow::Fail(ENOENT, w),
                    Some(layer) => Action::Lstat(Spot::entry(layer, Which::First)).probe(w).bind(
                        |m: Option<Meta>, w: World|
                            match m {
                                Some(meta) => Flow::Got(meta, w),
                                None => Flow::Fail(ENOENT, w),
                            },
                    ),
                },
        )
    }

    /// The outcome of an operation that hands the kernel an entry: on success its path has
    /// a number that is held once more; else the table is as it was.
    pub open spec fn entered(
        pre: OverlayOps,
        post: OverlayOps,
        rel: Seq<u8>,
        flow: Flow<Meta>,
        r: Result<FileAttr, Stop>,
        w: World,
    ) -> bool {
        &&& post.wf()
        &&& post.layers == pre.layers
        &&& match r {
            Ok(attr) => {
                &&& flow matches Flow::Got(meta, v) && v == w && attr == FileAttr::of(
                    pre.inodes@.ino_of(rel),
                    meta,
                )
                &&& post.inodes@ == pre.inodes@.looked_up(rel)
            },
            Err(s) => flow == s.flow::<Meta>(w) && post.inodes@ == pre.inodes@,
        }
    }

    /// The operations on the given directories.
    pub fn new(backend: OverlayFiles, mode: InodeMode) -> (r: OverlayOps)
        ensures
            r.wf(),
            r.inodes@ == Inodes::fresh(mode),
            r.layers.backend == backend,
    {
        OverlayOps { inodes: InodeStore::new(mode), layers: LayerManager::new(backend) }
    }

    fn inspect(&self, t: &mut Tape, rel: &FsPath) -> (r: Result<Meta, Stop>)
        ensures
            final(t).flow(r) == Self::inspecting(LayerManager::place(rel@), old(t).world()),
            crate::protocol::spares_lower(r),
    {
        match self.layers.resolve(t, rel, Which::First)? {
            None => Err(Stop::Fail(ENOENT)),
            Some(layer) => match t.probe(Action::Lstat(Spot::entry(layer, Which::First)))? {
                Some(meta) => Ok(meta),
                None => Err(Stop::Fail(ENOENT)),
            },
        }
    }

    /// Finds an entry of a directory by its name.
    pub fn lookup(&mut self, t: &mut Tape, parent: u64, name: &[u8]) -> (r: Result<FileAttr, Stop>)
        requires
            old(self).wf(),
        ensures
            ({
                let rel = old(self).inodes@.child(parent, name@);
                Self::entered(
                    *old(self),
                    *final(self),
                    rel,
                    Self::inspecting(LayerManager::place(rel), old(t).world()),
                    r,
                    final(t).world(),
                )
            }),
            crate::protocol::spares_lower(r),
    {
        let rel = self.inodes.child_path(parent, name);
        let meta = self.inspect(t, &rel)?;
        let ino = self.inodes.get_ino(&rel);
        Ok(make_attr(ino, meta))
    }

    /// The kernel gives up holds on an inode number.
    pub fn forget(&mut self, ino: u64, nlookup: u64)
        requires
            old(self).wf(),
        ensures
            final(self).wf(),
            final(self).layers == old(self).layers,
            final(self).inodes@ == old(self).inodes@.forgotten(ino, nlookup),
    {
        self.inodes.forget_ino(ino, nlookup);
    }

    /// The attributes of an inode number, through the metadata that the flow yields.
    pub open spec fn described(ino: u64, flow: Flow<Meta>) -> Flow<FileAttr> {
        flow.bind(|meta: Meta, w: World| Flow::Got(FileAttr::of(ino, meta), w))
    }

    /// A flow that starts from the path of an inode number; without one it ends with
    /// `ENOENT`.
    pub open spec fn from_path<T>(
        self,
        ino: u64,
        w: World,
        next: spec_fn(Seq<u8>, World) -> Flow<T>,
    ) -> Flow<T> {
        match self.inodes@.path_of(ino) {
            Some(path) => next(path, w),
            None => Flow::Fail(ENOENT, w),
        }
    }

    /// The attributes of an entry.
    pub open spec fn getting(self, ino: u64, w: World) -> Flow<FileAttr> {
        self.from_path(
            ino,
            w,
            |path: Seq<u8>, w: World|
                Self::described(ino, Self::inspecting(LayerManager::place(path), w)),
        )
    }

    /// The path of an inode number, or `ENOENT`.
    pub(crate) fn path(&self, ino: u64) -> (r: Result<FsPath, Stop>)
        ensures
            match r {
                Ok(p) => self.inodes@.path_of(ino) == Some(p@),
                Err(s) => self.inodes@.path_of(ino) is None && s == Stop::Fail(ENOENT),
            },
    {
        match self.inodes.get_path(ino) {
            Some(p) => Ok(p),
            None => Err(Stop::Fail(ENOENT)),
        }
    }

    /// The attributes of an entry.
    pub fn getattr(&self, t: &mut Tape, ino: u64) -> (r: Result<FileAttr, Stop>)
        ensures
            final(t).flow(r) == self.getting(ino, old(t).world()),
            crate::protocol::spares_lower(r),
    {
        let path = self.path(ino)?;
        let meta = self.inspect(t, &path)?;
        Ok(make_attr(ino, meta))
    }

    /// The time to set: a time before the epoch becomes the epoch, and a time that is not
    /// given stays as it is.
    pub open spec fn time_to_set(t: Option<TimeSet>) -> TimeSet {
        match t {
            Some(TimeSet::At(s)) => if s.secs < 0 {
                TimeSet::At(Stamp { secs: 0, nanos: 0 })
            } else {
                TimeSet::At(s)
            },
            Some(other) => other,
            None => TimeSet::Keep,
        }
    }

    fn to_time(t: Option<TimeSet>) -> (r: TimeSet)
        ensures
            r == Self::time_to_set(t),
    {
        match t {
            Some(TimeSet::At(s)) => if s.secs < 0 {
                TimeSet::At(Stamp { secs: 0, nanos: 0 })
            } else {
                TimeSet::At(s)
            },
            Some(other) => other,
            None => TimeSet::Keep,
        }
    }

    /// Sets the length, which a link does not have.
    pub open spec fn setting_size(size: Option<u64>, is_link: bool, w: World) -> Flow<()> {
        match size {
            Some(n) => if is_link {
                Flow::Fail(EINVAL, w)
            } else {
                Action::SetLen(Spot::upper(Which::First), n).run(w)
            },
            None => Flow::Got((), w),
        }
    }

    /// Sets the permissions, which a link does not have.
    pub open spec fn setting_mode(mode: Option<u32>, is_link: bool, w: World) -> Flow<()> {
        match mode {
            Some(m) if !is_link => Action::SetMode(Spot::upper(Which::First), m).run(w),
            _ => Flow::Got((), w),
        }
    }

    /// Sets user and group.
    pub open spec fn setting_owner(uid: Option<u32>, gid: Option<u32>, w: World) -> Flow<()> {
        if uid is Some || gid is Some {
            Action::SetOwner(
                Spot::upper(Which::First),
                match uid {
                    Some(u) => u,
                    None => u32::MAX,
                },
                match gid {
                    Some(g) => g,
                    None => u32::MAX,
                },
            ).run(w)
        } else {
            Flow::Got((), w)
        }
    }

    /// Sets the times.
    pub open spec fn setting_times(
        atime: Option<TimeSet>,
        mtime: Option<TimeSet>,
        w: World,
    ) -> Flow<()> {
        if atime is Some || mtime is Some {
            Action::SetTimes(
                Spot::upper(Which::First),
                Self::time_to_set(atime),
                Self::time_to_set(mtime),
            ).run(w)
        } else {
            Flow::Got((), w)
        }
    }

    /// Sets attributes of the entry, which is brought up first.
    pub open spec fn altering(place: Place, set: SetAttr, w: World) -> Flow<()> {
        LayerManager::promoting(place, Which::First, w).bind(
            |u: (), w: World|
                Action::Lstat(Spot::upper(Which::First)).probe(w).bind(
                    |m: Option<Meta>, w: World|
                        {
                            let is_link = m matches Some(meta) && meta.kind is Symlink;
                            Self::setting_size(set.size, is_link, w).bind(
                                |u: (), w: World|
                                    Self::setting_mode(set.mode, is_link, w).bind(
                                        |u: (), w: World|
                                            Self::setting_owner(set.uid, set.gid, w).bind(
                                                |u: (), w: World|
                                                    Self::setting_times(set.atime, set.mtime, w),
                                            ),
                                    ),
                            )
                        },
                ),
        )
    }

    /// Sets attributes of an entry and answers with all of them.
    pub fn setattr(&self, t: &mut Tape, ino: u64, set: SetAttr) -> (r: Result<FileAttr, Stop>)
        ensures
            final(t).flow(r) == self.from_path(
                ino,
                old(t).world(),
                |path: Seq<u8>, w: World|
                    Self::altering(LayerManager::place(path), set, w).bind(
                        |u: (), w: World| self.getting(ino, w),
                    ),
            ),
            crate::protocol::spares_lower(r),
    {
        let path = self.path(ino)?;
        self.alter(t, &path, set)?;
        self.getattr(t, ino)
    }

    fn alter(&self, t: &mut Tape, path: &FsPath, set: SetAttr) -> (r: Result<(), Stop>)
        ensures
            final(t).flow(r) == Self::altering(LayerManager::place(path@), set, old(t).world()),
            crate::protocol::spares_lower(r),
    {
        let up = Spot::upper(Which::First);
        self.layers.copy_on_write(t, path, Which::First)?;
        let is_link = match t.probe(Action::Lstat(up))? {
            Some(meta) => meta.kind == FileKind::Symlink,
            None => false,
        };
        if let Some(n) = set.size {
            if is_link {
                return Err(Stop::Fail(EINVAL));
            }
            t.run(Action::SetLen(up, n))?;
        }
        if let Some(m) = set.mode {
            if !is_link {
                t.run(Action::SetMode(up, m))?;
            }
        }
        if set.uid.is_some() || set.gid.is_some() {
            let uid: u32 = match set.uid {
                Some(u) => u,
                None => u32::MAX,
            };
            let gid: u32 = match set.gid {
                Some(g) => g,
                None => u32::MAX,
            };
            t.run(Action::SetOwner(up, uid, gid))?;
        }
        if set.atime.is_some() || set.mtime.is_some() {
            t.run(Action::SetTimes(up, Self::to_time(set.atime), Self::to_time(set.mtime)))?;
        }
        Ok(())
    }

    /// The target of the link that is found under the first path.
    pub open spec fn reading_link(place: Place, w: World) -> Flow<Seq<u8>> {
        LayerManager::resolving(place, Which::First, w).bind(
            |at: Option<Layer>, w: World|
                match at {
                    None => Flow::Fail(ENOENT, w),
                    Some(layer) => Action::ReadLink(Spot::entry(layer, Which::First)).data(w),
                },
        )
    }

    /// The target of a link.
    pub fn readlink<'a>(&self, t: &mut Tape<'a>, ino: u64) -> (r: Result<&'a Vec<u8>, Stop>)
        ensures
            ({
                let flow = self.from_path(
                    ino,
                    old(t).world(),
                    |path: Seq<u8>, w: World| Self::reading_link(LayerManager::place(path), w),
                );
                match r {
                    Ok(b) => flow == Flow::Got(b@, final(t).world()),
                    Err(s) => flow == s.flow::<Seq<u8>>(final(t).world()),
                }
            }),
            crate::protocol::spares_lower(r),
    {
        let path = self.path(ino)?;
        match self.layers.resolve(t, &path, Which::First)? {
            None => Err(Stop::Fail(ENOENT)),
            Some(layer) => t.data(Action::ReadLink(Spot::entry(layer, Which::First))),
        }
    }

    /// Creates something at the first path, with all that comes before and after: the
    /// directories above it first, then the marker that hid the path is cleared.
    pub open spec fn making(
        place: Place,
        make: Action,
        mode: Option<u32>,
        w: World,
    ) -> Flow<()> {
        Action::MakeParents(Spot::upper(Which::First)).run(w).bind(
            |u: (), w: World|
                make.run(w).bind(
                    |u: (), w: World|
                        Self::set_new_mode(mode, w).bind(
                            |u: (), w: World| LayerManager::clearing(place.named, Which::First, w),
                        ),
                ),
        )
    }

    /// Gives a new entry its permissions, where they are given; a failure is of no account.
    pub open spec fn set_new_mode(mode: Option<u32>, w: World) -> Flow<()> {
        match mode {
            Some(m) => Action::SetMode(Spot::upper(Which::First), m).attempt(w),
            None => Flow::Got((), w),
        }
    }

    fn make(&self, t: &mut Tape, rel: &FsPath, make: Action, mode: Option<u32>) -> (r: Result<
        (),
        Stop,
    >)
        requires
            make.spares_lower(),
        ensures
            final(t).flow(r) == Self::making(
                LayerManager::place(rel@),
                make,
                mode,
                old(t).world(),
            ),
            crate::protocol::spares_lower(r),
    {
        t.run(Action::MakeParents(Spot::upper(Which::First)))?;
        t.run(make)?;
        if let Some(m) = mode {
            t.attempt(Action::SetMode(Spot::upper(Which::First), m))?;
        }
        self.layers.clear_whiteout(t, rel, Which::First)
    }

    /// Creates a node.
    pub open spec fn making_node(place: Place, mode: u32, rdev: u32, w: World) -> Flow<Meta> {
        Self::making(
            place,
            Action::MakeNode(Spot::upper(Which::First), mode, rdev),
            None,
            w,
        ).bind(|u: (), w: World| Action::Lstat(Spot::upper(Which::First)).meta(w))
    }

    /// Creates a file, a device or a pipe.
    pub fn mknod(
        &mut self,
        t: &mut Tape,
        parent: u64,
        name: &[u8],
        mode: u32,
        umask: u32,
        rdev: u32,
    ) -> (r: Result<FileAttr, Stop>)
        requires
            old(self).wf(),
        ensures
            ({
                let rel = old(self).inodes@.child(parent, name@);
                Self::entered(
                    *old(self),
                    *final(self),
                    rel,
                    Self::making_node(
                        LayerManager::place(rel),
                        mode & !umask,
                        rdev,
                        old(t).world(),
                    ),
                    r,
                    final(t).world(),
                )
            }),
            crate::protocol::spares_lower(r),
    {
        let up = Spot::upper(Which::First);
        let rel = self.inodes.child_path(parent, name);
        self.make(t, &rel, Action::MakeNode(up, mode & !umask, rdev), None)?;
        let meta = t.meta(Action::Lstat(up))?;
        let ino = self.inodes.get_ino(&rel);
        Ok(make_attr(ino, meta))
    }

    /// Marks a new directory as replacing the one below it, where there is one. A failure
    /// is of no account.
    pub open spec fn sealing(w: World) -> Flow<()> {
        let up = Spot::upper(Which::First);
        Action::Lstat(Spot::lower(Which::First)).probe(w).bind(
            |m: Option<Meta>, w: World|
                if m matches Some(meta) && meta.kind is Directory {
                    Action::SetMark(up, Mark::Trusted).attempt(w).bind(
                        |u: (), w: World| Action::SetMark(up, Mark::User).attempt(w),
                    )
                } else {
                    Flow::Got((), w)
                },
        )
    }

    /// Creates the upper directory with its permissions.
    pub open spec fn founding(mode: u32, w: World) -> Flow<()> {
        let up = Spot::upper(Which::First);
        Action::MakeParents(up).run(w).bind(
            |u: (), w: World|
                Action::MakeDir(up).run(w).bind(
                    |u: (), w: World| Action::SetMode(up, mode).attempt(w),
                ),
        )
    }

    /// Creates a directory.
    pub open spec fn making_dir(place: Place, mode: u32, w: World) -> Flow<Meta> {
        Self::refusing_dir(place, EEXIST, w).bind(
            |u: (), w: World|
                Self::founding(mode, w).bind(
                    |u: (), w: World|
                        LayerManager::unhiding(place.named, Which::First, w).bind(
                            |u: (), w: World|
                                Self::sealing(w).bind(
                                    |u: (), w: World|
                                        Action::Stat(Spot::upper(Which::First)).meta(w),
                                ),
                        ),
                ),
        )
    }

    fn found(&self, t: &mut Tape, mode: u32) -> (r: Result<(), Stop>)
        ensures
            final(t).flow(r) == Self::founding(mode, old(t).world()),
            crate::protocol::spares_lower(r),
    {
        let up = Spot::upper(Which::First);
        t.run(Action::MakeParents(up))?;
        t.run(Action::MakeDir(up))?;
        t.attempt(Action::SetMode(up, mode))
    }

    fn seal(&self, t: &mut Tape) -> (r: Result<(), Stop>)
        ensures
            final(t).flow(r) == Self::sealing(old(t).world()),
            crate::protocol::spares_lower(r),
    {
        let up = Spot::upper(Which::First);
        let below = match t.probe(Action::Lstat(Spot::lower(Which::First)))? {
            Some(meta) => meta.kind == FileKind::Directory,
            None => false,
        };
        if below {
            t.attempt(Action::SetMark(up, Mark::Trusted))?;
            t.attempt(Action::SetMark(up, Mark::User))?;
        }
        Ok(())
    }

    /// Creates a directory. Where the lower layer has a directory of that name, which must
    /// be hidden, what that one holds stays out of sight.
    pub fn mkdir(&mut self, t: &mut Tape, parent: u64, name: &[u8], mode: u32, umask: u32) -> (r:
        Result<FileAttr, Stop>)
        requires
            old(self).wf(),
        ensures
            ({
                let rel = old(self).inodes@.child(parent, name@);
                Self::entered(
                    *old(self),
                    *final(self),
                    rel,
                    Self::making_dir(
                        LayerManager::place(rel),
                        mode & !umask & 0o7777,
                        old(t).world(),
                    ),
                    r,
                    final(t).world(),
                )
            }),
            crate::protocol::spares_lower(r),
    {
        let rel = self.inodes.child_path(parent, name);
        self.refuse_dir(t, &rel, EEXIST)?;
        self.found(t, mode & !umask & 0o7777)?;
        self.layers.unhide(t, &rel, Which::First)?;
        self.seal(t)?;
        let meta = t.meta(Action::Stat(Spot::upper(Which::First)))?;
        let ino = self.inodes.get_ino(&rel);
        Ok(make_attr(ino, meta))
    }

    /// Creates a link.
    pub open spec fn making_link(place: Place, w: World) -> Flow<Meta> {
        Self::making(place, Action::MakeLink(Spot::upper(Which::First)), None, w).bind(
            |u: (), w: World| Action::Lstat(Spot::upper(Which::First)).meta(w),
        )
    }

    fn symlink_steps(&mut self, t: &mut Tape, parent: u64, link_name: &[u8]) -> (r: Result<
        FileAttr,
        Stop,
    >)
        requires
            old(self).wf(),
        ensures
            ({
                let rel = old(self).inodes@.child(parent, link_name@);
                Self::entered(
                    *old(self),
                    *final(self),
                    rel,
                    Self::making_link(LayerManager::place(rel), old(t).world()),
                    r,
                    final(t).world(),
                )
            }),
            crate::protocol::spares_lower(r),
    {
        let up = Spot::upper(Which::First);
        let rel = self.inodes.child_path(parent, link_name);
        self.make(t, &rel, Action::MakeLink(up), None)?;
        let meta = t.meta(Action::Lstat(up))?;
        let ino = self.inodes.get_ino(&rel);
        Ok(make_attr(ino, meta))
    }

    /// Creates a symbolic link. Its target is what goes out.
    pub fn symlink(
        &mut self,
        t: &mut Tape,
        parent: u64,
        link_name: &[u8],
        target: &[u8],
    ) -> (r: Result<FileAttr, Stop>)
        requires
            old(self).wf(),
        ensures
            ({
                let rel = old(self).inodes@.child(parent, link_name@);
                Self::entered(
                    *old(self),
                    *final(self),
                    rel,
                    Self::making_link(LayerManager::place(rel), old(t).world()),
                    r,
                    final(t).world(),
                )
            }),
            final(t).load@ == (Loaded { target: target@, ..Loaded::none() }),
            crate::protocol::spares_lower(r),
    {
        let r = self.symlink_steps(t, parent, link_name);
        t.carry(Load::of_target(target));
        r
    }

    /// Creates a file.
    pub open spec fn making_file(place: Place, mode: u32, w: World) -> Flow<Meta> {
        Self::making(place, Action::CreateFile(Spot::upper(Which::First)), Some(mode), w).bind(
            |u: (), w: World| Action::Stat(Spot::upper(Which::First)).meta(w),
        )
    }

    /// Creates a file to be opened.
    pub fn create(&mut self, t: &mut Tape, parent: u64, name: &[u8], mode: u32, umask: u32) -> (r:
        Result<FileAttr, Stop>)
        requires
            old(self).wf(),
        ensures
            ({
                let rel = old(self).inodes@.child(parent, name@);
                Self::entered(
                    *old(self),
                    *final(self),
                    rel,
                    Self::making_file(
                        LayerManager::place(rel),
                        mode & !umask & 0o7777,
                        old(t).world(),
                    ),
                    r,
                    final(t).world(),
                )
            }),
            crate::protocol::spares_lower(r),
    {
        let up = Spot::upper(Which::First);
        let rel = self.inodes.child_path(parent, name);
        self.make(t, &rel, Action::CreateFile(up), Some(mode & !umask & 0o7777))?;
        let meta = t.meta(Action::Stat(up))?;
        let ino = self.inodes.get_ino(&rel);
        Ok(make_attr(ino, meta))
    }

    /// Ends with the given code if a directory is found under the first path.
    pub open spec fn refusing_dir(place: Place, code: i32, w: World) -> Flow<()> {
        LayerManager::resolving(place, Which::First, w).bind(
            |at: Option<Layer>, w: World|
                match at {
                    None => Flow::Got((), w),
                    Some(layer) => Action::Lstat(Spot::entry(layer, Which::First)).probe(w).bind(
                        |m: Option<Meta>, w: World|
                            if m matches Some(meta) && meta.kind is Directory {
                                Flow::Fail(code, w)
                            } else {
                                Flow::Got((), w)
                            },
                    ),
                },
        )
    }

    /// Removes the upper entry, if there is one.
    pub open spec fn dropping(remove: Action, w: World) -> Flow<()> {
        Action::Lstat(Spot::upper(Which::First)).probe(w).bind(
            |m: Option<Meta>, w: World|
                if m is Some {
                    remove.run(w)
                } else {
                    Flow::Got((), w)
                },
        )
    }

    /// Hides the lower entry, if there is one.
    pub open spec fn covering(place: Place, w: World) -> Flow<()> {
        Action::Lstat(Spot::lower(Which::First)).probe(w).bind(
            |m: Option<Meta>, w: World|
                if m is Some {
                    LayerManager::whiting_out(place.named, Which::First, w)
                } else {
                    Flow::Got((), w)
                },
        )
    }

    /// Removes an entry that is no directory.
    pub open spec fn unlinking(place: Place, w: World) -> Flow<()> {
        Self::refusing_dir(place, EISDIR, w).bind(
            |u: (), w: World|
                Self::dropping(Action::RemoveFile(Spot::upper(Which::First)), w).bind(
                    |u: (), w: World| Self::covering(place, w),
                ),
        )
    }

    /// The outcome of an operation that makes inode numbers invalid when it succeeds.
    pub open spec fn cleaned(
        pre: OverlayOps,
        post: OverlayOps,
        cleaned: Inodes,
        flow: Flow<()>,
        r: Result<(), Stop>,
        w: World,
    ) -> bool {
        &&& post.wf()
        &&& post.layers == pre.layers
        &&& match r {
            Ok(_) => flow == Flow::Got((), w) && post.inodes@ == cleaned,
            Err(s) => flow == s.flow::<()>(w) && post.inodes@ == pre.inodes@,
        }
    }

    fn refuse_dir(&self, t: &mut Tape, rel: &FsPath, code: i32) -> (r: Result<(), Stop>)
        ensures
            final(t).flow(r) == Self::refusing_dir(
                LayerManager::place(rel@),
                code,
                old(t).world(),
            ),
            crate::protocol::spares_lower(r),
    {
        if let Some(layer) = self.layers.resolve(t, rel, Which::First)? {
            if let Some(meta) = t.probe(Action::Lstat(Spot::entry(layer, Which::First)))? {
                if meta.kind == FileKind::Directory {
                    return Err(Stop::Fail(code));
                }
            }
        }
        Ok(())
    }

    pub(crate) fn drop_upper(&self, t: &mut Tape, remove: Action) -> (r: Result<(), Stop>)
        requires
            remove.spares_lower(),
        ensures
            final(t).flow(r) == Self::dropping(remove, old(t).world()),
            crate::protocol::spares_lower(r),
    {
        if t.probe(Action::Lstat(Spot::upper(Which::First)))?.is_some() {
            t.run(remove)?;
        }
        Ok(())
    }

    pub(crate) fn cover_lower(&self, t: &mut Tape, rel: &FsPath) -> (r: Result<(), Stop>)
        ensures
            final(t).flow(r) == Self::covering(LayerManager::place(rel@), old(t).world()),
            crate::protocol::spares_lower(r),
    {
        if t.probe(Action::Lstat(Spot::lower(Which::First)))?.is_some() {
            self.layers.create_whiteout(t, rel, Which::First)?;
        }
        Ok(())
    }

    /// Removes an entry that is no directory. A lower entry is hidden.
    pub fn unlink(&mut self, t: &mut Tape, parent: u64, name: &[u8]) -> (r: Result<(), Stop>)
        requires
            old(self).wf(),
        ensures
            ({
                let rel = old(self).inodes@.child(parent, name@);
                Self::cleaned(
                    *old(self),
                    *final(self),
                    old(self).inodes@.removed(rel),
                    Self::unlinking(LayerManager::place(rel), old(t).world()),
                    r,
                    final(t).world(),
                )
            }),
            crate::protocol::spares_lower(r),
    {
        let rel = self.inodes.child_path(parent, name);
        self.refuse_dir(t, &rel, EISDIR)?;
        self.drop_upper(t, Action::RemoveFile(Spot::upper(Which::First)))?;
        self.cover_lower(t, &rel)?;
        self.inodes.remove_ino(&rel);
        Ok(())
    }

    /// Ends with `EEXIST` if the second path must not be replaced but is found.
    pub open spec fn refusing_taken(flags: u32, place: Place, w: World) -> Flow<()> {
        if flags & RENAME_NOREPLACE != 0 {
            LayerManager::resolving(place, Which::Second, w).bind(
                |at: Option<Layer>, w: World|
                    if at is Some {
                        Flow::Fail(EEXIST, w)
                    } else {
                        Flow::Got((), w)
                    },
            )
        } else {
            Flow::Got((), w)
        }
    }

    /// Makes sure that the upper layer has all of the first entry: a directory with all that
    /// is seen in it, whichever layer holds it, anything else as it is brought up.
    pub open spec fn fetching(place: Place, w: World) -> Flow<()> {
        let up = Spot::upper(Which::First);
        let low = Spot::lower(Which::First);
        LayerManager::resolving(place, Which::First, w).bind(
            |at: Option<Layer>, w: World|
                match at {
                    None => Flow::Fail(ENOENT, w),
                    Some(Layer::Upper) => Self::completing(place, w),
                    Some(Layer::Lower) => Action::Lstat(low).probe(w).bind(
                        |m: Option<Meta>, w: World|
                            if m matches Some(meta) && meta.kind is Directory {
                                Action::CopyTree(low, up).run(w)
                            } else {
                                LayerManager::promoting(place, Which::First, w)
                            },
                    ),
                },
        )
    }

    /// Makes sure that the upper layer has all that is seen in the first entry, which it has
    /// itself, where that is a directory of both layers.
    pub open spec fn completing(place: Place, w: World) -> Flow<()> {
        let up = Spot::upper(Which::First);
        let low = Spot::lower(Which::First);
        Self::is_open(place, w).bind(
            |open: bool, w: World|
                if open {
                    Action::CopyTree(low, up).run(w)
                } else {
                    Flow::Got((), w)
                },
        )
    }

    /// Whether the first entry is a directory of both layers in which what the lower one
    /// holds is seen.
    pub open spec fn is_open(place: Place, w: World) -> Flow<bool> {
        Action::Lstat(Spot::upper(Which::First)).probe(w).bind(
            |m: Option<Meta>, w: World|
                if m matches Some(meta) && meta.kind is Directory {
                    Action::Lstat(Spot::lower(Which::First)).probe(w).bind(
                        |m: Option<Meta>, w: World|
                            if m matches Some(meta) && meta.kind is Directory {
                                crate::listing::closed_off(place.depth, w).bind(
                                    |closed: bool, w: World| Flow::Got(!closed, w),
                                )
                            } else {
                                Flow::Got(false, w)
                            },
                    )
                } else {
                    Flow::Got(false, w)
                },
        )
    }

    /// Makes sure that the upper layer has the entry at the first path, if it is seen, of a
    /// directory that is brought up with all that is seen in it; says whether it is a
    /// directory of the lower layer whose entries are to be brought up in turn.
    pub open spec fn copying_entry(place: Place, w: World) -> Flow<bool> {
        LayerManager::resolving(place, Which::First, w).bind(
            |at: Option<Layer>, w: World|
                match at {
                    None => Flow::Got(false, w),
                    Some(Layer::Upper) => Self::is_open(place, w),
                    Some(Layer::Lower) => Action::Lstat(Spot::lower(Which::First)).meta(w).bind(
                        |meta: Meta, w: World|
                            LayerManager::carrying(Which::First, meta, w).bind(
                                |u: (), w: World| Flow::Got(meta.kind is Directory, w),
                            ),
                    ),
                },
        )
    }

    fn open_dir(&self, t: &mut Tape, rel: &FsPath) -> (r: Result<bool, Stop>)
        ensures
            final(t).flow(r) == Self::is_open(LayerManager::place(rel@), old(t).world()),
            crate::protocol::spares_lower(r),
    {
        match t.probe(Action::Lstat(Spot::upper(Which::First)))? {
            Some(meta) => if meta.kind != FileKind::Directory {
                return Ok(false);
            },
            None => {
                return Ok(false);
            },
        }
        match t.probe(Action::Lstat(Spot::lower(Which::First)))? {
            Some(meta) => if meta.kind != FileKind::Directory {
                return Ok(false);
            },
            None => {
                return Ok(false);
            },
        }
        let closed = if crate::xattr::is_opaque_dir(t, Spot::upper(Which::First))? {
            true
        } else {
            self.layers.is_covered(t, rel, Which::First)?
        };
        Ok(!closed)
    }

    /// Brings up one entry of a directory that is brought up with all that is seen in it:
    /// what is hidden is left out, and what the upper layer has stays. Says whether it is a
    /// directory of the lower layer whose entries are to be brought up in turn.
    pub fn copy_tree_entry(&self, t: &mut Tape, rel: &FsPath) -> (r: Result<bool, Stop>)
        ensures
            final(t).flow(r) == Self::copying_entry(LayerManager::place(rel@), old(t).world()),
            crate::protocol::spares_lower(r),
    {
        match self.layers.resolve(t, rel, Which::First)? {
            None => Ok(false),
            Some(Layer::Upper) => self.open_dir(t, rel),
            Some(Layer::Lower) => {
                let meta = t.meta(Action::Lstat(Spot::lower(Which::First)))?;
                self.layers.carry(t, Which::First, meta)?;
                Ok(meta.kind == FileKind::Directory)
            },
        }
    }

    /// Moves the first entry to the second path.
    pub open spec fn renaming(flags: u32, place: Place, place_new: Place, w: World) -> Flow<()> {
        let from = Spot::upper(Which::First);
        let to = Spot::upper(Which::Second);
        Self::refusing_taken(flags, place_new, w).bind(
            |u: (), w: World|
                if flags & RENAME_EXCHANGE != 0 {
                    Flow::Fail(ENOTSUP, w)
                } else {
                    Self::fetching(place, w).bind(
                        |u: (), w: World|
                            Action::MakeParents(to).run(w).bind(
                                |u: (), w: World|
                                    Action::Rename(from, to).run(w).bind(
                                        |u: (), w: World|
                                            Self::covering(place, w).settle(
                                                |r: Result<(), i32>, w: World|
                                                    LayerManager::clearing(
                                                        place_new.named,
                                                        Which::Second,
                                                        w,
                                                    ),
                                            ),
                                    ),
                            ),
                    )
                },
        )
    }

    fn fetch(&self, t: &mut Tape, rel: &FsPath) -> (r: Result<(), Stop>)
        ensures
            final(t).flow(r) == Self::fetching(LayerManager::place(rel@), old(t).world()),
            crate::protocol::spares_lower(r),
    {
        let up = Spot::upper(Which::First);
        let low = Spot::lower(Which::First);
        match self.layers.resolve(t, rel, Which::First)? {
            None => Err(Stop::Fail(ENOENT)),
            Some(Layer::Upper) => {
                if self.open_dir(t, rel)? {
                    t.run(Action::CopyTree(low, up))
                } else {
                    Ok(())
                }
            },
            Some(Layer::Lower) => {
                let is_dir = match t.probe(Action::Lstat(low))? {
                    Some(meta) => meta.kind == FileKind::Directory,
                    None => false,
                };
                if is_dir {
                    t.run(Action::CopyTree(low, up))
                } else {
                    self.layers.copy_on_write(t, rel, Which::First)
                }
            },
        }
    }

    fn move_entry(&self, t: &mut Tape, old_rel: &FsPath, new_rel: &FsPath, flags: u32) -> (r:
        Result<(), Stop>)
        ensures
            final(t).flow(r) == Self::renaming(
                flags,
                LayerManager::place(old_rel@),
                LayerManager::place(new_rel@),
                old(t).world(),
            ),
            crate::protocol::spares_lower(r),
    {
        let from = Spot::upper(Which::First);
        let to = Spot::upper(Which::Second);
        if flags & RENAME_NOREPLACE != 0 {
            if self.layers.resolve(t, new_rel, Which::Second)?.is_some() {
                return Err(Stop::Fail(EEXIST));
            }
        }
        if flags & RENAME_EXCHANGE != 0 {
            return Err(Stop::Fail(ENOTSUP));
        }
        self.fetch(t, old_rel)?;
        t.run(Action::MakeParents(to))?;
        t.run(Action::Rename(from, to))?;
        if let Err(Stop::Ask(a)) = self.cover_lower(t, old_rel) {
            return Err(Stop::Ask(a));
        }
        self.layers.clear_whiteout(t, new_rel, Which::Second)
    }

    /// The two paths that moving an entry is about.
    pub fn rename_paths(&self, parent: u64, name: &[u8], newparent: u64, newname: &[u8]) -> (r: (
        FsPath,
        FsPath,
    ))
        ensures
            r.0@ == self.inodes@.child(parent, name@),
            r.1@ == self.inodes@.child(newparent, newname@),
    {
        (self.inodes.child_path(parent, name), self.inodes.child_path(newparent, newname))
    }

    /// Moves an entry. A lower entry under the old path is hidden, and the numbers of both
    /// paths and of all below them are forgotten. A directory that is moved to where the lower
    /// layer has one does not replace that: unless it bears a mark, what both hold is seen.
    pub fn rename(
        &mut self,
        t: &mut Tape,
        parent: u64,
        name: &[u8],
        newparent: u64,
        newname: &[u8],
        flags: u32,
    ) -> (r: Result<(), Stop>)
        requires
            old(self).wf(),
        ensures
            ({
                let old_rel = old(self).inodes@.child(parent, name@);
                let new_rel = old(self).inodes@.child(newparent, newname@);
                Self::cleaned(
                    *old(self),
                    *final(self),
                    old(self).inodes@.pruned(new_rel).pruned(old_rel),
                    Self::renaming(
                        flags,
                        LayerManager::place(old_rel),
                        LayerManager::place(new_rel),
                        old(t).world(),
                    ),
                    r,
                    final(t).world(),
                )
            }),
            crate::protocol::spares_lower(r),
    {
        let (old_rel, new_rel) = self.rename_paths(parent, name, newparent, newname);
        self.move_entry(t, &old_rel, &new_rel, flags)?;
        self.inodes.remove_subtree(&new_rel);
        self.inodes.remove_subtree(&old_rel);
        Ok(())
    }

    /// Gives the first entry, which is brought up, the second path as well.
    pub open spec fn linking(place: Place, place_new: Place, w: World) -> Flow<Meta> {
        let from = Spot::upper(Which::First);
        let to = Spot::upper(Which::Second);
        LayerManager::promoting(place, Which::First, w).bind(
            |u: (), w: World|
                Action::MakeParents(to).run(w).bind(
                    |u: (), w: World|
                        Action::HardLink(from, to).run(w).bind(
                            |u: (), w: World|
                                LayerManager::clearing(place_new.named, Which::Second, w).bind(
                                    |u: (), w: World| Action::Lstat(to).meta(w),
                                ),
                        ),
                ),
        )
    }

    /// The two paths that giving an entry a second path is about.
    pub fn link_paths(&self, ino: u64, newparent: u64, newname: &[u8]) -> (r: (FsPath, FsPath))
        ensures
            r.0@ == self.path_or_root(ino),
            r.1@ == self.inodes@.child(newparent, newname@),
    {
        (self.entry_path(ino), self.inodes.child_path(newparent, newname))
    }

    /// Gives an entry a second path.
    pub fn link(&mut self, t: &mut Tape, ino: u64, newparent: u64, newname: &[u8]) -> (r: Result<
        FileAttr,
        Stop,
    >)
        requires
            old(self).wf(),
        ensures
            ({
                let rel = old(self).inodes@.child(newparent, newname@);
                Self::entered(
                    *old(self),
                    *final(self),
                    rel,
                    old(self).from_path(
                        ino,
                        old(t).world(),
                        |path: Seq<u8>, w: World|
                            Self::linking(LayerManager::place(path), LayerManager::place(rel), w),
                    ),
                    r,
                    final(t).world(),
                )
            }),
            crate::protocol::spares_lower(r),
    {
        let from = Spot::upper(Which::First);
        let to = Spot::upper(Which::Second);
        let src_rel = self.path(ino)?;
        self.layers.copy_on_write(t, &src_rel, Which::First)?;
        let dst_rel = self.inodes.child_path(newparent, newname);
        t.run(Action::MakeParents(to))?;
        t.run(Action::HardLink(from, to))?;
        self.layers.clear_whiteout(t, &dst_rel, Which::Second)?;
        let meta = t.meta(Action::Lstat(to))?;
        let new_ino = self.inodes.get_ino(&dst_rel);
        Ok(make_attr(new_ino, meta))
    }
}

} // verus!
