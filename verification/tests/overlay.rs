//! Overlays over an in-memory host: whole sessions, from mounting to committing.

use overlayfs_fuse::commit::{commit_entry, commit_paths, commit_root, sync_metadata};
use overlayfs_fuse::digest::{FileHash, CHUNK};
use overlayfs_fuse::errno::{
    EACCES, EEXIST, EINVAL, EIO, EISDIR, ENODATA, ENOENT, ENOTEMPTY, ENOTSUP, ERANGE,
};
use overlayfs_fuse::attr::FileAttr;
use overlayfs_fuse::files::OverlayFiles;
use overlayfs_fuse::filter::CommitFilter;
use overlayfs_fuse::fuse_ops::{
    OverlayOps, SetAttr, O_TRUNC, O_WRONLY, RENAME_EXCHANGE, RENAME_NOREPLACE, X_OK,
};
use overlayfs_fuse::inode::{InodeMode, ROOT_INO};
use overlayfs_fuse::layers::LayerManager;
use overlayfs_fuse::overlay::{OverlayAction, OverlayFS};
use overlayfs_fuse::path::FsPath;
use overlayfs_fuse::protocol::{
    Action, DirItem, FileKind, Layer, Load, Mark, Meta, Reply, Site, Space, Spot, Stamp, Stop, Tape,
    TimeSet, Which,
};
use overlayfs_fuse::walk::{TreeWalk, WalkStep};
use overlayfs_fuse::xattr::{mark_bytes, XattrReply};
use std::collections::BTreeMap;

const ENOTDIR: i32 = 20;

type Key = Vec<Vec<u8>>;

fn p(text: &str) -> FsPath {
    FsPath::from_text(text)
}

fn key(text: &str) -> Key {
    p(text).components()
}

#[derive(Clone, Debug, PartialEq)]
struct Entry {
    kind: FileKind,
    /// The content of a file or the target of a link.
    data: Vec<u8>,
    mode: u32,
    uid: u32,
    gid: u32,
    rdev: u64,
    atime: Stamp,
    mtime: Stamp,
    xattrs: BTreeMap<Vec<u8>, Vec<u8>>,
}

/// A filesystem in memory, with what the tests want to know of its use.
struct Host {
    ids: BTreeMap<Key, u64>,
    table: BTreeMap<u64, Entry>,
    next: u64,
    now: i64,
    mounted: bool,
    /// Whether the mount point stays busy after the session has ended.
    busy: bool,
    log: Vec<Action>,
    faults: Vec<(Action, i32)>,
}

/// What a request is about.
struct Cx {
    layers: LayerManager,
    first: FsPath,
    second: FsPath,
}

/// What lives as long as one operation.
struct Session {
    load: Load,
    hand: Option<Vec<u8>>,
    reading: Option<u64>,
    writing: Option<u64>,
    pos: u64,
    pair: Option<(Spot, Spot)>,
    value: Vec<u8>,
}

impl Session {
    fn new(pair: Option<(Spot, Spot)>) -> Session {
        Session {
            load: Load::none(),
            hand: None,
            reading: None,
            writing: None,
            pos: 0,
            pair,
            value: Vec::new(),
        }
    }
}

fn spot_path(cx: &Cx, s: Spot) -> Key {
    cx.layers.spot_path(s, &cx.first, &cx.second).expect("a name").components()
}

impl Host {
    fn new() -> Host {
        let mut h = Host {
            ids: BTreeMap::new(),
            table: BTreeMap::new(),
            next: 1,
            now: 1000,
            mounted: false,
            busy: false,
            log: Vec::new(),
            faults: Vec::new(),
        };
        h.add(&key("/"), FileKind::Directory, b"", 0o755);
        h.add(&key("/tmp"), FileKind::Directory, b"", 0o777);
        h
    }

    fn add(&mut self, k: &Key, kind: FileKind, data: &[u8], mode: u32) -> u64 {
        self.now += 1;
        let t = Stamp { secs: self.now, nanos: 5 };
        let id = self.next;
        self.next += 1;
        self.table.insert(
            id,
            Entry {
                kind,
                data: data.to_vec(),
                mode,
                uid: 1000,
                gid: 100,
                rdev: 0,
                atime: t,
                mtime: t,
                xattrs: BTreeMap::new(),
            },
        );
        self.ids.insert(k.clone(), id);
        id
    }

    fn dir(&mut self, path: &str) {
        assert_eq!(self.make_dirs(&key(path)), Ok(()));
    }

    fn file(&mut self, path: &str, data: &str) {
        let k = key(path);
        assert!(self.ids.contains_key(&k[..k.len() - 1].to_vec()));
        self.add(&k, FileKind::RegularFile, data.as_bytes(), 0o644);
    }

    fn link(&mut self, path: &str, target: &str) {
        self.add(&key(path), FileKind::Symlink, target.as_bytes(), 0o777);
    }

    fn at(&self, k: &Key) -> Option<&Entry> {
        self.ids.get(k).map(|id| &self.table[id])
    }

    fn at_mut(&mut self, k: &Key) -> Option<&mut Entry> {
        let id = *self.ids.get(k)?;
        self.table.get_mut(&id)
    }

    fn get(&self, path: &str) -> Option<&Entry> {
        self.at(&key(path))
    }

    fn edit(&mut self, path: &str) -> &mut Entry {
        self.at_mut(&key(path)).expect("an entry")
    }

    fn text(&self, path: &str) -> Option<String> {
        self.get(path).map(|e| String::from_utf8(e.data.clone()).expect("text"))
    }

    /// Everything at and below a path, as it is.
    fn snapshot(&self, path: &str) -> Vec<(Key, Entry)> {
        let k = key(path);
        self.ids
            .iter()
            .filter(|(q, _)| q.starts_with(&k))
            .map(|(q, id)| (q.clone(), self.table[id].clone()))
            .collect()
    }

    fn meta(&self, id: u64) -> Meta {
        let e = &self.table[&id];
        let size = e.data.len() as u64;
        Meta {
            kind: e.kind,
            mode: e.mode,
            size,
            blocks: (size + 511) / 512,
            nlink: self.ids.values().filter(|i| **i == id).count() as u64,
            uid: e.uid,
            gid: e.gid,
            rdev: e.rdev,
            blksize: 4096,
            atime: e.atime,
            mtime: e.mtime,
            ctime: self.now,
        }
    }

    /// The entry that a path leads to, through links.
    fn follow(&self, k: &Key) -> Result<u64, i32> {
        let mut k = k.clone();
        for _ in 0..8 {
            let id = *self.ids.get(&k).ok_or(ENOENT)?;
            let e = &self.table[&id];
            if e.kind != FileKind::Symlink {
                return Ok(id);
            }
            let target = FsPath::from_bytes(e.data.clone()).components();
            if target.first().map(|c| c.as_slice()) == Some(b"/") {
                k = target;
            } else {
                k.pop();
                k.extend(target);
            }
        }
        Err(EIO)
    }

    fn make_dirs(&mut self, k: &Key) -> Result<(), i32> {
        for n in 1..=k.len() {
            let q = k[..n].to_vec();
            match self.at(&q) {
                Some(e) if e.kind == FileKind::Directory => (),
                Some(_) => return Err(ENOTDIR),
                None => {
                    self.add(&q, FileKind::Directory, b"", 0o755);
                }
            }
        }
        Ok(())
    }

    fn create(&mut self, k: &Key, kind: FileKind, data: &[u8], mode: u32) -> Result<(), i32> {
        if self.ids.contains_key(k) {
            return Err(EEXIST);
        }
        match self.at(&k[..k.len() - 1].to_vec()) {
            Some(e) if e.kind == FileKind::Directory => {
                self.add(k, kind, data, mode);
                Ok(())
            }
            Some(_) => Err(ENOTDIR),
            None => Err(ENOENT),
        }
    }

    fn children(&self, k: &Key) -> Vec<Vec<u8>> {
        self.ids
            .keys()
            .filter(|q| q.len() == k.len() + 1 && q.starts_with(k))
            .map(|q| q[k.len()].clone())
            .collect()
    }

    fn read_dir(&self, k: &Key) -> Result<Vec<DirItem>, i32> {
        let e = self.at(k).ok_or(ENOENT)?;
        if e.kind != FileKind::Directory {
            return Err(ENOTDIR);
        }
        let mut items = Vec::new();
        for name in self.children(k) {
            let mut q = k.clone();
            q.push(name.clone());
            items.push(DirItem::Entry(name, Ok(self.at(&q).expect("a child").kind)));
        }
        Ok(items)
    }

    fn remove_tree(&mut self, k: &Key) -> Result<(), i32> {
        if !self.ids.contains_key(k) {
            return Err(ENOENT);
        }
        self.ids.retain(|q, _| !q.starts_with(k));
        Ok(())
    }

    fn rename(&mut self, from: &Key, to: &Key) -> Result<(), i32> {
        let e = self.at(from).ok_or(ENOENT)?;
        if let Some(old) = self.at(to) {
            if old.kind == FileKind::Directory {
                if e.kind != FileKind::Directory {
                    return Err(EISDIR);
                }
                if !self.children(to).is_empty() {
                    return Err(ENOTEMPTY);
                }
            } else if e.kind == FileKind::Directory {
                return Err(ENOTDIR);
            }
        }
        let moved: Vec<(Key, u64)> = self
            .ids
            .iter()
            .filter(|(q, _)| q.starts_with(from))
            .map(|(q, id)| (q.clone(), *id))
            .collect();
        for (q, _) in &moved {
            self.ids.remove(q);
        }
        for (q, id) in moved {
            let mut k = to.clone();
            k.extend_from_slice(&q[from.len()..]);
            self.ids.insert(k, id);
        }
        Ok(())
    }

    fn copy_file(&mut self, from: &Key, to: &Key) -> Result<(), i32> {
        let src = self.table[&self.follow(from)?].clone();
        if self.at(to).is_none() {
            self.create(to, FileKind::RegularFile, b"", 0o644)?;
        }
        let dst = self.at_mut(to).expect("created");
        dst.data = src.data;
        dst.mode = src.mode;
        Ok(())
    }

    fn digest(&self, k: &Key) -> Result<Vec<u8>, i32> {
        let data = &self.table[&self.follow(k)?].data;
        let mut hash = FileHash::new();
        let mut at = 0;
        loop {
            let end = (at + CHUNK).min(data.len());
            let more = hash.feed(&data[at..end]);
            at = end;
            if !more {
                return Ok(hash.finish());
            }
        }
    }

    fn answer(&mut self, a: Action, cx: &Cx, s: &mut Session) -> Result<Reply, i32> {
        let at = |x: Spot| spot_path(cx, x);
        let done = Ok(Reply::Done);
        match a {
            Action::Lstat(x) => {
                let id = *self.ids.get(&at(x)).ok_or(ENOENT)?;
                Ok(Reply::Meta(self.meta(id)))
            }
            Action::Stat(x) => Ok(Reply::Meta(self.meta(self.follow(&at(x))?))),
            Action::ReadDir(x) => Ok(Reply::Names(self.read_dir(&at(x))?)),
            Action::MakeParents(x) => {
                let k = at(x);
                self.make_dirs(&k[..k.len() - 1].to_vec())?;
                done
            }
            Action::MakeDir(x) => {
                self.create(&at(x), FileKind::Directory, b"", 0o755)?;
                done
            }
            Action::MakeDirs(x) => {
                self.make_dirs(&at(x))?;
                done
            }
            Action::CreateFile(x) => {
                let k = at(x);
                match self.at_mut(&k) {
                    Some(e) if e.kind == FileKind::Directory => return Err(EISDIR),
                    Some(e) => e.data.clear(),
                    None => self.create(&k, FileKind::RegularFile, b"", 0o644)?,
                }
                done
            }
            Action::MakeNode(x, mode, rdev) => {
                let kind = match mode & 0o170000 {
                    0o010000 => FileKind::NamedPipe,
                    0o020000 => FileKind::CharDevice,
                    0o060000 => FileKind::BlockDevice,
                    0o140000 => FileKind::Socket,
                    _ => FileKind::RegularFile,
                };
                self.create(&at(x), kind, b"", mode & 0o7777)?;
                self.at_mut(&at(x)).expect("created").rdev = rdev as u64;
                done
            }
            Action::ReadLink(x) => {
                let e = self.at(&at(x)).ok_or(ENOENT)?;
                if e.kind != FileKind::Symlink {
                    return Err(EINVAL);
                }
                s.hand = Some(e.data.clone());
                Ok(Reply::Data(e.data.clone()))
            }
            Action::MakeLink(x) => {
                let target = s.load.link_target(&s.hand);
                self.create(&at(x), FileKind::Symlink, &target, 0o777)?;
                done
            }
            Action::CopyFile(x, y) => {
                self.copy_file(&at(x), &at(y))?;
                done
            }
            Action::CopyTree(_, _) => {
                self.copy_tree(cx)?;
                done
            }
            Action::CopyXattrs(x, y) => {
                let mut inner = Session::new(Some((x, y)));
                self.drive_in(cx, &mut inner, &mut |t| OverlayFS::copy_xattrs(t, x))?;
                done
            }
            Action::RemoveFile(x) => {
                let k = at(x);
                if self.at(&k).ok_or(ENOENT)?.kind == FileKind::Directory {
                    return Err(EISDIR);
                }
                self.ids.remove(&k);
                done
            }
            Action::RemoveTree(x) => {
                self.remove_tree(&at(x))?;
                done
            }
            Action::Rename(x, y) => {
                self.rename(&at(x), &at(y))?;
                done
            }
            Action::HardLink(x, y) => {
                let id = *self.ids.get(&at(x)).ok_or(ENOENT)?;
                let k = at(y);
                if self.ids.contains_key(&k) {
                    return Err(EEXIST);
                }
                self.ids.insert(k, id);
                done
            }
            Action::SetMode(x, mode) => {
                let id = self.follow(&at(x))?;
                self.table.get_mut(&id).expect("followed").mode = mode & 0o7777;
                done
            }
            Action::SetOwner(x, uid, gid) => {
                let e = self.at_mut(&at(x)).ok_or(ENOENT)?;
                if uid != u32::MAX {
                    e.uid = uid;
                }
                if gid != u32::MAX {
                    e.gid = gid;
                }
                done
            }
            Action::SetTimes(x, atime, mtime) => {
                let now = Stamp { secs: self.now, nanos: 0 };
                let e = self.at_mut(&at(x)).ok_or(ENOENT)?;
                let of = |t: TimeSet, was: Stamp| match t {
                    TimeSet::Keep => was,
                    TimeSet::Now => now,
                    TimeSet::At(s) => s,
                };
                e.atime = of(atime, e.atime);
                e.mtime = of(mtime, e.mtime);
                done
            }
            Action::SetLen(x, len) => {
                self.at_mut(&at(x)).ok_or(ENOENT)?.data.resize(len as usize, 0);
                done
            }
            Action::ReadMark(x, mark) => {
                let e = self.at(&at(x)).ok_or(ENOENT)?;
                let v = e.xattrs.get(&mark_bytes(mark)).ok_or(ENODATA)?;
                if v.len() > 2 {
                    return Err(ERANGE);
                }
                Ok(Reply::Data(v.clone()))
            }
            Action::SetMark(x, mark) => {
                let e = self.at_mut(&at(x)).ok_or(ENOENT)?;
                e.xattrs.insert(mark_bytes(mark), b"y".to_vec());
                done
            }
            Action::EmptyDir(x) => {
                let k = at(x);
                if self.at(&k).ok_or(ENOENT)?.kind != FileKind::Directory {
                    return Err(ENOTDIR);
                }
                self.ids.retain(|q, _| q.len() <= k.len() || !q.starts_with(&k));
                done
            }
            Action::OpenRead(x) => {
                s.reading = Some(self.follow(&at(x))?);
                s.pos = 0;
                done
            }
            Action::OpenWrite(x) => {
                s.writing = Some(self.follow(&at(x))?);
                s.pos = 0;
                done
            }
            Action::Truncate(x) => {
                let id = self.follow(&at(x))?;
                self.table.get_mut(&id).expect("followed").data.clear();
                done
            }
            Action::SeekTo(n) => {
                s.pos = n;
                done
            }
            Action::ReadSome(n) => {
                let data = &self.table[&s.reading.expect("open")].data;
                let from = (s.pos as usize).min(data.len());
                let to = (from + n as usize).min(data.len());
                Ok(Reply::Data(data[from..to].to_vec()))
            }
            Action::WriteData => {
                self.now += 1;
                let t = Stamp { secs: self.now, nanos: 0 };
                let e = self.table.get_mut(&s.writing.expect("open")).expect("open");
                let end = s.pos as usize + s.load.data.len();
                if e.data.len() < end {
                    e.data.resize(end, 0);
                }
                e.data[s.pos as usize..end].copy_from_slice(&s.load.data);
                e.mtime = t;
                Ok(Reply::Count(s.load.data.len() as i64))
            }
            Action::SyncAll | Action::Fsync(_) => done,
            Action::Allocate(off, len, _) => {
                let e = self.table.get_mut(&s.writing.expect("open")).expect("open");
                let end = (off + len) as usize;
                if e.data.len() < end {
                    e.data.resize(end, 0);
                }
                done
            }
            Action::SeekBy(off, _) => Ok(Reply::Count(off)),
            Action::CopyRange(from, to, len) => {
                let src = self.table[&s.reading.expect("open")].data.clone();
                let a = (from as usize).min(src.len());
                let b = (a + len as usize).min(src.len());
                let dst = self.table.get_mut(&s.writing.expect("open")).expect("open");
                let end = to as usize + (b - a);
                if dst.data.len() < end {
                    dst.data.resize(end, 0);
                }
                dst.data[to as usize..end].copy_from_slice(&src[a..b]);
                Ok(Reply::Count((b - a) as i64))
            }
            Action::SetXattr(x) => {
                let e = self.at_mut(&at(x)).ok_or(ENOENT)?;
                e.xattrs.insert(s.load.name.clone(), s.load.value.clone());
                done
            }
            Action::GetXattr(x, size) => {
                let e = self.at(&at(x)).ok_or(ENOENT)?;
                let v = e.xattrs.get(&s.load.name).ok_or(ENODATA)?;
                if v.len() > size as usize {
                    return Err(ERANGE);
                }
                Ok(Reply::Data(v.clone()))
            }
            Action::XattrSize(x) => {
                let e = self.at(&at(x)).ok_or(ENOENT)?;
                Ok(Reply::Count(e.xattrs.get(&s.load.name).ok_or(ENODATA)?.len() as i64))
            }
            Action::ListXattr(x) => {
                let mut out = Vec::new();
                for name in self.at(&at(x)).ok_or(ENOENT)?.xattrs.keys() {
                    out.extend_from_slice(name);
                    out.push(0);
                }
                Ok(Reply::Data(out))
            }
            Action::RemoveXattr(x) => {
                let e = self.at_mut(&at(x)).ok_or(ENOENT)?;
                e.xattrs.remove(&s.load.name).ok_or(ENODATA)?;
                done
            }
            Action::NthSize(k) => {
                let (_, v) = self.nth(cx, s, k)?;
                Ok(Reply::Count(v.len() as i64))
            }
            Action::NthValue(k, n) => {
                let (_, v) = self.nth(cx, s, k)?;
                if v.len() as i64 > n {
                    return Err(ERANGE);
                }
                s.value = v.clone();
                Ok(Reply::Data(v))
            }
            Action::SetNth(k) => {
                let (name, _) = self.nth(cx, s, k)?;
                let to = at(s.pair.expect("a pair").1);
                self.at_mut(&to).ok_or(ENOENT)?.xattrs.insert(name, s.value.clone());
                done
            }
            Action::SetNthEmpty(k) => {
                let (name, _) = self.nth(cx, s, k)?;
                let to = at(s.pair.expect("a pair").1);
                self.at_mut(&to).ok_or(ENOENT)?.xattrs.insert(name, Vec::new());
                done
            }
            Action::Digest(x) => Ok(Reply::Data(self.digest(&at(x))?)),
            Action::Space(layer) => Ok(Reply::Space(match layer {
                Layer::Lower => Space {
                    blocks: 100,
                    bfree: 1,
                    bavail: 2,
                    files: 70,
                    ffree: 3,
                    bsize: 1024,
                    namemax: 14,
                    frsize: 512,
                },
                Layer::Upper => Space {
                    blocks: 900,
                    bfree: 40,
                    bavail: 30,
                    files: 800,
                    ffree: 20,
                    bsize: 4096,
                    namemax: 255,
                    frsize: 2048,
                },
            })),
            _ => panic!("no request of an operation: {:?}", a),
        }
    }

    fn nth(&self, cx: &Cx, s: &Session, k: usize) -> Result<(Vec<u8>, Vec<u8>), i32> {
        let from = spot_path(cx, s.pair.expect("a pair").0);
        let e = self.at(&from).ok_or(ENOENT)?;
        let (name, value) = e.xattrs.iter().nth(k).ok_or(ENODATA)?;
        Ok((name.clone(), value.clone()))
    }

    fn copy_tree(&mut self, cx: &Cx) -> Result<(), i32> {
        let backend = cx.layers.backend.clone();
        let ops = OverlayOps::new(backend.clone(), InodeMode::Virtual);
        let first = cx.first.clone();
        self.copy_one(&ops, &backend, &first)?;
        let mut walk = TreeWalk::new(&first);
        loop {
            let (dir, descend) = match walk.next() {
                WalkStep::Done => return Ok(()),
                WalkStep::Enter(dir) => (Some(dir), None),
                WalkStep::Visit(dir, item) => (None, Some(commit_paths(dir, item).0)),
            };
            match (dir, descend) {
                (Some(dir), _) => {
                    let k = cx.layers.entry_path(Layer::Lower, &dir).components();
                    walk.enter(self.read_dir(&k)?);
                }
                (_, Some(rel)) => {
                    let go = self.copy_one(&ops, &backend, &rel)?;
                    walk.visited(go);
                }
                _ => unreachable!(),
            }
        }
    }

    fn copy_one(
        &mut self,
        ops: &OverlayOps,
        backend: &OverlayFiles,
        rel: &FsPath,
    ) -> Result<bool, i32> {
        let cx = Cx::of(backend.clone(), rel.clone(), rel.clone());
        self.drive(&cx, &mut |t| ops.copy_tree_entry(t, rel))
    }

    fn perform(&mut self, a: Action, cx: &Cx, s: &mut Session) -> Reply {
        self.log.push(a);
        if let Some((_, c)) = self.faults.iter().find(|(b, _)| *b == a) {
            return Reply::Failed(Some(*c));
        }
        match self.answer(a, cx, s) {
            Ok(r) => r,
            Err(c) => Reply::Failed(Some(c)),
        }
    }

    fn drive<T>(
        &mut self,
        cx: &Cx,
        f: &mut dyn FnMut(&mut Tape) -> Result<T, Stop>,
    ) -> Result<T, i32> {
        self.drive_in(cx, &mut Session::new(None), f)
    }

    fn drive_in<T>(
        &mut self,
        cx: &Cx,
        s: &mut Session,
        f: &mut dyn FnMut(&mut Tape) -> Result<T, Stop>,
    ) -> Result<T, i32> {
        let mut replies: Vec<Reply> = Vec::new();
        loop {
            let mut t = Tape::new(&replies);
            let r = f(&mut t);
            match r {
                Ok(v) => return Ok(v),
                Err(Stop::Fail(c)) => return Err(c),
                Err(Stop::Ask(a)) => {
                    s.load = t.load;
                    let reply = self.perform(a, cx, s);
                    replies.push(reply);
                }
            }
        }
    }

    /// Merges the upper directory of an overlay into another.
    fn merge(&mut self, overlay: &OverlayFS, into: Site) -> Result<(), i32> {
        let backend = OverlayFiles {
            lower: overlay.site_path(into),
            upper: overlay.site_path(Site::Upper),
            mount_point: overlay.site_path(Site::MountPoint),
        };
        let root = FsPath::empty();
        let cx = Cx::of(backend.clone(), root.clone(), root.clone());
        self.drive(&cx, &mut |t| commit_root(t))?;
        let mut walk = TreeWalk::new(&root);
        loop {
            let go = match walk.next() {
                WalkStep::Done => return Ok(()),
                WalkStep::Enter(dir) => {
                    let k = LayerManager::new(backend.clone())
                        .entry_path(Layer::Upper, &dir)
                        .components();
                    let items = self.read_dir(&k)?;
                    walk.enter(items);
                    continue;
                }
                WalkStep::Visit(dir, item) => {
                    let (first, second) = commit_paths(dir, item);
                    let cx = Cx::of(backend.clone(), first, second);
                    self.drive(&cx, &mut |t| overlay.commit_item(t, dir, item))?
                }
            };
            walk.visited(go);
        }
    }

    fn life(&mut self, overlay: &OverlayFS, a: Action) -> Result<Reply, i32> {
        let at = |s: Site| overlay.site_path(s).components();
        let done = Ok(Reply::Done);
        match a {
            Action::Exists(s) => {
                if self.ids.contains_key(&at(s)) {
                    done
                } else {
                    Err(ENOENT)
                }
            }
            Action::Device(s) => {
                if !self.ids.contains_key(&at(s)) {
                    return Err(ENOENT);
                }
                let over = s == Site::MountPoint && self.mounted;
                Ok(Reply::Count(if over { 9 } else { 8 }))
            }
            Action::MakeSite(s) => {
                self.make_dirs(&at(s))?;
                done
            }
            Action::Spawn => {
                self.mounted = true;
                done
            }
            Action::EndSession => {
                self.mounted = self.busy;
                done
            }
            Action::Pause | Action::SyncSite(_) | Action::Report => done,
            Action::Unmount(detach) => {
                if detach || !self.busy {
                    self.mounted = false;
                    done
                } else {
                    Err(16)
                }
            }
            Action::RemoveSite(s) | Action::Obliterate(s) => {
                self.remove_tree(&at(s))?;
                done
            }
            Action::CloneSite(s, d) => {
                let (from, to) = (at(s), at(d));
                let copies: Vec<(Key, Entry)> = self
                    .ids
                    .iter()
                    .filter(|(q, _)| q.starts_with(&from))
                    .map(|(q, id)| (q.clone(), self.table[id].clone()))
                    .collect();
                for (q, e) in copies {
                    let mut k = to.clone();
                    k.extend_from_slice(&q[from.len()..]);
                    let id = self.add(&k, e.kind, b"", 0);
                    self.table.insert(id, e);
                }
                done
            }
            Action::Merge(s) => {
                self.merge(overlay, s)?;
                done
            }
            Action::MoveSite(s, d) => {
                self.rename(&at(s), &at(d))?;
                done
            }
            _ => panic!("no request of a session: {:?}", a),
        }
    }

    fn live(&mut self, overlay: &OverlayFS, a: Action) -> Reply {
        self.log.push(a);
        if let Some((_, c)) = self.faults.iter().find(|(b, _)| *b == a) {
            return Reply::Failed(Some(*c));
        }
        match self.life(overlay, a) {
            Ok(r) => r,
            Err(c) => Reply::Failed(Some(c)),
        }
    }
}

impl Cx {
    fn of(backend: OverlayFiles, first: FsPath, second: FsPath) -> Cx {
        Cx {
            layers: LayerManager::new(backend),
            first,
            second,
        }
    }
}

/// A host with one overlay over `/base/lower`, used through its mount point.
struct Desk {
    host: Host,
    overlay: OverlayFS,
    ops: Option<OverlayOps>,
}

fn fresh_overlay(lower: &str) -> OverlayFS {
    OverlayFS::new(p(lower), 4242, 1_700_000_000_123_456_789, &p("/tmp"))
}

impl Desk {
    fn new() -> Desk {
        let mut host = Host::new();
        host.dir("/base/lower");
        Desk { host, overlay: fresh_overlay("/base/lower"), ops: None }
    }

    fn life(
        &mut self,
        f: &mut dyn FnMut(&mut OverlayFS, &mut Tape) -> Result<(), Stop>,
    ) -> Result<(), i32> {
        let mut replies: Vec<Reply> = Vec::new();
        loop {
            let r = f(&mut self.overlay, &mut Tape::new(&replies));
            match r {
                Ok(()) => return Ok(()),
                Err(Stop::Fail(c)) => return Err(c),
                Err(Stop::Ask(a)) => {
                    let reply = self.host.live(&self.overlay, a);
                    replies.push(reply);
                }
            }
        }
    }

    fn mount(&mut self) {
        assert_eq!(self.life(&mut |o, t| o.mount(t)), Ok(()));
        assert!(self.overlay.is_serving());
        self.ops = Some(OverlayOps::new(self.overlay.files(), self.overlay.inode_mode()));
    }

    fn umount(&mut self) {
        assert_eq!(self.life(&mut |o, t| o.umount(t)), Ok(()));
        assert!(!self.overlay.is_serving());
        self.ops = None;
    }

    fn act(&mut self, action: OverlayAction) {
        assert_eq!(self.life(&mut |o, t| o.overlay_action(t, action)), Ok(()));
        self.ops = None;
    }

    fn is_mounted(&mut self) -> bool {
        let mut replies: Vec<Reply> = Vec::new();
        loop {
            let r = self.overlay.is_mounted(&mut Tape::new(&replies));
            match r {
                Ok(v) => return v,
                Err(Stop::Ask(a)) => replies.push(self.host.live(&self.overlay, a)),
                Err(Stop::Fail(c)) => panic!("code {}", c),
            }
        }
    }

    /// Runs an operation on at most two paths.
    fn op<T>(
        &mut self,
        first: &FsPath,
        second: &FsPath,
        f: &mut dyn FnMut(&mut OverlayOps, &mut Tape) -> Result<T, Stop>,
    ) -> Result<T, i32> {
        let before = self.host.snapshot("/base/lower");
        let cx = Cx::of(self.overlay.files(), first.clone(), second.clone());
        let ops = self.ops.as_mut().expect("mounted");
        let r = self.host.drive(&cx, &mut |t| f(&mut *ops, t));
        assert_eq!(before, self.host.snapshot("/base/lower"), "the lower layer is only read");
        r
    }

    fn on<T>(
        &mut self,
        first: &FsPath,
        f: &mut dyn FnMut(&mut OverlayOps, &mut Tape) -> Result<T, Stop>,
    ) -> Result<T, i32> {
        self.op(first, first, f)
    }

    fn path_of(&self, ino: u64) -> FsPath {
        let ops = self.ops.as_ref().expect("mounted");
        ops.entry_path(ino)
    }

    fn lookup(&mut self, parent: u64, name: &str) -> Result<FileAttr, i32> {
        let rel = self.path_of(parent).join(name.as_bytes());
        self.on(&rel, &mut |o, t| o.lookup(t, parent, name.as_bytes()))
    }

    /// The number of the directory that holds a path, and the last name of the path.
    fn split<'a>(&mut self, path: &'a str) -> Result<(u64, &'a str), i32> {
        let mut ino = ROOT_INO;
        let mut rest = path;
        while let Some(i) = rest.find('/') {
            ino = self.lookup(ino, &rest[..i])?.ino;
            rest = &rest[i + 1..];
        }
        Ok((ino, rest))
    }

    fn look(&mut self, path: &str) -> Result<FileAttr, i32> {
        if path.is_empty() {
            return self.on(&FsPath::empty(), &mut |o, t| o.getattr(t, ROOT_INO));
        }
        let (dir, name) = self.split(path)?;
        self.lookup(dir, name)
    }

    fn found(&mut self, path: &str) -> bool {
        self.look(path).is_ok()
    }

    fn write_at(&mut self, path: &str, offset: u64, data: &[u8]) -> Result<u32, i32> {
        let ino = self.look(path)?.ino;
        self.on(&p(path), &mut |o, t| o.write(t, ino, offset, data))
    }

    fn write(&mut self, path: &str, text: &str) -> Result<(), i32> {
        let (dir, name) = self.split(path)?;
        let rel = p(path);
        let ino = match self.lookup(dir, name) {
            Ok(attr) => {
                self.on(&rel, &mut |o, t| o.open(t, attr.ino, O_WRONLY | O_TRUNC))?;
                attr.ino
            }
            Err(ENOENT) => {
                self.on(&rel, &mut |o, t| o.create(t, dir, name.as_bytes(), 0o666, 0o022))?.ino
            }
            Err(c) => return Err(c),
        };
        if !text.is_empty() {
            let n = self.write_at(path, 0, text.as_bytes())?;
            assert_eq!(n as usize, text.len());
        }
        self.on(&rel, &mut |o, t| o.flush(t, ino))
    }

    fn read_at(&mut self, path: &str, offset: u64, size: u32) -> Result<Vec<u8>, i32> {
        let ino = self.look(path)?.ino;
        self.on(&p(path), &mut |o, t| o.read(t, ino, offset, size))
    }

    fn read(&mut self, path: &str) -> Result<String, i32> {
        let attr = self.look(path)?;
        if attr.kind == FileKind::Symlink {
            let target = self.readlink(path)?;
            return self.read(&target);
        }
        let mut out = Vec::new();
        loop {
            let part = self.read_at(path, out.len() as u64, 3)?;
            if part.is_empty() {
                return Ok(String::from_utf8(out).expect("text"));
            }
            out.extend(part);
        }
    }

    fn readlink(&mut self, path: &str) -> Result<String, i32> {
        let ino = self.look(path)?.ino;
        let target = self.on(&p(path), &mut |o, t| o.readlink(t, ino).map(|v| v.clone()))?;
        Ok(String::from_utf8(target).expect("text"))
    }

    fn symlink(&mut self, target: &str, path: &str) -> Result<FileAttr, i32> {
        let (dir, name) = self.split(path)?;
        self.on(&p(path), &mut |o, t| {
            o.symlink(t, dir, name.as_bytes(), target.as_bytes())
        })
    }

    fn unlink(&mut self, path: &str) -> Result<(), i32> {
        let (dir, name) = self.split(path)?;
        self.on(&p(path), &mut |o, t| o.unlink(t, dir, name.as_bytes()))
    }

    fn mkdir(&mut self, path: &str) -> Result<FileAttr, i32> {
        let (dir, name) = self.split(path)?;
        self.on(&p(path), &mut |o, t| o.mkdir(t, dir, name.as_bytes(), 0o777, 0o022))
    }

    fn rmdir(&mut self, path: &str) -> Result<(), i32> {
        let (dir, name) = self.split(path)?;
        self.on(&p(path), &mut |o, t| o.rmdir(t, dir, name.as_bytes()))
    }

    fn rename(&mut self, old: &str, new: &str, flags: u32) -> Result<(), i32> {
        let (a, x) = self.split(old)?;
        let (b, y) = self.split(new)?;
        let ops = self.ops.as_ref().expect("mounted");
        let (first, second) = ops.rename_paths(a, x.as_bytes(), b, y.as_bytes());
        self.op(&first, &second, &mut |o, t| {
            o.rename(t, a, x.as_bytes(), b, y.as_bytes(), flags)
        })
    }

    fn link(&mut self, old: &str, new: &str) -> Result<FileAttr, i32> {
        let ino = self.look(old)?.ino;
        let (dir, name) = self.split(new)?;
        let ops = self.ops.as_ref().expect("mounted");
        let (first, second) = ops.link_paths(ino, dir, name.as_bytes());
        self.op(&first, &second, &mut |o, t| {
            o.link(t, ino, dir, name.as_bytes())
        })
    }

    fn set(&mut self, path: &str, set: SetAttr) -> Result<FileAttr, i32> {
        let ino = self.look(path)?.ino;
        self.on(&p(path), &mut |o, t| o.setattr(t, ino, set))
    }

    /// The metadata of what is found at places that entries may be at.
    fn metas(&self, places: &[Vec<FsPath>]) -> Vec<Vec<Option<Meta>>> {
        let of = |q: &FsPath| self.host.ids.get(&q.components()).map(|id| self.host.meta(*id));
        places.iter().map(|qs| qs.iter().map(of).collect()).collect()
    }

    /// The names in a directory, without the two that every directory has.
    fn names(&mut self, path: &str) -> Vec<String> {
        let ino = if path.is_empty() {
            ROOT_INO
        } else {
            self.look(path).expect("a directory").ino
        };
        let all = self.on(&p(path), &mut |o, t| o.readdir(t, ino, 0)).expect("a listing");
        assert_eq!(all[0].name, b".".to_vec());
        assert_eq!(all[1].name, b"..".to_vec());
        all[2..].iter().map(|e| String::from_utf8(e.name.clone()).expect("text")).collect()
    }

    fn setxattr(&mut self, path: &str, name: &str, value: &str) -> Result<(), i32> {
        let ino = self.look(path)?.ino;
        self.on(&p(path), &mut |o, t| {
            o.setxattr(t, ino, name.as_bytes(), value.as_bytes())
        })
    }

    fn getxattr(&mut self, path: &str, name: &str, size: u32) -> Result<XattrReply, i32> {
        let ino = self.look(path)?.ino;
        self.on(&p(path), &mut |o, t| o.getxattr(t, ino, name.as_bytes(), size))
    }

    fn listxattr(&mut self, path: &str, size: u32) -> Result<XattrReply, i32> {
        let ino = self.look(path)?.ino;
        self.on(&p(path), &mut |o, t| o.listxattr(t, ino, size))
    }

    fn removexattr(&mut self, path: &str, name: &str) -> Result<(), i32> {
        let ino = self.look(path)?.ino;
        self.on(&p(path), &mut |o, t| o.removexattr(t, ino, name.as_bytes()))
    }
}

const NOTHING: SetAttr =
    SetAttr { mode: None, uid: None, gid: None, size: None, atime: None, mtime: None };

fn data_of(r: Result<XattrReply, i32>) -> Vec<u8> {
    match r {
        Ok(XattrReply::Data(v)) => v,
        Ok(XattrReply::Size(n)) => panic!("a size: {}", n),
        Err(c) => panic!("code {}", c),
    }
}

fn size_of(r: Result<XattrReply, i32>) -> u32 {
    match r {
        Ok(XattrReply::Size(n)) => n,
        Ok(XattrReply::Data(v)) => panic!("data: {:?}", v),
        Err(c) => panic!("code {}", c),
    }
}

fn code_of(r: Result<XattrReply, i32>) -> i32 {
    match r {
        Ok(_) => panic!("an answer"),
        Err(c) => c,
    }
}

#[test]
fn test_overlay_full_lifecycle() {
    let mut d = Desk::new();
    d.host.file("/base/lower/base.txt", "original content");
    let mount_point = d.overlay.handle().mount_point().clone();

    d.mount();
    assert!(d.found("base.txt"));
    d.write("new.txt", "new data").unwrap();
    d.umount();

    assert!(!d.host.ids.contains_key(&mount_point.join(b"new.txt").components()));
    assert!(d.host.get("/base/lower_upper/new.txt").is_some());

    d.act(OverlayAction::Discard);
    assert!(d.host.get("/base/lower_upper").is_none());
}

#[test]
fn test_custom_upper_path() {
    let mut d = Desk::new();
    d.overlay.set_upper(false, p("/base/my_persistent_changes"));
    d.overlay.set_inode_mode(false, InodeMode::Virtual);

    d.mount();
    d.write("note.txt", "session 1").unwrap();
    d.umount();

    assert!(d.host.get("/base/my_persistent_changes/note.txt").is_some());

    let overlay_default = fresh_overlay("/base/lower");
    assert!(overlay_default.handle().upper().same(&p("/base/lower_upper")));
}

#[test]
fn test_overlay_commit() {
    let mut d = Desk::new();
    d.host.file("/base/lower/old.txt", "old");

    d.mount();
    d.write("new_on_mount.txt", "new data").unwrap();
    d.umount();
    d.act(OverlayAction::Commit);

    assert_eq!(d.host.text("/base/lower/new_on_mount.txt").as_deref(), Some("new data"));
    assert!(d.host.get("/base/lower_upper").is_none());
}

#[test]
fn test_overlay_commit_with_deletion() {
    let mut d = Desk::new();
    d.host.file("/base/lower/to_delete.txt", "delete me");

    d.mount();
    d.unlink("to_delete.txt").unwrap();
    d.umount();
    d.act(OverlayAction::Commit);

    assert!(d.host.get("/base/lower/to_delete.txt").is_none());
}

#[test]
fn test_symlink_visible_from_lower() {
    let mut d = Desk::new();
    d.host.file("/base/lower/target.txt", "hello");
    d.host.link("/base/lower/link.txt", "target.txt");

    d.mount();
    assert!(d.found("link.txt"), "symlink deve ser visível pelo mount");
    assert_eq!(d.read("link.txt"), Ok("hello".to_string()));
    d.umount();
}

#[test]
fn test_symlink_cow_stays_as_symlink() {
    let mut d = Desk::new();
    d.host.file("/base/lower/real.txt", "real");

    d.mount();
    d.symlink("real.txt", "mylink").unwrap();
    d.umount();

    let upper_link = d.host.get("/base/lower_upper/mylink").unwrap();
    assert_eq!(
        upper_link.kind,
        FileKind::Symlink,
        "upper deve conter o symlink, não o conteúdo do target"
    );
    assert_eq!(upper_link.data, b"real.txt".to_vec());
}

#[test]
fn test_dangling_symlink_in_lower() {
    let mut d = Desk::new();
    d.host.link("/base/lower/dangling", "/nonexistent/path");
    d.host.file("/base/lower/normal.txt", "ok");

    d.mount();
    let entries = d.names("");
    assert!(entries.contains(&"normal.txt".to_string()));
    assert!(entries.contains(&"dangling".to_string()));
    assert_eq!(d.read("normal.txt"), Ok("ok".to_string()));
    d.umount();
}

#[test]
fn test_whiteout_hides_lower_file() {
    let mut d = Desk::new();
    d.host.file("/base/lower/ghost.txt", "boo");

    d.mount();
    assert!(d.found("ghost.txt"));
    d.unlink("ghost.txt").unwrap();
    assert!(!d.found("ghost.txt"), "arquivo deve estar oculto após unlink");
    d.umount();

    assert!(
        d.host.get("/base/lower_upper/.wh.ghost.txt").is_some(),
        "whiteout deve estar presente no upper"
    );
}

#[test]
fn test_rmdir_notempty() {
    let mut d = Desk::new();
    d.host.dir("/base/lower/mydir");
    d.host.file("/base/lower/mydir/file.txt", "content");

    d.mount();
    assert_eq!(d.rmdir("mydir"), Err(ENOTEMPTY), "rmdir em diretório não-vazio deve falhar");
    d.umount();
}

#[test]
fn test_rmdir_after_emptying() {
    let mut d = Desk::new();
    d.host.dir("/base/lower/mydir");
    d.host.file("/base/lower/mydir/file.txt", "bye");

    d.mount();
    d.unlink("mydir/file.txt").unwrap();
    d.rmdir("mydir").expect("rmdir deve funcionar após esvaziar");
    assert!(!d.found("mydir"));
    d.umount();
}

#[test]
fn test_commit_atomic_basic() {
    let mut d = Desk::new();
    d.host.file("/base/lower/existing.txt", "old");

    d.mount();
    d.write("new.txt", "atomic").unwrap();
    d.umount();
    d.act(OverlayAction::CommitAtomic);

    assert_eq!(d.host.text("/base/lower/new.txt").as_deref(), Some("atomic"));
    assert!(
        d.host.get("/base/lower/existing.txt").is_some(),
        "arquivos existentes devem ser preservados"
    );
    assert!(
        d.host.get("/base/lower_upper").is_none(),
        "upper deve ser removido após CommitAtomic"
    );
}

#[test]
fn test_commit_atomic_with_deletion() {
    let mut d = Desk::new();
    d.host.file("/base/lower/remove_me.txt", "gone");
    d.host.file("/base/lower/keep_me.txt", "stay");

    d.mount();
    d.unlink("remove_me.txt").unwrap();
    d.umount();
    d.act(OverlayAction::CommitAtomic);

    assert!(d.host.get("/base/lower/remove_me.txt").is_none());
    assert!(d.host.get("/base/lower/keep_me.txt").is_some());
}

#[test]
fn test_cow_does_not_modify_lower() {
    let mut d = Desk::new();
    d.host.file("/base/lower/data.txt", "original");

    d.mount();
    d.write("data.txt", "modified").unwrap();
    d.umount();

    assert_eq!(d.host.text("/base/lower/data.txt").as_deref(), Some("original"));
    assert_eq!(d.host.text("/base/lower_upper/data.txt").as_deref(), Some("modified"));
}

#[test]
fn test_rename_from_lower() {
    let mut d = Desk::new();
    d.host.file("/base/lower/old_name.txt", "content");

    d.mount();
    d.rename("old_name.txt", "new_name.txt", 0).unwrap();
    assert!(!d.found("old_name.txt"));
    assert!(d.found("new_name.txt"));
    assert_eq!(d.read("new_name.txt"), Ok("content".to_string()));
    d.umount();

    assert!(
        d.host.get("/base/lower_upper/.wh.old_name.txt").is_some(),
        "whiteout deve existir para o nome antigo"
    );
    assert!(d.host.get("/base/lower_upper/new_name.txt").is_some());
}

#[test]
fn test_filter_commit_atomic_skips_dirs() {
    let mut d = Desk::new();
    d.host.dir("/base/lower/etc");
    d.host.dir("/base/lower/dev");
    d.host.file("/base/lower/etc/os-release", "ID=test");

    d.overlay.set_commit_filter(CommitFilter::new().skip_dir(&p("dev")));
    d.mount();
    d.write("etc/hostname", "testbox").unwrap();
    d.write("dev/null", "").unwrap();
    d.umount();
    d.act(OverlayAction::CommitAtomic);

    assert_eq!(
        d.host.text("/base/lower/etc/hostname").as_deref(),
        Some("testbox"),
        "etc/hostname must be committed to lower"
    );
    assert!(
        d.host.get("/base/lower/dev/null").is_none(),
        "dev/null must not be committed to lower when dev is filtered"
    );
    assert_eq!(
        d.host.text("/base/lower/etc/os-release").as_deref(),
        Some("ID=test"),
        "pre-existing lower files must be preserved"
    );
}

#[test]
fn test_proot_meu_rootfs() {
    let mut d = Desk::new();
    d.host.dir("/tmp/ALPack/bin");
    d.host.dir("/tmp/ALPack/etc");
    d.host.dir("/tmp/ALPack/lib/apk/db");
    d.host.file("/tmp/ALPack/etc/alpine-release", "3.20.0");
    d.host.file("/tmp/ALPack/bin/busybox", "ELF");
    d.host.link("/tmp/ALPack/bin/sh", "busybox");
    d.host.file("/tmp/ALPack/lib/apk/db/installed", "P:busybox\n");

    d.overlay = fresh_overlay("/tmp/ALPack");
    d.overlay.set_inode_mode(false, InodeMode::Persistent);
    d.mount();

    assert!(d.found("bin/sh"));
    assert_eq!(d.look("bin/sh").unwrap().kind, FileKind::Symlink);
    assert_eq!(d.readlink("bin/sh"), Ok("busybox".to_string()));
    assert!(d.names("bin").contains(&"sh".to_string()));

    let lower_before = d.host.text("/tmp/ALPack/lib/apk/db/installed");
    d.write("lib/apk/db/installed", "P:busybox\nP:curl\n").unwrap();
    d.umount();

    let lower_after = d.host.text("/tmp/ALPack/lib/apk/db/installed");
    assert_eq!(lower_before, lower_after, "lower layer was modified in place");
    assert_eq!(
        d.host.text("/tmp/ALPack_upper/lib/apk/db/installed").as_deref(),
        Some("P:busybox\nP:curl\n")
    );
}

#[test]
fn a_lower_entry_is_found_until_it_is_hidden() {
    let mut d = Desk::new();
    d.host.file("/base/lower/a", "one");
    d.mount();
    assert_eq!(d.look("a").unwrap().size, 3);
    assert_eq!(d.look("missing"), Err(ENOENT));
    d.host.dir("/base/lower_upper");
    d.host.file("/base/lower_upper/.wh.a", "");
    assert_eq!(d.look("a"), Err(ENOENT));
    d.host.remove_tree(&key("/base/lower_upper/.wh.a")).unwrap();
    d.host.file("/base/lower_upper/a", "longer");
    assert_eq!(d.look("a").unwrap().size, 6);
}

#[test]
fn bringing_up_a_file_keeps_everything_of_it() {
    let mut d = Desk::new();
    d.host.dir("/base/lower/sub");
    d.host.file("/base/lower/sub/a", "text");
    let e = d.host.edit("/base/lower/sub/a");
    e.mode = 0o640;
    e.uid = 7;
    e.gid = 8;
    e.atime = Stamp { secs: 11, nanos: 12 };
    e.mtime = Stamp { secs: 13, nanos: 14 };
    e.xattrs.insert(b"user.full".to_vec(), b"v".to_vec());
    e.xattrs.insert(b"user.none".to_vec(), Vec::new());
    let lower = e.clone();
    d.mount();
    let ino = d.look("sub/a").unwrap().ino;
    d.on(&p("sub/a"), &mut |o, t| o.open(t, ino, O_WRONLY)).unwrap();
    assert_eq!(d.host.get("/base/lower_upper/sub/a"), Some(&lower));
    assert_eq!(d.host.get("/base/lower/sub/a"), Some(&lower));
}

#[test]
fn opening_for_reading_brings_nothing_up() {
    let mut d = Desk::new();
    d.host.file("/base/lower/a", "text");
    d.mount();
    let ino = d.look("a").unwrap().ino;
    d.on(&p("a"), &mut |o, t| o.open(t, ino, O_TRUNC)).unwrap();
    assert!(d.host.get("/base/lower_upper/a").is_none());
    assert_eq!(d.on(&p("a"), &mut |o, t| o.open(t, 999, O_WRONLY)), Err(ENOENT));
    assert_eq!(d.on(&p("a"), &mut |o, t| o.open(t, 999, 0)), Ok(()));
}

#[test]
fn what_is_written_is_read_back_and_the_rest_stays() {
    let mut d = Desk::new();
    d.host.file("/base/lower/a", "0123456789");
    d.mount();
    assert_eq!(d.write_at("a", 3, b"xyz"), Ok(3));
    assert_eq!(d.read_at("a", 3, 3), Ok(b"xyz".to_vec()));
    assert_eq!(d.read("a"), Ok("012xyz6789".to_string()));
    assert_eq!(d.write_at("a", 12, b"!"), Ok(1));
    assert_eq!(d.host.text("/base/lower_upper/a").as_deref(), Some("012xyz6789\0\0!"));
    assert_eq!(d.host.text("/base/lower/a").as_deref(), Some("0123456789"));
}

#[test]
fn reading_behind_the_end_opens_nothing() {
    let mut d = Desk::new();
    d.host.file("/base/lower/a", "abc");
    d.mount();
    d.host.log.clear();
    assert_eq!(d.read_at("a", 3, 10), Ok(Vec::new()));
    assert!(!d.host.log.iter().any(|a| matches!(a, Action::OpenRead(_))));
    assert_eq!(d.read_at("a", 2, 10), Ok(b"c".to_vec()));
}

#[test]
fn a_removed_entry_has_no_number_and_no_content() {
    let mut d = Desk::new();
    d.host.file("/base/lower/a", "abc");
    d.mount();
    let ino = d.look("a").unwrap().ino;
    d.unlink("a").unwrap();
    assert_eq!(d.on(&p("a"), &mut |o, t| o.getattr(t, ino)), Err(ENOENT));
    assert_eq!(d.on(&p("a"), &mut |o, t| o.read(t, ino, 0, 1)), Err(ENOENT));
    d.write("a", "again").unwrap();
    assert_ne!(d.look("a").unwrap().ino, ino);
    assert_eq!(d.read("a"), Ok("again".to_string()));
    assert!(d.host.get("/base/lower_upper/.wh.a").is_none());
}

#[test]
fn a_number_that_is_hidden_is_gone() {
    let mut d = Desk::new();
    d.host.file("/base/lower/a", "abc");
    d.mount();
    let ino = d.look("a").unwrap().ino;
    d.host.dir("/base/lower_upper");
    d.host.file("/base/lower_upper/.wh.a", "");
    assert_eq!(d.on(&p("a"), &mut |o, t| o.getattr(t, ino)), Err(ENOENT));
    assert_eq!(d.on(&p("a"), &mut |o, t| o.open(t, ino, O_WRONLY)), Err(ENOENT));
    assert_eq!(d.on(&p("a"), &mut |o, t| o.access(t, 0, ino, 0)), Err(ENOENT));
}

#[test]
fn forgetting_drops_the_number() {
    let mut d = Desk::new();
    d.host.file("/base/lower/a", "abc");
    d.mount();
    let ino = d.look("a").unwrap().ino;
    assert_eq!(d.look("a").unwrap().ino, ino);
    let ops = d.ops.as_mut().unwrap();
    ops.forget(ino, 1);
    assert!(ops.inodes.get_path(ino).is_some());
    ops.forget(ino, 1);
    assert!(ops.inodes.get_path(ino).is_none());
}

#[test]
fn created_files_have_the_mode_that_the_mask_leaves() {
    let mut d = Desk::new();
    d.mount();
    let attr = d.on(&p("n"), &mut |o, t| o.create(t, ROOT_INO, b"n", 0o100666, 0o027)).unwrap();
    assert_eq!(attr.perm, 0o640);
    assert_eq!(attr.kind, FileKind::RegularFile);
    let attr = d
        .on(&p("pipe"), &mut |o, t| o.mknod(t, ROOT_INO, b"pipe", 0o010666, 0o022, 0))
        .unwrap();
    assert_eq!(attr.kind, FileKind::NamedPipe);
    assert_eq!(attr.perm, 0o644);
    assert_eq!(
        d.on(&p("pipe"), &mut |o, t| o.mknod(t, ROOT_INO, b"pipe", 0o010666, 0o022, 0)),
        Err(EEXIST)
    );
    let attr = d
        .on(&p("dev"), &mut |o, t| o.mknod(t, ROOT_INO, b"dev", 0o020600, 0, 0x103))
        .unwrap();
    assert_eq!((attr.kind, attr.rdev), (FileKind::CharDevice, 0x103));
}

#[test]
fn making_a_directory_that_is_there_is_refused() {
    let mut d = Desk::new();
    d.host.dir("/base/lower/low");
    d.mount();
    assert_eq!(d.mkdir("low"), Err(EEXIST));
    let attr = d.mkdir("up").unwrap();
    assert_eq!((attr.kind, attr.perm), (FileKind::Directory, 0o755));
    assert_eq!(d.mkdir("up"), Err(EEXIST));
    assert!(d.host.get("/base/lower_upper/up").unwrap().xattrs.is_empty());
}

#[test]
fn a_directory_made_anew_shows_nothing_of_the_old_one() {
    let mut d = Desk::new();
    d.host.dir("/base/lower/dir");
    d.host.file("/base/lower/dir/a", "");
    d.host.file("/base/lower/dir/b", "");
    d.mount();
    assert_eq!(d.names("dir"), vec!["a", "b"]);
    d.unlink("dir/a").unwrap();
    assert_eq!(d.names("dir"), vec!["b"]);
    d.unlink("dir/b").unwrap();
    d.rmdir("dir").unwrap();
    assert_eq!(d.look("dir"), Err(ENOENT));
    d.mkdir("dir").unwrap();
    assert!(d.names("dir").is_empty());
    let marks = &d.host.get("/base/lower_upper/dir").unwrap().xattrs;
    assert_eq!(marks.get(&mark_bytes(Mark::Trusted)), Some(&b"y".to_vec()));
    assert_eq!(marks.get(&mark_bytes(Mark::User)), Some(&b"y".to_vec()));
    assert_eq!(d.rmdir("dir"), Ok(()));
}

#[test]
fn a_mark_that_cannot_be_set_is_no_failure() {
    let mut d = Desk::new();
    d.host.dir("/base/lower/dir");
    d.mount();
    d.rmdir("dir").unwrap();
    d.host.faults.push((Action::SetMark(Spot::upper(Which::First), Mark::Trusted), 1));
    d.mkdir("dir").unwrap();
    let marks = &d.host.get("/base/lower_upper/dir").unwrap().xattrs;
    assert_eq!(marks.get(&mark_bytes(Mark::Trusted)), None);
    assert_eq!(marks.get(&mark_bytes(Mark::User)), Some(&b"y".to_vec()));
}

#[test]
fn a_marker_that_cannot_be_removed_stops_mkdir() {
    let mut d = Desk::new();
    d.host.dir("/base/lower/dir");
    d.mount();
    d.rmdir("dir").unwrap();
    d.host.faults.push((Action::RemoveFile(Spot::whiteout(Which::First)), 30));
    assert_eq!(d.mkdir("dir"), Err(30));
}

#[test]
fn unlinking_a_directory_is_refused() {
    let mut d = Desk::new();
    d.host.dir("/base/lower/dir");
    d.mount();
    assert_eq!(d.unlink("dir"), Err(EISDIR));
    d.write("new", "x").unwrap();
    d.unlink("new").unwrap();
    assert!(d.host.get("/base/lower_upper/new").is_none());
    assert!(d.host.get("/base/lower_upper/.wh.new").is_none());
}

#[test]
fn a_listing_merges_both_layers_without_doubles() {
    let mut d = Desk::new();
    for name in ["a", "b", "c"] {
        d.host.file(&format!("/base/lower/{}", name), "low");
    }
    d.mount();
    d.write("b", "up").unwrap();
    d.write("d", "up").unwrap();
    d.unlink("c").unwrap();
    assert_eq!(d.names(""), vec!["b", "d", "a"]);
}

#[test]
fn a_listing_goes_on_where_it_stopped() {
    let mut d = Desk::new();
    for name in ["a", "b", "c"] {
        d.host.file(&format!("/base/lower/{}", name), "low");
    }
    d.mount();
    let root = FsPath::empty();
    let all = d.on(&root, &mut |o, t| o.readdir(t, ROOT_INO, 0)).unwrap();
    assert_eq!(all.iter().map(|e| e.offset).collect::<Vec<u64>>(), vec![1, 2, 3, 4, 5]);
    assert_eq!((all[0].ino, all[1].ino), (1, 1));
    assert_eq!(all[0].kind, FileKind::Directory);
    let rest = d.on(&root, &mut |o, t| o.readdir(t, ROOT_INO, all[2].offset)).unwrap();
    assert_eq!(rest.len(), 2);
    assert_eq!(rest[0].name, all[3].name);
    assert_eq!((rest[1].ino, rest[1].offset), (all[4].ino, 5));
    let attr = d.look("b").unwrap();
    assert_eq!(attr.ino, all[3].ino);
    let none = d.on(&root, &mut |o, t| o.readdir(t, ROOT_INO, 9)).unwrap();
    assert!(none.is_empty());
}

#[test]
fn a_listing_with_attributes_leaves_out_what_cannot_be_read() {
    let mut d = Desk::new();
    d.host.dir("/base/lower/sub");
    d.host.file("/base/lower/sub/a", "xyz");
    d.host.file("/base/lower/sub/b", "uv");
    d.mount();
    d.write("sub/n", "new").unwrap();
    let ino = d.look("sub").unwrap().ino;
    let list = d.on(&p("sub"), &mut |o, t| o.list_dir(t, &p("sub"))).unwrap();
    let places = d.ops.as_ref().unwrap().entry_places(ino, &list);
    let texts: Vec<Vec<String>> = places
        .iter()
        .map(|qs| qs.iter().map(|q| String::from_utf8(q.bytes.clone()).unwrap()).collect())
        .collect();
    assert_eq!(
        texts,
        vec![
            vec!["/base/lower_upper/sub", "/base/lower/sub"],
            vec!["/base/lower_upper/", "/base/lower/"],
            vec!["/base/lower_upper/sub/n"],
            vec!["/base/lower/sub/a"],
            vec!["/base/lower/sub/b"],
        ]
    );
    let mut metas = d.metas(&places);
    metas[3] = vec![None];
    let ops = d.ops.as_mut().unwrap();
    let told = ops.readdirplus(ino, 2, &list, &metas);
    assert_eq!(told.len(), 2);
    assert_eq!((told[0].name.as_slice(), told[0].offset), (&b"n"[..], 3));
    assert_eq!((told[1].name.as_slice(), told[1].offset), (&b"b"[..], 5));
    assert_eq!(told[1].attr.size, 2);
    assert_eq!(told[1].attr.ino, told[1].ino);
}

#[test]
fn the_listing_of_a_subdirectory_names_its_parent() {
    let mut d = Desk::new();
    d.host.dir("/base/lower/x/y");
    d.mount();
    let x = d.look("x").unwrap().ino;
    let y = d.look("x/y").unwrap().ino;
    let list = d.on(&p("x/y"), &mut |o, t| o.readdir(t, y, 0)).unwrap();
    assert_eq!((list[0].ino, list[1].ino), (y, x));
    let list = d.on(&p("x"), &mut |o, t| o.readdir(t, x, 0)).unwrap();
    assert_eq!((list[0].ino, list[1].ino, list[2].ino), (x, ROOT_INO, y));
}

#[test]
fn renaming_keeps_to_its_flags() {
    let mut d = Desk::new();
    d.host.file("/base/lower/a", "A");
    d.host.file("/base/lower/b", "B");
    d.mount();
    assert_eq!(d.rename("a", "b", RENAME_NOREPLACE), Err(EEXIST));
    assert_eq!(d.rename("a", "c", RENAME_EXCHANGE), Err(ENOTSUP));
    assert_eq!(d.rename("none", "c", 0), Err(ENOENT));
    assert_eq!(d.rename("a", "c", RENAME_NOREPLACE), Ok(()));
    assert_eq!(d.read("c"), Ok("A".to_string()));
    assert_eq!(d.rename("c", "b", 0), Ok(()));
    assert_eq!(d.read("b"), Ok("A".to_string()));
    assert_eq!(d.look("c"), Err(ENOENT));
    assert_eq!(d.rename("a", "d", 0), Err(ENOENT));
    assert_eq!(d.names(""), vec!["b"]);
}

#[test]
fn renaming_a_lower_directory_takes_all_of_it_along() {
    let mut d = Desk::new();
    d.host.dir("/base/lower/old/deep");
    d.host.file("/base/lower/old/deep/f", "inside");
    d.host.link("/base/lower/old/l", "deep/f");
    d.host.edit("/base/lower/old/deep").mode = 0o700;
    d.host.edit("/base/lower/old/deep/f").xattrs.insert(b"user.x".to_vec(), b"1".to_vec());
    let inside = d.host.get("/base/lower/old/deep/f").cloned();
    d.mount();
    d.rename("old", "new", 0).unwrap();
    assert_eq!(d.look("old"), Err(ENOENT));
    assert_eq!(d.read("new/deep/f"), Ok("inside".to_string()));
    assert_eq!(d.readlink("new/l"), Ok("deep/f".to_string()));
    assert_eq!(d.host.get("/base/lower_upper/new/deep/f").cloned(), inside);
    assert_eq!(d.host.get("/base/lower_upper/new/deep").unwrap().mode, 0o700);
    assert!(d.host.get("/base/lower_upper/.wh.old").is_some());
}

#[test]
fn a_link_to_a_directory_is_moved_as_a_link() {
    let mut d = Desk::new();
    d.host.dir("/base/lower/dir");
    d.host.link("/base/lower/l", "dir");
    d.mount();
    d.rename("l", "m", 0).unwrap();
    assert_eq!(d.readlink("m"), Ok("dir".to_string()));
    assert_eq!(d.host.get("/base/lower_upper/m").unwrap().kind, FileKind::Symlink);
}

#[test]
fn a_second_name_shares_the_content() {
    let mut d = Desk::new();
    d.host.file("/base/lower/a", "abc");
    d.mount();
    let attr = d.link("a", "b").unwrap();
    assert_eq!(attr.nlink, 2);
    assert_ne!(attr.ino, d.look("a").unwrap().ino);
    d.write_at("b", 0, b"X").unwrap();
    assert_eq!(d.read("a"), Ok("Xbc".to_string()));
    assert_eq!(d.link("a", "b").map(|a| a.nlink), Err(EEXIST));
}

#[test]
fn attributes_are_set_on_the_upper_entry() {
    let mut d = Desk::new();
    d.host.file("/base/lower/a", "abcdef");
    let before = d.host.get("/base/lower/a").unwrap().atime;
    d.mount();
    let attr = d
        .set(
            "a",
            SetAttr {
                mode: Some(0o600),
                uid: Some(5),
                size: Some(2),
                mtime: Some(TimeSet::At(Stamp { secs: 77, nanos: 3 })),
                ..NOTHING
            },
        )
        .unwrap();
    assert_eq!((attr.perm, attr.uid, attr.gid, attr.size), (0o600, 5, 100, 2));
    assert_eq!(attr.mtime, Stamp { secs: 77, nanos: 3 });
    assert_eq!(attr.atime, before);
    assert_eq!(d.host.text("/base/lower/a").as_deref(), Some("abcdef"));
    let attr = d.set("a", SetAttr { atime: Some(TimeSet::Now), ..NOTHING }).unwrap();
    assert_eq!(attr.atime, Stamp { secs: d.host.now, nanos: 0 });
    assert_eq!(attr.mtime, Stamp { secs: 77, nanos: 3 });
    let attr = d
        .set("a", SetAttr { atime: Some(TimeSet::At(Stamp { secs: -9, nanos: 4 })), ..NOTHING })
        .unwrap();
    assert_eq!(attr.atime, Stamp { secs: 0, nanos: 0 });
}

#[test]
fn a_link_has_no_length_to_set() {
    let mut d = Desk::new();
    d.host.link("/base/lower/l", "nowhere");
    d.mount();
    assert_eq!(d.set("l", SetAttr { size: Some(0), ..NOTHING }), Err(EINVAL));
    let attr = d.set("l", SetAttr { mode: Some(0o600), gid: Some(3), ..NOTHING }).unwrap();
    assert_eq!((attr.perm, attr.gid), (0o777, 3));
    assert_eq!(d.readlink("l"), Ok("nowhere".to_string()));
}

#[test]
fn reading_the_target_of_a_file_fails() {
    let mut d = Desk::new();
    d.host.file("/base/lower/a", "abc");
    d.mount();
    assert_eq!(d.readlink("a"), Err(EINVAL));
}

#[test]
fn extended_attributes_are_read_back() {
    let mut d = Desk::new();
    d.host.file("/base/lower/a", "abc");
    d.host.edit("/base/lower/a").xattrs.insert(b"user.old".to_vec(), b"low".to_vec());
    d.mount();
    d.setxattr("a", "user.new", "value").unwrap();
    assert_eq!(size_of(d.getxattr("a", "user.new", 0)), 5);
    assert_eq!(data_of(d.getxattr("a", "user.new", 9)), b"value".to_vec());
    assert_eq!(data_of(d.getxattr("a", "user.old", 9)), b"low".to_vec());
    assert_eq!(code_of(d.getxattr("a", "user.new", 2)), ERANGE);
    assert_eq!(code_of(d.getxattr("a", "user.none", 0)), ENODATA);
    assert_eq!(data_of(d.listxattr("a", 100)), b"user.new\0user.old\0".to_vec());
    assert_eq!(size_of(d.listxattr("a", 0)), 18);
    assert_eq!(code_of(d.listxattr("a", 17)), ERANGE);
    d.removexattr("a", "user.old").unwrap();
    assert_eq!(d.removexattr("a", "user.old"), Err(ENODATA));
    assert_eq!(code_of(d.getxattr("a", "user.old", 0)), ENODATA);
    assert_eq!(d.host.get("/base/lower_upper/a").unwrap().xattrs.len(), 1);
    assert_eq!(d.host.get("/base/lower/a").unwrap().xattrs.len(), 1);
}

#[test]
fn the_names_of_both_layers_are_listed_once() {
    let mut d = Desk::new();
    d.host.dir("/base/lower/dir");
    let low = d.host.edit("/base/lower/dir");
    low.xattrs.insert(b"user.a".to_vec(), b"1".to_vec());
    low.xattrs.insert(b"user.b".to_vec(), b"2".to_vec());
    d.host.dir("/base/lower_upper/dir");
    let up = d.host.edit("/base/lower_upper/dir");
    up.xattrs.insert(b"user.b".to_vec(), b"3".to_vec());
    up.xattrs.insert(b"user.c".to_vec(), b"4".to_vec());
    d.mount();
    assert_eq!(data_of(d.listxattr("dir", 100)), b"user.b\0user.c\0user.a\0".to_vec());
    assert_eq!(data_of(d.getxattr("dir", "user.b", 9)), b"3".to_vec());
}

#[test]
fn a_value_that_grew_is_read_again() {
    let x = Spot::lower(Which::First);
    let mut replies: Vec<Reply> = vec![Reply::Data(b"user.a\0".to_vec()), Reply::Count(2)];
    replies.push(Reply::Failed(Some(ERANGE)));
    replies.push(Reply::Count(3));
    replies.push(Reply::Data(b"abc".to_vec()));
    let r = OverlayFS::copy_xattrs(&mut Tape::new(&replies), x);
    assert_eq!(r, Err(Stop::Ask(Action::SetNth(0))));
    replies.push(Reply::Failed(None));
    assert_eq!(OverlayFS::copy_xattrs(&mut Tape::new(&replies), x), Err(Stop::Fail(EIO)));
    replies[1] = Reply::Count(0);
    replies.truncate(2);
    let r = OverlayFS::copy_xattrs(&mut Tape::new(&replies), x);
    assert_eq!(r, Err(Stop::Ask(Action::SetNthEmpty(0))));
    replies[1] = Reply::Failed(Some(ENODATA));
    assert_eq!(OverlayFS::copy_xattrs(&mut Tape::new(&replies), x), Ok(()));
}

#[test]
fn root_may_run_what_anyone_may_run() {
    let mut d = Desk::new();
    d.host.file("/base/lower/a", "abc");
    d.host.dir("/base/lower/dir");
    d.host.edit("/base/lower/dir").mode = 0o600;
    d.mount();
    let ino = d.look("a").unwrap().ino;
    let dir = d.look("dir").unwrap().ino;
    assert_eq!(d.on(&p("a"), &mut |o, t| o.access(t, 0, ino, X_OK)), Err(EACCES));
    assert_eq!(d.on(&p("a"), &mut |o, t| o.access(t, 0, ino, 6)), Ok(()));
    assert_eq!(d.on(&p("a"), &mut |o, t| o.access(t, 1000, ino, X_OK)), Ok(()));
    assert_eq!(d.on(&p("a"), &mut |o, t| o.access(t, 0, ino, 0)), Ok(()));
    assert_eq!(d.on(&p("dir"), &mut |o, t| o.access(t, 0, dir, X_OK)), Ok(()));
    d.host.edit("/base/lower/a").mode = 0o601;
    assert_eq!(d.on(&p("a"), &mut |o, t| o.access(t, 0, ino, X_OK)), Ok(()));
}

#[test]
fn the_fill_comes_from_the_upper_layer() {
    let mut d = Desk::new();
    d.mount();
    let s = d.on(&FsPath::empty(), &mut |o, t| o.statfs(t)).unwrap();
    assert_eq!((s.blocks, s.bfree, s.bavail), (100, 40, 30));
    assert_eq!((s.files, s.ffree), (70, 20));
    assert_eq!((s.bsize, s.namelen, s.frsize), (4096, 255, 2048));
    d.host.faults.push((Action::Space(Layer::Upper), EIO));
    let s = d.on(&FsPath::empty(), &mut |o, t| o.statfs(t)).unwrap();
    assert_eq!((s.blocks, s.bsize, s.namelen, s.frsize), (0, 512, 255, 0));
}

#[test]
fn seeking_is_answered_from_the_length() {
    let mut d = Desk::new();
    d.host.file("/base/lower/a", "abcde");
    d.mount();
    let ino = d.look("a").unwrap().ino;
    let a = p("a");
    assert_eq!(d.on(&a, &mut |o, t| o.lseek(t, ino, 9, 0)), Ok(9));
    assert_eq!(d.on(&a, &mut |o, t| o.lseek(t, ino, -1, 0)), Err(EINVAL));
    assert_eq!(d.on(&a, &mut |o, t| o.lseek(t, ino, 0, 1)), Err(EINVAL));
    assert_eq!(d.on(&a, &mut |o, t| o.lseek(t, ino, -2, 2)), Ok(3));
    assert_eq!(d.on(&a, &mut |o, t| o.lseek(t, ino, -6, 2)), Err(EINVAL));
    assert_eq!(d.on(&a, &mut |o, t| o.lseek(t, ino, i64::MAX, 2)), Err(EINVAL));
    assert_eq!(d.on(&a, &mut |o, t| o.lseek(t, ino, 4, 3)), Ok(4));
    d.host.faults.push((Action::SeekBy(6, 3), 6));
    assert_eq!(d.on(&a, &mut |o, t| o.lseek(t, ino, 6, 3)), Err(6));
}

#[test]
fn ranges_are_copied_into_the_upper_layer() {
    let mut d = Desk::new();
    d.host.file("/base/lower/a", "abcdef");
    d.host.file("/base/lower/b", "012345");
    d.mount();
    let a = d.look("a").unwrap().ino;
    let b = d.look("b").unwrap().ino;
    let n = d.op(&p("a"), &p("b"), &mut |o, t| {
        o.copy_file_range(t, a, 2, b, 4, 3)
    });
    assert_eq!(n, Ok(3));
    assert_eq!(d.read("b"), Ok("0123cde".to_string()));
    assert!(d.host.get("/base/lower_upper/a").is_none());
    assert_eq!(d.on(&p("a"), &mut |o, t| o.fallocate(t, a, 4, 4, 0)), Ok(()));
    assert_eq!(d.host.text("/base/lower_upper/a").as_deref(), Some("abcdef\0\0"));
}

#[test]
fn flushing_concerns_the_upper_layer_alone() {
    let mut d = Desk::new();
    d.host.file("/base/lower/a", "abc");
    d.mount();
    let ino = d.look("a").unwrap().ino;
    d.host.faults.push((Action::SyncAll, 28));
    d.host.faults.push((Action::Fsync(false), 28));
    let a = p("a");
    assert_eq!(d.on(&a, &mut |o, t| o.flush(t, ino)), Ok(()));
    assert_eq!(d.on(&a, &mut |o, t| o.fsync(t, ino, false)), Ok(()));
    d.on(&a, &mut |o, t| o.open(t, ino, O_WRONLY)).unwrap();
    assert_eq!(d.on(&a, &mut |o, t| o.flush(t, ino)), Err(EIO));
    assert_eq!(d.on(&a, &mut |o, t| o.fsync(t, ino, false)), Err(28));
    assert_eq!(d.on(&a, &mut |o, t| o.fsync(t, ino, true)), Ok(()));
    assert_eq!(d.on(&a, &mut |o, t| o.flush(t, 999)), Ok(()));
    assert_eq!(d.on(&a, &mut |o, t| o.fsync(t, 999, true)), Err(ENOENT));
}

#[test]
fn a_failure_without_a_code_is_an_input_output_error() {
    let replies: Vec<Reply> = vec![Reply::Failed(None)];
    let r = sync_metadata(&mut Tape::new(&replies));
    assert_eq!(r, Err(Stop::Fail(EIO)));
}

#[test]
fn hashed_numbers_outlive_the_mount() {
    let mut d = Desk::new();
    d.host.dir("/base/lower/usr");
    d.host.file("/base/lower/usr/x", "");
    d.overlay.set_inode_mode(false, InodeMode::Persistent);
    d.mount();
    let first = d.look("usr/x").unwrap().ino;
    d.umount();
    d.mount();
    assert_eq!(d.look("usr/x").unwrap().ino, first);
    assert!(first >= 100);
}

#[test]
fn a_commit_carries_the_metadata_over() {
    let mut d = Desk::new();
    d.host.file("/base/lower/a", "same");
    d.host.dir("/base/lower/dir");
    d.mount();
    d.write("a", "diff").unwrap();
    d.set("a", SetAttr { mode: Some(0o750), ..NOTHING }).unwrap();
    d.setxattr("a", "user.k", "v").unwrap();
    d.set("dir", SetAttr { mode: Some(0o711), ..NOTHING }).unwrap();
    d.symlink("a", "l").unwrap();
    d.umount();
    for path in ["/base/lower_upper/a", "/base/lower_upper/l", "/base/lower_upper/dir"] {
        let e = d.host.edit(path);
        e.uid = 7;
        e.gid = 8;
        e.atime.secs = 77;
        e.mtime.secs = 88;
        e.xattrs.insert(b"user.x".to_vec(), b"y".to_vec());
    }
    mark(&mut d, "/base/lower_upper/dir");
    let up = |d: &Desk, name: &str| d.host.get(&format!("/base/lower_upper/{}", name)).cloned();
    let low = |d: &Desk, name: &str| d.host.get(&format!("/base/lower/{}", name)).cloned();
    let (a, l, dir) = (up(&d, "a"), up(&d, "l"), up(&d, "dir"));
    d.act(OverlayAction::Commit);
    assert_eq!(low(&d, "a"), a);
    assert_eq!(low(&d, "l"), l);
    assert_eq!(low(&d, "dir"), dir);
    assert_eq!(dir.unwrap().mode, 0o711);
    assert_eq!((l.unwrap().data, a.unwrap().uid), (b"a".to_vec(), 7));
}

#[test]
fn equal_files_are_not_copied() {
    let mut d = Desk::new();
    d.host.file("/base/lower/a", "same");
    d.host.file("/base/lower/b", "same");
    d.mount();
    d.write("a", "same").unwrap();
    d.write("b", "diff").unwrap();
    let e = d.host.edit("/base/lower_upper/a");
    e.mtime.secs += 500;
    let a = d.host.ids[&key("/base/lower/a")];
    let b = d.host.ids[&key("/base/lower/b")];
    d.umount();
    d.host.log.clear();
    d.act(OverlayAction::Commit);
    assert_eq!(d.host.ids[&key("/base/lower/a")], a);
    assert_ne!(d.host.ids[&key("/base/lower/b")], b);
    let copies = d.host.log.iter().filter(|a| matches!(a, Action::CopyFile(_, _))).count();
    let digests = d.host.log.iter().filter(|a| matches!(a, Action::Digest(_))).count();
    assert_eq!((copies, digests), (1, 4));
    assert_eq!(d.host.text("/base/lower/b").as_deref(), Some("diff"));
}

#[test]
fn files_of_one_length_and_time_are_taken_as_equal() {
    let mut d = Desk::new();
    d.host.file("/base/lower/a", "same");
    d.mount();
    d.write("a", "diff").unwrap();
    d.umount();
    let t = d.host.get("/base/lower/a").unwrap().mtime;
    d.host.edit("/base/lower_upper/a").mtime = t;
    d.host.log.clear();
    d.act(OverlayAction::Commit);
    assert_eq!(d.host.text("/base/lower/a").as_deref(), Some("same"));
    assert!(!d.host.log.iter().any(|a| matches!(a, Action::Digest(_))));
}

#[test]
fn files_of_one_length_and_second_are_read() {
    let mut d = Desk::new();
    d.host.file("/base/lower/a", "same");
    d.mount();
    d.write("a", "diff").unwrap();
    d.umount();
    let t = d.host.get("/base/lower/a").unwrap().mtime;
    d.host.edit("/base/lower_upper/a").mtime = Stamp { secs: t.secs, nanos: 999 };
    d.act(OverlayAction::Commit);
    assert_eq!(d.host.text("/base/lower/a").as_deref(), Some("diff"));
    assert_eq!(d.host.get("/base/lower/a").unwrap().mtime.nanos, 999);
}

#[test]
fn a_committed_link_replaces_one_that_leads_nowhere() {
    let mut d = Desk::new();
    d.host.link("/base/lower/l", "nowhere");
    d.mount();
    d.unlink("l").unwrap();
    d.symlink("elsewhere", "l").unwrap();
    d.umount();
    d.act(OverlayAction::Commit);
    assert_eq!(d.host.text("/base/lower/l").as_deref(), Some("elsewhere"));
    assert!(d.host.get("/base/lower_upper").is_none());
}

#[test]
fn a_committed_marker_deletes_a_whole_directory() {
    let mut d = Desk::new();
    d.host.dir("/base/lower/x/y");
    d.host.file("/base/lower/x/y/z", "");
    d.host.file("/base/lower/xy", "");
    d.host.dir("/base/lower_upper");
    d.host.file("/base/lower_upper/.wh.x", "");
    d.host.file("/base/lower_upper/.wh.never", "");
    d.act(OverlayAction::Commit);
    let left: Vec<Key> =
        d.host.snapshot("/base/lower").into_iter().map(|(k, _)| k).collect();
    assert_eq!(left, vec![key("/base/lower"), key("/base/lower/xy")]);
    assert!(d.host.get("/base/lower_upper").is_none());
}

#[test]
fn a_commit_leaves_what_the_overlay_showed() {
    let mut d = Desk::new();
    d.host.dir("/base/lower/keep/deep");
    d.host.file("/base/lower/keep/deep/f", "kept");
    d.host.file("/base/lower/keep/g", "replaced");
    d.host.dir("/base/lower/gone");
    d.host.file("/base/lower/gone/h", "removed");
    d.mount();
    d.write("keep/g", "by this").unwrap();
    d.mkdir("fresh").unwrap();
    d.write("fresh/i", "new").unwrap();
    d.unlink("gone/h").unwrap();
    d.rmdir("gone").unwrap();
    assert_eq!(d.names(""), vec!["fresh", "keep"]);
    assert_eq!(d.names("keep"), vec!["g", "deep"]);
    d.umount();
    d.act(OverlayAction::Commit);
    let shown: Vec<(String, FileKind, String)> = d
        .host
        .snapshot("/base/lower")
        .into_iter()
        .map(|(k, e)| {
            let names: Vec<String> =
                k[3..].iter().map(|c| String::from_utf8(c.clone()).unwrap()).collect();
            (names.join("/"), e.kind, String::from_utf8(e.data).unwrap())
        })
        .collect();
    let dir = |n: &str| (n.to_string(), FileKind::Directory, String::new());
    let file = |n: &str, t: &str| (n.to_string(), FileKind::RegularFile, t.to_string());
    assert_eq!(
        shown,
        vec![
            dir(""),
            dir("fresh"),
            file("fresh/i", "new"),
            dir("keep"),
            dir("keep/deep"),
            file("keep/deep/f", "kept"),
            file("keep/g", "by this"),
        ]
    );
}

#[test]
fn a_filter_keeps_entries_out_but_no_deletions() {
    let mut d = Desk::new();
    d.host.dir("/base/lower/tmp");
    d.host.file("/base/lower/tmp/old", "");
    d.overlay.set_commit_filter(
        CommitFilter::new().skip_dir(&p("/tmp")).force_file(&p("tmp/wanted")),
    );
    d.mount();
    d.write("tmp/wanted", "yes").unwrap();
    d.write("tmp/junk", "no").unwrap();
    d.write("note", "yes").unwrap();
    d.unlink("tmp/old").unwrap();
    d.umount();
    d.act(OverlayAction::Commit);
    assert_eq!(d.host.text("/base/lower/tmp/wanted").as_deref(), Some("yes"));
    assert_eq!(d.host.text("/base/lower/note").as_deref(), Some("yes"));
    assert!(d.host.get("/base/lower/tmp/junk").is_none());
    assert!(d.host.get("/base/lower/tmp/old").is_none());
}

#[test]
fn without_a_filter_everything_is_committed() {
    let mut d = Desk::new();
    d.overlay.set_commit_filter(CommitFilter::new().skip_zero_permissions(true));
    d.mount();
    d.write("a", "x").unwrap();
    d.set("a", SetAttr { mode: Some(0), ..NOTHING }).unwrap();
    d.umount();
    d.act(OverlayAction::Commit);
    assert!(d.host.get("/base/lower/a").is_none());

    d.overlay.clear_commit_filter();
    d.mount();
    d.write("a", "x").unwrap();
    d.set("a", SetAttr { mode: Some(0), ..NOTHING }).unwrap();
    d.umount();
    d.act(OverlayAction::Commit);
    assert!(d.host.get("/base/lower/a").is_some());
}

#[test]
fn a_commit_that_fails_keeps_the_upper_layer() {
    let mut d = Desk::new();
    d.mount();
    d.write("a", "x").unwrap();
    d.umount();
    let copy = Action::CopyFile(Spot::upper(Which::First), Spot::lower(Which::First));
    d.host.faults.push((copy, 28));
    d.act(OverlayAction::Commit);
    assert_eq!(d.host.log.last(), Some(&Action::Report));
    assert_eq!(d.host.text("/base/lower_upper/a").as_deref(), Some("x"));
    d.host.faults.clear();
    d.act(OverlayAction::Commit);
    assert_eq!(d.host.text("/base/lower/a").as_deref(), Some("x"));
    assert!(d.host.get("/base/lower_upper").is_none());
}

#[test]
fn an_atomic_commit_that_fails_leaves_both_layers_as_they_were() {
    let mut d = Desk::new();
    d.host.file("/base/lower/old", "o");
    d.mount();
    d.write("a", "x").unwrap();
    d.umount();
    let lower = d.host.snapshot("/base/lower");
    let upper = d.host.snapshot("/base/lower_upper");
    let copy = Action::CopyFile(Spot::upper(Which::First), Spot::lower(Which::First));
    for fault in [
        Action::CloneSite(Site::Lower, Site::NewLower),
        copy,
        Action::MoveSite(Site::Lower, Site::Backup),
        Action::MoveSite(Site::NewLower, Site::Lower),
    ] {
        d.host.faults = vec![(fault, 28)];
        d.act(OverlayAction::CommitAtomic);
        assert_eq!(d.host.log.last(), Some(&Action::Report));
        assert_eq!(d.host.snapshot("/base/lower"), lower);
        assert_eq!(d.host.snapshot("/base/lower_upper"), upper);
        assert!(d.host.get("/base/lower.backup").is_none());
    }
    d.host.faults.clear();
    d.act(OverlayAction::CommitAtomic);
    assert_eq!(d.host.text("/base/lower/a").as_deref(), Some("x"));
    assert_eq!(d.host.text("/base/lower/old").as_deref(), Some("o"));
    assert!(d.host.get("/base/lower.new").is_none());
    assert!(d.host.get("/base/lower.backup").is_none());
    assert!(d.host.get("/base/lower_upper").is_none());
}

#[test]
fn without_an_upper_directory_a_commit_changes_nothing() {
    let mut d = Desk::new();
    d.host.file("/base/lower/a", "x");
    let lower = d.host.snapshot("/base/lower");
    for action in [OverlayAction::Commit, OverlayAction::CommitAtomic, OverlayAction::Preserve] {
        d.act(action);
        assert_eq!(d.host.snapshot("/base/lower"), lower);
    }
}

#[test]
fn preserving_keeps_the_upper_layer_for_the_next_mount() {
    let mut d = Desk::new();
    d.mount();
    d.write("a", "x").unwrap();
    d.act(OverlayAction::Preserve);
    assert!(!d.overlay.is_serving());
    assert!(d.host.ids.get(&d.overlay.site_path(Site::MountPoint).components()).is_none());
    d.mount();
    assert_eq!(d.read("a"), Ok("x".to_string()));
}

#[test]
fn the_mount_state_is_told_by_the_device() {
    let mut d = Desk::new();
    assert!(!d.is_mounted());
    d.mount();
    assert!(d.is_mounted());
    d.host.faults.push((Action::Device(Site::MountParent), EACCES));
    assert!(d.is_mounted());
    d.host.faults.push((Action::Device(Site::MountPoint), EACCES));
    assert!(!d.is_mounted());
    d.host.faults.clear();
    d.umount();
    assert!(!d.is_mounted());
}

#[test]
fn the_root_counts_as_mounted() {
    let overlay = OverlayFS::new(p("/base/lower"), 1, 2, &p("/tmp"));
    assert_eq!(
        overlay.is_mounted(&mut Tape::new(&Vec::new())),
        Err(Stop::Ask(Action::Device(Site::MountPoint)))
    );
    let mut rooted = overlay;
    let moved = rooted.mountpoint_as_home(false, Some(p("/")), None);
    assert!(moved.is_some());
    assert_eq!(rooted.handle().mount_point().parent().map(|q| q.bytes), Some(b"/".to_vec()));
}

#[test]
fn a_busy_mount_point_is_detached_in_the_end() {
    let mut d = Desk::new();
    d.mount();
    d.host.busy = true;
    d.host.log.clear();
    d.umount();
    let pauses = d.host.log.iter().filter(|a| **a == Action::Pause).count();
    assert_eq!(pauses, 10);
    let forced: Vec<Action> =
        d.host.log.iter().filter(|a| matches!(a, Action::Unmount(_))).copied().collect();
    assert_eq!(forced, vec![Action::Unmount(false), Action::Unmount(true)]);
    assert_eq!(d.host.log.last(), Some(&Action::RemoveSite(Site::MountPoint)));
    assert!(!d.is_mounted());
}

#[test]
fn a_mount_that_fails_serves_nothing() {
    let mut d = Desk::new();
    d.host.faults.push((Action::Spawn, 19));
    assert_eq!(d.life(&mut |o, t| o.mount(t)), Err(19));
    assert!(!d.overlay.is_serving());
    d.host.remove_tree(&key("/base/lower_upper")).unwrap();
    d.host.faults = vec![(Action::MakeSite(Site::Upper), 13)];
    assert_eq!(d.life(&mut |o, t| o.mount(t)), Err(13));
}

#[test]
fn an_item_that_cannot_be_read_ends_a_merge() {
    let none: Option<CommitFilter> = None;
    let replies: Vec<Reply> = Vec::new();
    let broken = DirItem::Broken(5);
    let r = commit_entry(&mut Tape::new(&replies), &none, &p("d"), &broken);
    assert_eq!(r, Err(Stop::Fail(5)));
    let untold = DirItem::Entry(b"x".to_vec(), Err(6));
    let r = commit_entry(&mut Tape::new(&replies), &none, &p("d"), &untold);
    assert_eq!(r, Err(Stop::Fail(6)));
    let marker = DirItem::Entry(b".wh.x".to_vec(), Ok(FileKind::RegularFile));
    let r = commit_entry(&mut Tape::new(&replies), &none, &p("d"), &marker);
    assert_eq!(r, Err(Stop::Ask(Action::Lstat(Spot::lower(Which::Second)))));
    let (first, second) = commit_paths(&p("d"), &marker);
    assert_eq!((first.bytes, second.bytes), (b"d/.wh.x".to_vec(), b"d/x".to_vec()));
}

/// Marks a directory of the host as replacing its counterpart.
fn mark(d: &mut Desk, path: &str) {
    d.host.edit(path).xattrs.insert(mark_bytes(Mark::User), b"y".to_vec());
}

#[test]
fn nothing_of_the_lower_layer_is_found_below_an_opaque_directory() {
    let mut d = Desk::new();
    d.host.dir("/base/lower/d/sub");
    d.host.file("/base/lower/d/a", "lower");
    d.host.file("/base/lower/d/sub/x", "deep");
    d.host.dir("/base/lower_upper/d/sub");
    d.host.file("/base/lower_upper/d/c", "upper");
    mark(&mut d, "/base/lower_upper/d");
    d.mount();
    assert_eq!(d.look("d/a").map(|a| a.ino), Err(ENOENT));
    assert_eq!(d.look("d/sub/x").map(|a| a.ino), Err(ENOENT));
    assert_eq!(d.read("d/c"), Ok("upper".to_string()));
    assert_eq!(d.names("d"), vec!["c", "sub"]);
    assert_eq!(d.names("d/sub"), Vec::<String>::new());
    assert_eq!(d.rename("d/a", "b", 0), Err(ENOENT));
    // The place is free for something new.
    d.write("d/a", "new").unwrap();
    assert_eq!(d.read("d/a"), Ok("new".to_string()));
}

#[test]
fn an_opaque_root_shows_nothing_of_the_lower_layer() {
    let mut d = Desk::new();
    d.host.file("/base/lower/a", "lower");
    d.host.dir("/base/lower_upper");
    d.host.file("/base/lower_upper/b", "upper");
    mark(&mut d, "/base/lower_upper");
    d.mount();
    assert_eq!(d.names(""), vec!["b"]);
    assert!(!d.found("a"));
    d.umount();
    d.act(OverlayAction::Commit);
    assert!(d.host.get("/base/lower/a").is_none());
    assert_eq!(d.host.text("/base/lower/b"), Some("upper".to_string()));
}

#[test]
fn a_directory_of_both_layers_is_moved_with_all_that_it_shows() {
    let mut d = Desk::new();
    d.host.dir("/base/lower/d/sub");
    d.host.file("/base/lower/d/a", "1");
    d.host.file("/base/lower/d/b", "2");
    d.host.file("/base/lower/d/gone", "3");
    d.host.file("/base/lower/d/sub/x", "4");
    d.mount();
    d.write("d/a", "9").unwrap();
    d.unlink("d/gone").unwrap();
    d.rename("d", "e", 0).unwrap();
    assert!(!d.found("d"));
    assert_eq!(d.names("e"), vec!["a", "b", "sub"]);
    assert_eq!(d.read("e/a"), Ok("9".to_string()));
    assert_eq!(d.read("e/b"), Ok("2".to_string()));
    assert_eq!(d.read("e/sub/x"), Ok("4".to_string()));
}

#[test]
fn a_directory_moved_onto_a_lower_one_shows_what_both_hold() {
    let mut d = Desk::new();
    d.host.dir("/base/lower/d");
    d.host.file("/base/lower/d/a", "1");
    d.host.dir("/base/lower/e");
    d.host.file("/base/lower/e/x", "2");
    d.mount();
    d.rename("d", "e", 0).unwrap();
    assert_eq!(d.names("e"), vec!["a", "x"]);
    assert_eq!(d.read("e/a"), Ok("1".to_string()));
    assert_eq!(d.read("e/x"), Ok("2".to_string()));
    assert!(!d.found("d"));
}

#[test]
fn an_opaque_directory_is_moved_without_what_it_covers() {
    let mut d = Desk::new();
    d.host.dir("/base/lower/d");
    d.host.file("/base/lower/d/b", "2");
    d.host.dir("/base/lower_upper/d");
    d.host.file("/base/lower_upper/d/a", "9");
    mark(&mut d, "/base/lower_upper/d");
    d.mount();
    d.rename("d", "e", 0).unwrap();
    assert_eq!(d.names("e"), vec!["a"]);
}

#[test]
fn a_committed_opaque_directory_replaces_its_counterpart() {
    let mut d = Desk::new();
    d.host.dir("/base/lower/d/old");
    d.host.file("/base/lower/d/b", "2");
    d.host.file("/base/lower/d/old/x", "3");
    d.host.file("/base/lower/kept", "4");
    d.mount();
    d.unlink("d/old/x").unwrap();
    d.rmdir("d/old").unwrap();
    d.unlink("d/b").unwrap();
    d.rmdir("d").unwrap();
    d.mkdir("d").unwrap();
    d.write("d/c", "new").unwrap();
    let shown = d.names("d");
    d.umount();
    d.act(OverlayAction::Commit);
    assert_eq!(shown, vec!["c"]);
    assert_eq!(d.host.children(&key("/base/lower/d")), vec![b"c".to_vec()]);
    assert_eq!(d.host.text("/base/lower/kept"), Some("4".to_string()));
    // The mark is carried over with the other attributes.
    let now = d.host.get("/base/lower/d").unwrap();
    assert_eq!(now.xattrs.get(&mark_bytes(Mark::Trusted)), Some(&b"y".to_vec()));
}

#[test]
fn an_atomic_commit_reads_the_marks_too() {
    let mut d = Desk::new();
    d.host.dir("/base/lower/d");
    d.host.file("/base/lower/d/b", "2");
    d.host.dir("/base/lower_upper/d");
    d.host.file("/base/lower_upper/d/a", "9");
    mark(&mut d, "/base/lower_upper/d");
    d.mount();
    d.umount();
    d.act(OverlayAction::CommitAtomic);
    assert_eq!(d.host.children(&key("/base/lower/d")), vec![b"a".to_vec()]);
    assert_eq!(d.host.children(&key("/base")), vec![b"lower".to_vec()]);
}

#[test]
fn a_committed_directory_takes_the_place_of_a_file() {
    let mut d = Desk::new();
    d.host.file("/base/lower/f", "file");
    d.host.link("/base/lower/l", "nowhere");
    d.mount();
    d.unlink("f").unwrap();
    d.mkdir("f").unwrap();
    d.write("f/x", "in").unwrap();
    d.unlink("l").unwrap();
    d.mkdir("l").unwrap();
    d.umount();
    d.act(OverlayAction::Commit);
    assert_eq!(d.host.get("/base/lower/f").unwrap().kind, FileKind::Directory);
    assert_eq!(d.host.text("/base/lower/f/x"), Some("in".to_string()));
    assert_eq!(d.host.get("/base/lower/l").unwrap().kind, FileKind::Directory);
}

#[test]
fn a_committed_file_takes_the_place_of_a_link() {
    let mut d = Desk::new();
    d.host.file("/base/lower/target", "target");
    d.host.link("/base/lower/l", "target");
    d.mount();
    d.unlink("l").unwrap();
    d.write("l", "file!!").unwrap();
    d.umount();
    d.act(OverlayAction::Commit);
    assert_eq!(d.host.get("/base/lower/l").unwrap().kind, FileKind::RegularFile);
    assert_eq!(d.host.text("/base/lower/l"), Some("file!!".to_string()));
    assert_eq!(d.host.text("/base/lower/target"), Some("target".to_string()));
}

#[test]
fn a_committed_file_does_not_take_the_place_of_a_directory() {
    let mut d = Desk::new();
    d.host.dir("/base/lower/x");
    d.mount();
    d.rmdir("x").unwrap();
    d.write("x", "file").unwrap();
    d.umount();
    d.act(OverlayAction::Commit);
    assert_eq!(d.host.get("/base/lower/x").unwrap().kind, FileKind::Directory);
    // The commit failed, so the change is still there.
    assert_eq!(d.host.text("/base/lower_upper/x"), Some("file".to_string()));
}

#[test]
fn the_directory_itself_is_told_from_the_layer_that_has_it() {
    let mut d = Desk::new();
    d.host.dir("/base/lower/sub");
    d.host.file("/base/lower/sub/a", "xyz");
    d.host.edit("/base/lower/sub").mode = 0o711;
    d.mount();
    let ino = d.look("sub").unwrap().ino;
    let list = d.on(&p("sub"), &mut |o, t| o.list_dir(t, &p("sub"))).unwrap();
    let places = d.ops.as_ref().unwrap().entry_places(ino, &list);
    let metas = d.metas(&places);
    let plain = d.on(&p("sub"), &mut |o, t| o.readdir(t, ino, 0)).unwrap();
    let told = d.ops.as_mut().unwrap().readdirplus(ino, 0, &list, &metas);
    assert_eq!(told[0].name, b".".to_vec());
    assert_eq!(told[0].attr.perm, 0o711);
    assert_eq!(told.len(), plain.len());
    for (a, b) in told.iter().zip(plain.iter()) {
        assert_eq!((&a.name, a.ino, a.offset), (&b.name, b.ino, b.offset));
    }
    // Once the upper layer has the directory, its attributes are told.
    d.set("sub", SetAttr { mode: Some(0o700), ..NOTHING }).unwrap();
    let metas = d.metas(&places);
    let told = d.ops.as_mut().unwrap().readdirplus(ino, 0, &list, &metas);
    assert_eq!(told[0].attr.perm, 0o700);
}

#[test]
fn an_atomic_commit_spares_the_neighbours_of_the_lower_directory() {
    let mut host = Host::new();
    host.dir("/base/app.v1");
    host.file("/base/app.v1/f", "old");
    host.dir("/base/app.new");
    host.file("/base/app.new/mine", "1");
    host.dir("/base/app.backup");
    host.file("/base/app.backup/mine", "2");
    let mut d = Desk { host, overlay: fresh_overlay("/base/app.v1"), ops: None };
    let at = |s: Site| String::from_utf8(d.overlay.site_path(s).bytes).unwrap();
    assert_eq!(at(Site::NewLower), "/base/app.v1.new");
    assert_eq!(at(Site::Backup), "/base/app.v1.backup");
    d.mount();
    d.umount();
    d.host.file("/base/app.v1_upper/f", "new");
    d.act(OverlayAction::CommitAtomic);
    assert_eq!(d.host.text("/base/app.v1/f"), Some("new".to_string()));
    assert_eq!(d.host.text("/base/app.new/mine"), Some("1".to_string()));
    assert_eq!(d.host.text("/base/app.backup/mine"), Some("2".to_string()));
    assert!(d.host.get("/base/app.v1.new").is_none());
    assert!(d.host.get("/base/app.v1.backup").is_none());
}

#[test]
fn a_lower_directory_named_like_a_copy_is_committed() {
    let mut host = Host::new();
    host.dir("/base/app.new");
    host.file("/base/app.new/f", "old");
    let mut d = Desk { host, overlay: fresh_overlay("/base/app.new"), ops: None };
    d.mount();
    d.umount();
    d.host.file("/base/app.new_upper/f", "new");
    d.act(OverlayAction::CommitAtomic);
    assert_eq!(d.host.text("/base/app.new/f"), Some("new".to_string()));
}

#[test]
fn an_operation_hands_out_the_bytes_that_it_sends() {
    let mut ops = OverlayOps::new(fresh_overlay("/base/lower").files(), InodeMode::Virtual);
    let replies: Vec<Reply> = Vec::new();
    let mut t = Tape::new(&replies);
    assert!(t.load.data.is_empty());
    assert!(ops.write(&mut t, ROOT_INO, 0, b"some data").is_err());
    assert_eq!(t.load.data, b"some data".to_vec());
    let mut t = Tape::new(&replies);
    assert!(ops.symlink(&mut t, ROOT_INO, b"l", b"to/there").is_err());
    assert_eq!(t.load.target, b"to/there".to_vec());
    assert_eq!(t.load.link_target(&None), b"to/there".to_vec());
    assert_eq!(t.load.link_target(&Some(b"read".to_vec())), b"read".to_vec());
    let mut t = Tape::new(&replies);
    assert!(ops.setxattr(&mut t, ROOT_INO, b"user.k", b"v").is_err());
    assert_eq!((t.load.name, t.load.value), (b"user.k".to_vec(), b"v".to_vec()));
    let mut t = Tape::new(&replies);
    assert!(ops.getxattr(&mut t, ROOT_INO, b"user.k", 8).is_err());
    assert_eq!(t.load.name, b"user.k".to_vec());
    let mut t = Tape::new(&replies);
    assert!(ops.removexattr(&mut t, ROOT_INO, b"user.k").is_err());
    assert_eq!(t.load.name, b"user.k".to_vec());
}

#[test]
fn what_the_host_says_to_a_move_is_what_the_caller_gets() {
    let mut d = Desk::new();
    d.host.dir("/base/lower/d");
    d.host.file("/base/lower/d/a", "1");
    d.host.dir("/base/lower_upper/e");
    d.host.file("/base/lower_upper/e/x", "2");
    d.mount();
    assert_eq!(d.rename("d", "e", 0), Err(ENOTEMPTY));
    assert_eq!(d.names("d"), vec!["a"]);
    assert_eq!(d.names("e"), vec!["x"]);
}

#[test]
fn a_read_that_fails_is_reported() {
    let mut d = Desk::new();
    d.host.file("/base/lower/a", "abc");
    d.mount();
    d.host.faults.push((Action::ReadSome(3), EIO));
    assert_eq!(d.read_at("a", 0, 3), Err(EIO));
    assert_eq!(d.read_at("a", 0, 2), Ok(b"ab".to_vec()));
    assert_eq!(d.read_at("a", 3, 3), Ok(Vec::new()));
    d.host.faults = vec![(Action::SeekTo(1), EINVAL)];
    assert_eq!(d.read_at("a", 1, 3), Err(EINVAL));
}

#[test]
fn attributes_that_cannot_be_read_stop_a_copy() {
    let x = Spot::lower(Which::First);
    let copy = |replies: Vec<Reply>| OverlayFS::copy_xattrs(&mut Tape::new(&replies), x);
    let names = || Reply::Data(b"user.a\0".to_vec());
    let no = |c: i32| Reply::Failed(Some(c));
    assert_eq!(copy(vec![no(EIO)]), Err(Stop::Fail(EIO)));
    assert_eq!(copy(vec![no(ENOTSUP)]), Err(Stop::Fail(ENOTSUP)));
    assert_eq!(copy(vec![Reply::Data(Vec::new())]), Ok(()));
    assert_eq!(copy(vec![names(), no(EACCES)]), Err(Stop::Fail(EACCES)));
    assert_eq!(copy(vec![names(), Reply::Count(2), no(EACCES)]), Err(Stop::Fail(EACCES)));
    assert_eq!(copy(vec![names(), Reply::Count(2), no(ENODATA)]), Ok(()));
    let grown = |more: Vec<Reply>| {
        let mut all = vec![names(), Reply::Count(2), no(ERANGE)];
        all.extend(more);
        copy(all)
    };
    assert_eq!(grown(vec![no(EACCES)]), Err(Stop::Fail(EACCES)));
    assert_eq!(grown(vec![no(ENODATA)]), Ok(()));
    assert_eq!(grown(vec![Reply::Count(3), no(ERANGE)]), Err(Stop::Fail(ERANGE)));
    assert_eq!(grown(vec![Reply::Count(3), no(ENODATA)]), Ok(()));
    assert_eq!(grown(vec![Reply::Count(0)]), Err(Stop::Ask(Action::SetNthEmpty(0))));
}

#[test]
fn a_file_whose_attributes_cannot_be_listed_is_not_brought_up() {
    let mut d = Desk::new();
    d.host.file("/base/lower/a", "abc");
    d.mount();
    d.host.faults.push((Action::ListXattr(Spot::lower(Which::First)), EIO));
    assert_eq!(d.write_at("a", 0, b"x"), Err(EIO));
}

#[test]
fn a_lower_directory_that_cannot_be_put_back_is_kept_as_the_backup() {
    let mut d = Desk::new();
    d.host.file("/base/lower/old", "o");
    d.mount();
    d.write("a", "x").unwrap();
    d.umount();
    d.host.faults = vec![
        (Action::MoveSite(Site::NewLower, Site::Lower), 28),
        (Action::MoveSite(Site::Backup, Site::Lower), 28),
    ];
    d.act(OverlayAction::CommitAtomic);
    assert_eq!(d.host.log.last(), Some(&Action::Report));
    assert!(d.host.get("/base/lower").is_none());
    assert_eq!(d.host.text("/base/lower.backup/old").as_deref(), Some("o"));
    assert_eq!(d.host.text("/base/lower_upper/a").as_deref(), Some("x"));
}

#[test]
fn a_filter_takes_nothing_away_from_the_lower_layer() {
    for action in [OverlayAction::Commit, OverlayAction::CommitAtomic] {
        let mut d = Desk::new();
        d.host.dir("/base/lower/dev");
        d.host.file("/base/lower/dev/there", "before");
        d.overlay.set_commit_filter(CommitFilter::new().skip_dir(&p("dev")));
        d.mount();
        d.write("dev/null", "n").unwrap();
        d.write("a", "x").unwrap();
        d.umount();
        d.act(action);
        assert_eq!(d.host.children(&key("/base/lower/dev")), vec![b"there".to_vec()]);
        assert_eq!(d.host.text("/base/lower/dev/there").as_deref(), Some("before"));
        assert_eq!(d.host.text("/base/lower/a").as_deref(), Some("x"));
    }
}

#[test]
fn an_operation_tells_the_two_paths_that_it_is_about() {
    let mut d = Desk::new();
    d.host.dir("/base/lower/dir");
    d.host.file("/base/lower/dir/a", "1");
    d.mount();
    let dir = d.look("dir").unwrap().ino;
    let a = d.look("dir/a").unwrap().ino;
    let ops = d.ops.as_ref().expect("mounted");
    let text = |(x, y): (FsPath, FsPath)| {
        (String::from_utf8(x.bytes).unwrap(), String::from_utf8(y.bytes).unwrap())
    };
    let pair = |x: &str, y: &str| (x.to_string(), y.to_string());
    assert_eq!(text(ops.rename_paths(dir, b"a", ROOT_INO, b"b")), pair("dir/a", "b"));
    assert_eq!(text(ops.rename_paths(dir, b"..", dir, b"b")), pair("dir", "dir/b"));
    assert_eq!(text(ops.link_paths(a, ROOT_INO, b"l")), pair("dir/a", "l"));
    assert_eq!(text(ops.link_paths(999, dir, b"l")), pair("", "dir/l"));
    assert_eq!(text(ops.copy_paths(a, dir)), pair("dir/a", "dir"));
    assert_eq!(text(ops.copy_paths(999, a)), pair("", "dir/a"));
    assert_eq!(ops.entry_path(a).bytes, b"dir/a".to_vec());
}

#[test]
fn a_directory_that_is_brought_up_shows_what_it_showed() {
    let mut d = Desk::new();
    d.host.dir("/base/lower/dir/sub");
    d.host.file("/base/lower/dir/a", "1");
    d.mount();
    let before = d.names("dir");
    d.set("dir", SetAttr { mode: Some(0o700), ..NOTHING }).unwrap();
    assert!(d.host.get("/base/lower_upper/dir").is_some());
    assert_eq!(d.names("dir"), before);
    assert_eq!(d.read("dir/a"), Ok("1".to_string()));
}
