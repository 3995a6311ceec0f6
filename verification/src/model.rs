//! A model of the places on disk that an operation is about.
//!
//! Every change may fail, as an oracle decides. What is looked at is what is there. Two
//! different places are taken to be independent of each other.

use crate::errno::{EINVAL, ENODATA, ENOENT, ERANGE};
use crate::protocol::{
    Action, Answer, FileKind, Layer, Loaded, Mark, Meta, Named, Site, Space, Spot, Stamp, TimeSet,
};
use crate::tree::{Changes, Tree};
use vstd::prelude::*;

verus! {

/// What is found at a place.
#[verifier::ext_equal]
pub struct Node {
    pub meta: Meta,
    /// The content of a file.
    pub data: Seq<u8>,
    /// Where a symbolic link points.
    pub target: Seq<u8>,
    /// The extended attributes.
    pub xattrs: Map<Seq<u8>, Seq<u8>>,
    /// The items of a directory.
    pub items: Seq<Named>,
}

/// What the model leaves open.
pub struct Oracle {
    /// Whether the change made at that time fails, and with which code.
    pub fault: spec_fn(nat) -> Option<Option<i32>>,
    /// The metadata of an entry that is created at that time.
    pub born: spec_fn(nat) -> Meta,
    /// What a symbolic link leads to.
    pub beyond: spec_fn(Spot) -> Option<Meta>,
    /// How many bytes are moved at that time, of those asked for.
    pub moved: spec_fn(nat, nat) -> nat,
    /// The names of extended attributes as the system lists them.
    pub listing: spec_fn(Map<Seq<u8>, Seq<u8>>) -> Seq<u8>,
    /// The size and fill of the filesystem of a layer.
    pub space: spec_fn(Layer) -> Option<Space>,
    /// The upper directory as a merge finds it, and the rules of the merge.
    pub changes: Changes,
    /// What a directory holds after a change to it failed halfway.
    pub spoilt: spec_fn(nat) -> Tree,
    /// The moment of the operation.
    pub now: Stamp,
}

/// The state of the places.
pub struct Disk {
    pub nodes: Map<Spot, Node>,
    /// Where the link points that was read last.
    pub hand: Option<Seq<u8>>,
    pub reading: Option<Spot>,
    pub writing: Option<Spot>,
    pub pos: nat,
    /// The extended attributes that are copied, in the order in which they are listed.
    pub source: Seq<(Seq<u8>, Seq<u8>)>,
    /// The extended attributes of the entry they are copied to.
    pub dest: Map<Seq<u8>, Seq<u8>>,
    /// The value just read.
    pub value: Seq<u8>,
    /// The content of each directory that is there.
    pub sites: Map<Site, Tree>,
    /// The device of each directory that is there.
    pub devices: Map<Site, i64>,
    pub clock: nat,
    /// What has been asked for, one request after the other.
    pub log: Seq<Action>,
    /// The bytes that go out with the requests.
    pub load: Loaded,
    pub oracle: Oracle,
}

/// The name of the extended attribute that carries a mark.
pub open spec fn mark_name(mark: Mark) -> Seq<u8> {
    match mark {
        Mark::Trusted => vstd::utf8::encode_utf8("trusted.overlay.opaque"@),
        Mark::User => vstd::utf8::encode_utf8("user.overlay.opaque"@),
    }
}

/// The value of a mark that is set: the byte `y`.
pub open spec fn mark_value() -> Seq<u8> {
    seq![121u8]
}

/// The permissions of an entry replaced.
pub open spec fn with_mode(old: u32, new: u32) -> u32 {
    (old & !0o7777u32) | (new & 0o7777u32)
}

/// A length set: the content cut off or filled up with zero bytes.
pub open spec fn resized(data: Seq<u8>, len: nat) -> Seq<u8> {
    Seq::new(len, |i: int| if i < data.len() { data[i] } else { 0u8 })
}

/// Bytes written at a position.
pub open spec fn spliced(data: Seq<u8>, pos: nat, bytes: Seq<u8>) -> Seq<u8> {
    let len = if pos + bytes.len() > data.len() {
        pos + bytes.len()
    } else {
        data.len()
    };
    Seq::new(
        len,
        |i: int|
            if pos <= i < pos + bytes.len() {
                bytes[i - pos]
            } else if i < data.len() {
                data[i]
            } else {
                0u8
            },
    )
}

/// The bytes found from a position on, at most so many.
pub open spec fn piece(data: Seq<u8>, pos: nat, len: nat) -> Seq<u8> {
    let from = if pos < data.len() { pos } else { data.len() };
    let to = if pos + len < data.len() { pos + len } else { data.len() };
    if from <= to {
        data.subrange(from as int, to as int)
    } else {
        Seq::empty()
    }
}

impl Node {
    pub open spec fn with_meta(self, meta: Meta) -> Node {
        Node { meta, ..self }
    }

    /// The node with another content.
    pub open spec fn with_data(self, data: Seq<u8>) -> Node {
        Node { data, meta: Meta { size: data.len() as u64, ..self.meta }, ..self }
    }

    pub open spec fn is_dir(self) -> bool {
        self.meta.kind is Directory
    }

    pub open spec fn is_file(self) -> bool {
        self.meta.kind is RegularFile
    }

    pub open spec fn is_symlink(self) -> bool {
        self.meta.kind is Symlink
    }
}

impl Disk {
    /// The node at a place.
    pub open spec fn at(self, s: Spot) -> Option<Node> {
        if self.nodes.contains_key(s) {
            Some(self.nodes[s])
        } else {
            None
        }
    }

    /// Where a link points that is made: where the one points that was read last, else where
    /// the request says.
    pub open spec fn link_target(self) -> Seq<u8> {
        match self.hand {
            Some(t) => t,
            None => self.load.target,
        }
    }

    /// Whether a change is possible at all; if it is, the oracle decides.
    #[verifier::opaque]
    pub open spec fn possible(self, a: Action) -> bool {
        match a {
            Action::MakeDir(s) => self.at(s) is None,
            Action::MakeDirs(s) => self.at(s) matches Some(n) ==> n.is_dir(),
            Action::CreateFile(s) => self.at(s) matches Some(n) ==> n.is_file(),
            Action::MakeNode(s, _, _) => self.at(s) is None,
            Action::MakeLink(s) => self.at(s) is None,
            Action::CopyFile(s, d) => self.at(s) is Some && !self.at(s)->0.is_dir() && (self.at(
                d,
            ) matches Some(n) ==> n.is_file()),
            Action::CopyTree(s, d) => self.at(s) matches Some(n) && n.is_dir(),
            Action::CopyXattrs(s, d) => self.at(s) is Some && self.at(d) is Some,
            Action::RemoveFile(s) => self.at(s) matches Some(n) && !n.is_dir(),
            Action::RemoveTree(s) => self.at(s) is Some,
            Action::Rename(s, _) => self.at(s) is Some,
            Action::HardLink(s, d) => self.at(s) is Some && self.at(d) is None,
            Action::SetMode(s, _) => self.at(s) is Some,
            Action::SetOwner(s, _, _) => self.at(s) is Some,
            Action::SetTimes(s, _, _) => self.at(s) is Some,
            Action::SetLen(s, _) => self.at(s) matches Some(n) && n.is_file(),
            Action::SetMark(s, _) => self.at(s) is Some,
            Action::EmptyDir(s) => self.at(s) matches Some(n) && n.is_dir(),
            Action::OpenRead(s) => self.at(s) is Some,
            Action::OpenWrite(s) => self.at(s) matches Some(n) && n.is_file(),
            Action::Truncate(s) => self.at(s) matches Some(n) && n.is_file(),
            Action::SetXattr(s) => self.at(s) is Some,
            Action::RemoveXattr(s) => self.at(s) is Some && self.at(s)->0.xattrs.contains_key(
                self.load.name,
            ),
            Action::RemoveSite(s) => self.sites.contains_key(s),
            Action::CloneSite(s, _) => self.sites.contains_key(s),
            Action::Merge(s) => self.sites.contains_key(s) && self.sites.contains_key(Site::Upper)
                && self.oracle.changes.fit(self.sites[s]),
            Action::SyncSite(s) => self.sites.contains_key(s),
            Action::MoveSite(s, _) => self.sites.contains_key(s),
            _ => true,
        }
    }

    /// Whether a change comes about.
    pub open spec fn works(self, a: Action) -> bool {
        self.possible(a) && (self.oracle.fault)(self.clock) is None
    }

    /// How many bytes are moved now, of those asked for.
    pub open spec fn moves(self, len: nat) -> nat {
        let n = (self.oracle.moved)(self.clock, len);
        if n <= len {
            n
        } else {
            len
        }
    }

    /// The bytes that a copy between the open files moves.
    pub open spec fn copied(self, from: u64, len: u64) -> Seq<u8> {
        match self.reading {
            Some(s) if self.at(s) is Some => {
                let p = piece(self.nodes[s].data, from as nat, len as nat);
                p.take(self.moves(p.len()) as int)
            },
            _ => Seq::empty(),
        }
    }

    /// The reply to a request.
    #[verifier::opaque]
    pub open spec fn reply(self, a: Action) -> Answer {
        match a {
            Action::Lstat(s) => match self.at(s) {
                Some(n) => Answer::Meta(n.meta),
                None => Answer::Failed(Some(ENOENT)),
            },
            Action::Stat(s) => match self.at(s) {
                Some(n) => if n.is_symlink() {
                    match (self.oracle.beyond)(s) {
                        Some(m) => Answer::Meta(m),
                        None => Answer::Failed(Some(ENOENT)),
                    }
                } else {
                    Answer::Meta(n.meta)
                },
                None => Answer::Failed(Some(ENOENT)),
            },
            Action::ReadDir(s) => match self.at(s) {
                Some(n) if n.is_dir() => Answer::Names(n.items),
                _ => Answer::Failed(Some(ENOENT)),
            },
            Action::ReadLink(s) => match self.at(s) {
                Some(n) if n.is_symlink() => Answer::Data(n.target),
                _ => Answer::Failed(Some(EINVAL)),
            },
            Action::ReadMark(s, mark) => match self.at(s) {
                Some(n) if n.xattrs.contains_key(mark_name(mark)) && n.xattrs[mark_name(
                    mark,
                )].len() <= 2 => Answer::Data(n.xattrs[mark_name(mark)]),
                _ => Answer::Failed(Some(ENODATA)),
            },
            Action::ReadSome(len) => match self.reading {
                Some(s) if self.at(s) is Some && self.works(a) => Answer::Data(
                    piece(self.nodes[s].data, self.pos, len as nat),
                ),
                _ => self.failure(a),
            },
            Action::WriteData => if self.works(a) && self.writing is Some {
                Answer::Count(self.moves(self.load.data.len()) as i64)
            } else {
                self.failure(a)
            },
            Action::SeekBy(_, _) => if self.works(a) {
                Answer::Count(self.moves(i64::MAX as nat) as i64)
            } else {
                self.failure(a)
            },
            Action::CopyRange(from, _, len) => if self.works(a) && self.writing is Some {
                Answer::Count(self.copied(from, len).len() as i64)
            } else {
                self.failure(a)
            },
            Action::GetXattr(s, size) => match self.at(s) {
                Some(n) if n.xattrs.contains_key(self.load.name) => if n.xattrs[self.load.name].len()
                    <= size {
                    Answer::Data(n.xattrs[self.load.name])
                } else {
                    Answer::Failed(Some(ERANGE))
                },
                _ => Answer::Failed(Some(ENODATA)),
            },
            Action::XattrSize(s) => match self.at(s) {
                Some(n) if n.xattrs.contains_key(self.load.name) => Answer::Count(
                    n.xattrs[self.load.name].len() as i64,
                ),
                _ => Answer::Failed(Some(ENODATA)),
            },
            Action::ListXattr(s) => match self.at(s) {
                Some(n) => Answer::Data((self.oracle.listing)(n.xattrs)),
                None => Answer::Failed(Some(ENOENT)),
            },
            Action::NthSize(k) => if k < self.source.len() {
                Answer::Count(self.source[k as int].1.len() as i64)
            } else {
                Answer::Failed(Some(ENODATA))
            },
            Action::NthValue(k, n) => if k < self.source.len() {
                if self.source[k as int].1.len() <= n {
                    Answer::Data(self.source[k as int].1)
                } else {
                    Answer::Failed(Some(ERANGE))
                }
            } else {
                Answer::Failed(Some(ENODATA))
            },
            Action::Digest(s) => match self.at(s) {
                Some(n) => Answer::Data(crate::digest::blake3_digest(n.data)),
                None => Answer::Failed(Some(ENOENT)),
            },
            Action::Space(layer) => match (self.oracle.space)(layer) {
                Some(s) => Answer::Space(s),
                None => Answer::Failed(None),
            },
            Action::Exists(site) => if self.sites.contains_key(site) {
                Answer::Done
            } else {
                Answer::Failed(Some(ENOENT))
            },
            Action::Device(site) => if self.devices.contains_key(site) {
                Answer::Count(self.devices[site])
            } else {
                Answer::Failed(Some(ENOENT))
            },
            _ => if self.works(a) {
                Answer::Done
            } else {
                self.failure(a)
            },
        }
    }

    /// The reply to a change that does not come about.
    pub open spec fn failure(self, a: Action) -> Answer {
        match (self.oracle.fault)(self.clock) {
            Some(c) => Answer::Failed(c),
            None => Answer::Failed(
                Some(
                    match a {
                        Action::RemoveFile(s) if self.at(s) is None => ENOENT,
                        Action::RemoveTree(s) if self.at(s) is None => ENOENT,
                        _ => EINVAL,
                    },
                ),
            ),
        }
    }

    /// A new node of the given kind.
    pub open spec fn fresh(self, kind: FileKind) -> Node {
        Node {
            meta: Meta { kind, size: 0, ..(self.oracle.born)(self.clock) },
            data: Seq::empty(),
            target: Seq::empty(),
            xattrs: Map::empty(),
            items: Seq::empty(),
        }
    }

    /// The time that a setting leads to, from the one that was there.
    pub open spec fn stamp(self, t: TimeSet, was: Stamp) -> Stamp {
        match t {
            TimeSet::Keep => was,
            TimeSet::Now => self.oracle.now,
            TimeSet::At(s) => s,
        }
    }

    /// The places after a change that comes about.
    #[verifier::opaque]
    pub open spec fn changed(self, a: Action) -> Map<Spot, Node> {
        let m = self.nodes;
        match a {
            Action::MakeDir(s) => m.insert(s, self.fresh(FileKind::Directory)),
            Action::MakeDirs(s) => if m.contains_key(s) {
                m
            } else {
                m.insert(s, self.fresh(FileKind::Directory))
            },
            Action::CreateFile(s) => m.insert(
                s,
                if m.contains_key(s) {
                    m[s].with_data(Seq::empty())
                } else {
                    self.fresh(FileKind::RegularFile)
                },
            ),
            Action::MakeNode(s, mode, rdev) => {
                let n = self.fresh((self.oracle.born)(self.clock).kind);
                m.insert(s, n.with_meta(Meta { mode, rdev: rdev as u64, ..n.meta }))
            },
            Action::MakeLink(s) => m.insert(
                s,
                Node { target: self.link_target(), ..self.fresh(FileKind::Symlink) },
            ),
            Action::CopyFile(s, d) => {
                let n = if m.contains_key(d) {
                    m[d]
                } else {
                    self.fresh(FileKind::RegularFile)
                };
                let mode = with_mode(n.meta.mode, m[s].meta.mode);
                m.insert(d, n.with_meta(Meta { mode, ..n.meta }).with_data(m[s].data))
            },
            Action::CopyTree(s, d) => if m.contains_key(d) {
                m.insert(d, Node { items: crate::listing::joined(m[d].items, m[s].items), ..m[d] })
            } else {
                m.insert(d, m[s])
            },
            Action::CopyXattrs(s, d) => m.insert(
                d,
                Node { xattrs: m[d].xattrs.union_prefer_right(m[s].xattrs), ..m[d] },
            ),
            Action::RemoveFile(s) => m.remove(s),
            Action::RemoveTree(s) => m.remove(s),
            Action::Rename(s, d) => m.remove(s).insert(d, m[s]),
            Action::HardLink(s, d) => m.insert(d, m[s]),
            Action::SetMode(s, mode) => if m[s].is_symlink() {
                m
            } else {
                m.insert(
                    s,
                    m[s].with_meta(Meta { mode: with_mode(m[s].meta.mode, mode), ..m[s].meta }),
                )
            },
            Action::SetOwner(s, uid, gid) => m.insert(
                s,
                m[s].with_meta(
                    Meta {
                        uid: if uid == u32::MAX {
                            m[s].meta.uid
                        } else {
                            uid
                        },
                        gid: if gid == u32::MAX {
                            m[s].meta.gid
                        } else {
                            gid
                        },
                        ..m[s].meta
                    },
                ),
            ),
            Action::SetTimes(s, atime, mtime) => m.insert(
                s,
                m[s].with_meta(
                    Meta {
                        atime: self.stamp(atime, m[s].meta.atime),
                        mtime: self.stamp(mtime, m[s].meta.mtime),
                        ..m[s].meta
                    },
                ),
            ),
            Action::SetLen(s, len) => m.insert(
                s,
                m[s].with_data(resized(m[s].data, len as nat)),
            ),
            Action::SetMark(s, mark) => m.insert(
                s,
                Node { xattrs: m[s].xattrs.insert(mark_name(mark), mark_value()), ..m[s] },
            ),
            Action::EmptyDir(s) => m.insert(s, Node { items: Seq::empty(), ..m[s] }),
            Action::Truncate(s) => m.insert(s, m[s].with_data(Seq::empty())),
            Action::WriteData => match self.writing {
                Some(s) => m.insert(
                    s,
                    m[s].with_data(
                        spliced(
                            m[s].data,
                            self.pos,
                            self.load.data.take(self.moves(self.load.data.len()) as int),
                        ),
                    ),
                ),
                None => m,
            },
            Action::Allocate(from, len, mode) => match self.writing {
                Some(s) if mode == 0 && m[s].data.len() < from + len => m.insert(
                    s,
                    m[s].with_data(resized(m[s].data, (from + len) as nat)),
                ),
                _ => m,
            },
            Action::CopyRange(from, to, len) => match self.writing {
                Some(s) => m.insert(
                    s,
                    m[s].with_data(spliced(m[s].data, to as nat, self.copied(from, len))),
                ),
                None => m,
            },
            Action::SetXattr(s) => m.insert(
                s,
                Node { xattrs: m[s].xattrs.insert(self.load.name, self.load.value), ..m[s] },
            ),
            Action::RemoveXattr(s) => m.insert(
                s,
                Node { xattrs: m[s].xattrs.remove(self.load.name), ..m[s] },
            ),
            _ => m,
        }
    }

    /// The directories after a change.
    pub open spec fn resited(self, a: Action) -> Map<Site, Tree> {
        let m = self.sites;
        let done = self.works(a);
        match a {
            Action::MakeSite(s) => if done && !m.contains_key(s) {
                m.insert(s, Tree::empty())
            } else {
                m
            },
            Action::RemoveSite(s) => if done {
                m.remove(s)
            } else {
                m
            },
            Action::Obliterate(s) => if done {
                m.remove(s)
            } else {
                m
            },
            Action::CloneSite(s, d) => if done {
                m.insert(d, m[s])
            } else {
                m.insert(d, (self.oracle.spoilt)(self.clock))
            },
            Action::Merge(s) => if done {
                m.insert(s, self.oracle.changes.merged(m[s]))
            } else {
                m.insert(s, (self.oracle.spoilt)(self.clock))
            },
            Action::MoveSite(s, d) => if done {
                m.remove(s).insert(d, m[s])
            } else {
                m
            },
            _ => m,
        }
    }

    /// The state after a request.
    #[verifier::opaque]
    pub open spec fn after(self, a: Action) -> Disk {
        let done = self.works(a);
        Disk {
            nodes: if done {
                self.changed(a)
            } else {
                self.nodes
            },
            hand: match a {
                Action::ReadLink(s) => match self.at(s) {
                    Some(n) if n.is_symlink() => Some(n.target),
                    _ => self.hand,
                },
                _ => self.hand,
            },
            reading: match a {
                Action::OpenRead(s) if done => Some(s),
                _ => self.reading,
            },
            writing: match a {
                Action::OpenWrite(s) if done => Some(s),
                Action::Truncate(s) if done => Some(s),
                _ => self.writing,
            },
            pos: match a {
                Action::OpenRead(_) => 0,
                Action::OpenWrite(_) => 0,
                Action::SeekTo(p) if done => p as nat,
                _ => self.pos,
            },
            value: match a {
                Action::NthValue(k, n) if k < self.source.len() && self.source[k as int].1.len()
                    <= n => self.source[k as int].1,
                _ => self.value,
            },
            dest: match a {
                Action::SetNth(k) if done && k < self.source.len() => self.dest.insert(
                    self.source[k as int].0,
                    self.value,
                ),
                Action::SetNthEmpty(k) if done && k < self.source.len() => self.dest.insert(
                    self.source[k as int].0,
                    Seq::empty(),
                ),
                _ => self.dest,
            },
            sites: self.resited(a),
            clock: self.clock + 1,
            log: self.log.push(a),
            ..self
        }
    }
}

/// Nothing but the clock and the record of requests differs.
pub open spec fn only_later(d: Disk, e: Disk) -> bool {
    &&& e.nodes == d.nodes
    &&& forall|s: Spot| #[trigger] e.at(s) == d.at(s)
    &&& rest_kept(d, e)
    &&& e.hand == d.hand
    &&& e.reading == d.reading
    &&& e.writing == d.writing
    &&& e.pos == d.pos
}

/// What does not change while an operation runs.
pub open spec fn rest_kept(d: Disk, e: Disk) -> bool {
    &&& e.sites == d.sites
    &&& e.devices == d.devices
    &&& e.load == d.load
    &&& e.oracle == d.oracle
}

impl Action {
    /// A request that changes at most what is found at the places, and is done or fails.
    pub open spec fn is_change(self) -> bool {
        match self {
            Action::MakeParents(_) => true,
            Action::MakeDir(_) => true,
            Action::MakeDirs(_) => true,
            Action::CreateFile(_) => true,
            Action::MakeNode(_, _, _) => true,
            Action::MakeLink(_) => true,
            Action::CopyFile(_, _) => true,
            Action::CopyTree(_, _) => true,
            Action::CopyXattrs(_, _) => true,
            Action::RemoveFile(_) => true,
            Action::RemoveTree(_) => true,
            Action::Rename(_, _) => true,
            Action::HardLink(_, _) => true,
            Action::SetMode(_, _) => true,
            Action::SetOwner(_, _, _) => true,
            Action::SetTimes(_, _, _) => true,
            Action::SetLen(_, _) => true,
            Action::SetMark(_, _) => true,
            Action::EmptyDir(_) => true,
            Action::SetXattr(_) => true,
            Action::RemoveXattr(_) => true,
            Action::SyncAll => true,
            Action::Fsync(_) => true,
            Action::Allocate(_, _, _) => true,
            _ => false,
        }
    }
}

/// A change does not reach a place.
pub open spec fn spares(a: Action, s: Spot) -> bool {
    match a {
        Action::MakeDir(x) => s != x,
        Action::MakeDirs(x) => s != x,
        Action::CreateFile(x) => s != x,
        Action::MakeNode(x, _, _) => s != x,
        Action::MakeLink(x) => s != x,
        Action::CopyFile(_, x) => s != x,
        Action::CopyTree(_, x) => s != x,
        Action::CopyXattrs(_, x) => s != x,
        Action::RemoveFile(x) => s != x,
        Action::RemoveTree(x) => s != x,
        Action::Rename(x, y) => s != x && s != y,
        Action::HardLink(_, x) => s != x,
        Action::SetMode(x, _) => s != x,
        Action::SetOwner(x, _, _) => s != x,
        Action::SetTimes(x, _, _) => s != x,
        Action::SetLen(x, _) => s != x,
        Action::SetMark(x, _) => s != x,
        Action::EmptyDir(x) => s != x,
        Action::SetXattr(x) => s != x,
        Action::RemoveXattr(x) => s != x,
        Action::Allocate(_, _, _) => false,
        _ => true,
    }
}

/// The lower layer is the same.
pub open spec fn lower_kept(d: Disk, e: Disk) -> bool {
    forall|s: Spot| s.layer is Lower ==> #[trigger] e.at(s) == d.at(s)
}

/// Nothing differs but one place.
pub open spec fn all_but(d: Disk, e: Disk, x: Spot) -> bool {
    &&& forall|s: Spot| s != x ==> #[trigger] e.at(s) == d.at(s)
    &&& rest_kept(d, e)
}

/// Nothing ever fails on its own account.
pub open spec fn never_faults(d: Disk) -> bool {
    forall|t: nat| #[trigger] (d.oracle.fault)(t) is None
}

/// The code is the one with which the last request failed, if that failed on its own account.
pub open spec fn blames(e: Disk, c: i32) -> bool {
    &&& e.clock > 0
    &&& (e.oracle.fault)((e.clock - 1) as nat) matches Some(f) ==> c == Answer::Failed(f).code()
}

/// The last request did not fail on its own account.
pub open spec fn worked(e: Disk) -> bool {
    &&& e.clock > 0
    &&& (e.oracle.fault)((e.clock - 1) as nat) is None
}

/// Two entries have the same owner and the same times.
pub open spec fn owned_alike(a: Meta, b: Meta) -> bool {
    &&& a.uid == b.uid
    &&& a.gid == b.gid
    &&& a.atime == b.atime
    &&& a.mtime == b.mtime
}

/// An entry has the owner and the times that the system gave it when it was made.
pub open spec fn as_born(d: Disk, m: Meta) -> bool {
    exists|t: nat| owned_alike(m, #[trigger] (d.oracle.born)(t))
}

/// The given request was the last one.
pub open spec fn asked_last(e: Disk, a: Action) -> bool {
    e.log.len() > 0 && e.log.last() == a
}

/// How many of so many bytes the last request moved.
pub open spec fn moved_last(e: Disk, len: nat) -> nat {
    let n = (e.oracle.moved)((e.clock - 1) as nat, len);
    if n <= len {
        n
    } else {
        len
    }
}

/// Every request is recorded, and takes its moment.
pub proof fn step_log(d: Disk, a: Action)
    ensures
        d.after(a).log == d.log.push(a),
        asked_last(d.after(a), a),
        d.after(a).clock == d.clock + 1,
        d.after(a).oracle == d.oracle,
{
    reveal(Disk::after);
}

/// Looking at the entry itself.
pub proof fn step_lstat(d: Disk, s: Spot)
    ensures
        d.reply(Action::Lstat(s)) == (match d.at(s) {
            Some(n) => Answer::Meta(n.meta),
            None => Answer::Failed(Some(ENOENT)),
        }),
        only_later(d, d.after(Action::Lstat(s))),
{
    reveal(Disk::reply);
    reveal(Disk::after);
    reveal(Disk::changed);
}

/// A change that is done or fails.
pub proof fn step_change(d: Disk, a: Action)
    requires
        a.is_change(),
    ensures
        d.works(a) ==> d.reply(a) is Done && d.after(a).nodes == d.changed(a),
        !d.works(a) ==> d.reply(a) is Failed && d.after(a).nodes == d.nodes,
        d.works(a) ==> worked(d.after(a)),
        !d.works(a) ==> blames(d.after(a), d.reply(a).code()),
        asked_last(d.after(a), a),
        rest_kept(d, d.after(a)),
        d.after(a).hand == d.hand,
        d.after(a).reading == d.reading,
        d.after(a).writing == d.writing,
        d.after(a).pos == d.pos,
{
    reveal(Disk::reply);
    reveal(Disk::after);
}

/// A change leaves alone what it does not reach.
pub proof fn step_frame(d: Disk, a: Action)
    requires
        a.is_change(),
    ensures
        forall|s: Spot| spares(a, s) ==> #[trigger] d.after(a).at(s) == d.at(s),
{
    step_change(d, a);
    reveal(Disk::changed);
}

/// Reading the target of a link.
pub proof fn step_readlink(d: Disk, s: Spot)
    ensures
        d.at(s) is Some && d.at(s)->0.is_symlink() ==> d.reply(Action::ReadLink(s))
            == Answer::Data(d.at(s)->0.target) && d.after(Action::ReadLink(s)).hand
            == Some(d.at(s)->0.target),
        !(d.at(s) is Some && d.at(s)->0.is_symlink()) ==> d.reply(Action::ReadLink(s)) is Failed,
        d.after(Action::ReadLink(s)).nodes == d.nodes,
        rest_kept(d, d.after(Action::ReadLink(s))),
{
    reveal(Disk::reply);
    reveal(Disk::after);
    reveal(Disk::changed);
}

/// Creating the directories above a place changes none of the places.
pub proof fn step_parents(d: Disk, s: Spot)
    ensures
        asked_last(d.after(Action::MakeParents(s)), Action::MakeParents(s)),
        only_later(d, d.after(Action::MakeParents(s))),
        d.reply(Action::MakeParents(s)) is Done || d.reply(Action::MakeParents(s)) is Failed,
        never_faults(d) ==> d.reply(Action::MakeParents(s)) is Done,
        d.reply(Action::MakeParents(s)) is Failed ==> blames(
            d.after(Action::MakeParents(s)),
            d.reply(Action::MakeParents(s)).code(),
        ),
{
    step_change(d, Action::MakeParents(s));
    reveal(Disk::changed);
    reveal(Disk::possible);
}

/// Looking at what an entry leads to: at the entry itself, unless it is a link.
pub proof fn step_stat(d: Disk, s: Spot)
    ensures
        d.at(s) is None ==> d.reply(Action::Stat(s)) is Failed,
        d.at(s) is Some && !d.at(s)->0.is_symlink() ==> d.reply(Action::Stat(s)) == Answer::Meta(
            d.at(s)->0.meta,
        ),
        d.reply(Action::Stat(s)) is Meta || d.reply(Action::Stat(s)) is Failed,
        only_later(d, d.after(Action::Stat(s))),
{
    reveal(Disk::reply);
    reveal(Disk::after);
    reveal(Disk::changed);
}

/// Reading a directory.
pub proof fn step_readdir(d: Disk, s: Spot)
    ensures
        d.at(s) is Some && d.at(s)->0.is_dir() ==> d.reply(Action::ReadDir(s)) == Answer::Names(
            d.at(s)->0.items,
        ),
        !(d.at(s) is Some && d.at(s)->0.is_dir()) ==> d.reply(Action::ReadDir(s)) is Failed,
        only_later(d, d.after(Action::ReadDir(s))),
{
    reveal(Disk::reply);
    reveal(Disk::after);
    reveal(Disk::changed);
}

/// Reading a mark.
pub proof fn step_readmark(d: Disk, s: Spot, mark: Mark)
    ensures
        d.at(s) is Some && d.at(s)->0.xattrs.contains_key(mark_name(mark)) && d.at(
            s,
        )->0.xattrs[mark_name(mark)].len() <= 2 ==> d.reply(Action::ReadMark(s, mark))
            == Answer::Data(d.at(s)->0.xattrs[mark_name(mark)]),
        !(d.at(s) is Some && d.at(s)->0.xattrs.contains_key(mark_name(mark)) && d.at(
            s,
        )->0.xattrs[mark_name(mark)].len() <= 2) ==> d.reply(Action::ReadMark(s, mark)) is Failed,
        only_later(d, d.after(Action::ReadMark(s, mark))),
{
    reveal(Disk::reply);
    reveal(Disk::after);
    reveal(Disk::changed);
}

/// Opening a file for reading.
pub proof fn step_open_read(d: Disk, s: Spot)
    ensures
        ({
            let a = Action::OpenRead(s);
            let e = d.after(a);
            &&& d.reply(a) is Done || d.reply(a) is Failed
            &&& d.reply(a) is Done ==> e.reading == Some(s) && d.at(s) is Some
            &&& d.reply(a) is Failed ==> blames(e, d.reply(a).code())
            &&& never_faults(d) && d.at(s) is Some ==> d.reply(a) is Done
            &&& e.nodes == d.nodes
            &&& forall|x: Spot| #[trigger] e.at(x) == d.at(x)
            &&& e.writing == d.writing
            &&& rest_kept(d, e)
        }),
{
    reveal(Disk::reply);
    reveal(Disk::after);
    reveal(Disk::changed);
    reveal(Disk::possible);
}

/// Opening a file for writing.
pub proof fn step_open_write(d: Disk, s: Spot)
    ensures
        ({
            let a = Action::OpenWrite(s);
            let e = d.after(a);
            &&& d.reply(a) is Done || d.reply(a) is Failed
            &&& d.reply(a) is Done ==> e.writing == Some(s) && d.at(s) is Some && d.at(
                s,
            )->0.is_file()
            &&& never_faults(d) && d.at(s) is Some && d.at(s)->0.is_file() ==> d.reply(a) is Done
            &&& d.reply(a) is Failed ==> blames(e, d.reply(a).code())
            &&& e.nodes == d.nodes
            &&& forall|x: Spot| #[trigger] e.at(x) == d.at(x)
            &&& e.reading == d.reading
            &&& rest_kept(d, e)
        }),
{
    reveal(Disk::reply);
    reveal(Disk::after);
    reveal(Disk::changed);
    reveal(Disk::possible);
}

/// Moving to a position.
pub proof fn step_seek(d: Disk, p: u64)
    ensures
        ({
            let a = Action::SeekTo(p);
            let e = d.after(a);
            &&& d.reply(a) is Done || d.reply(a) is Failed
            &&& d.reply(a) is Done ==> e.pos == p
            &&& d.reply(a) is Failed ==> blames(e, d.reply(a).code())
            &&& never_faults(d) ==> d.reply(a) is Done
            &&& e.nodes == d.nodes
            &&& forall|x: Spot| #[trigger] e.at(x) == d.at(x)
            &&& e.reading == d.reading
            &&& e.writing == d.writing
            &&& rest_kept(d, e)
        }),
{
    reveal(Disk::reply);
    reveal(Disk::after);
    reveal(Disk::changed);
    reveal(Disk::possible);
}

/// Reading from the open file.
pub proof fn step_read_some(d: Disk, s: Spot, len: u32)
    requires
        d.reading == Some(s),
        d.at(s) is Some,
    ensures
        d.reply(Action::ReadSome(len)) is Failed || d.reply(Action::ReadSome(len)) == Answer::Data(
            piece(d.at(s)->0.data, d.pos, len as nat),
        ),
        never_faults(d) ==> d.reply(Action::ReadSome(len)) is Data,
        d.reply(Action::ReadSome(len)) is Data ==> worked(d.after(Action::ReadSome(len))),
        d.reply(Action::ReadSome(len)) is Failed ==> blames(
            d.after(Action::ReadSome(len)),
            d.reply(Action::ReadSome(len)).code(),
        ),
        only_later(d, d.after(Action::ReadSome(len))),
{
    reveal(Disk::reply);
    reveal(Disk::after);
    reveal(Disk::changed);
    reveal(Disk::possible);
}

/// Writing to the open file.
pub proof fn step_write_data(d: Disk, s: Spot)
    requires
        d.writing == Some(s),
        d.at(s) is Some,
    ensures
        ({
            let a = Action::WriteData;
            let e = d.after(a);
            let n = d.moves(d.load.data.len());
            &&& d.reply(a) is Failed || d.reply(a) == Answer::Count(n as i64)
            &&& d.reply(a) is Count ==> worked(e)
            &&& d.reply(a) is Failed ==> blames(e, d.reply(a).code())
            &&& never_faults(d) ==> d.reply(a) is Count
            &&& d.reply(a) is Count ==> e.at(s) == Some(
                d.at(s)->0.with_data(
                    spliced(d.at(s)->0.data, d.pos, d.load.data.take(n as int)),
                ),
            )
            &&& forall|x: Spot| x != s ==> #[trigger] e.at(x) == d.at(x)
            &&& rest_kept(d, e)
            &&& e.writing == d.writing
        }),
{
    reveal(Disk::reply);
    reveal(Disk::after);
    reveal(Disk::changed);
    reveal(Disk::possible);
}

/// Copying between the open files.
pub proof fn step_copy_range(d: Disk, s: Spot, x: Spot, from: u64, to: u64, len: u64)
    requires
        d.reading == Some(s),
        d.writing == Some(x),
        d.at(s) is Some,
        d.at(x) is Some,
    ensures
        ({
            let a = Action::CopyRange(from, to, len);
            let e = d.after(a);
            let bytes = piece(d.at(s)->0.data, from as nat, len as nat);
            let n = d.moves(bytes.len());
            &&& n <= bytes.len()
            &&& d.reply(a) is Failed || d.reply(a) == Answer::Count(n as i64)
            &&& d.reply(a) is Count ==> worked(e)
            &&& d.reply(a) is Failed ==> blames(e, d.reply(a).code())
            &&& never_faults(d) ==> d.reply(a) is Count
            &&& d.reply(a) is Count ==> e.at(x) == Some(
                d.at(x)->0.with_data(spliced(d.at(x)->0.data, to as nat, bytes.take(n as int))),
            )
            &&& forall|y: Spot| y != x ==> #[trigger] e.at(y) == d.at(y)
            &&& rest_kept(d, e)
        }),
{
    reveal(Disk::reply);
    reveal(Disk::after);
    reveal(Disk::changed);
    reveal(Disk::possible);
}

/// Changing the allocation of the file opened for writing.
pub proof fn step_allocate(d: Disk, s: Spot, from: u64, len: u64, mode: i32)
    requires
        d.writing == Some(s),
        d.at(s) is Some,
    ensures
        ({
            let a = Action::Allocate(from, len, mode);
            let e = d.after(a);
            let data = d.at(s)->0.data;
            &&& d.reply(a) is Done || d.reply(a) is Failed
            &&& d.reply(a) is Done ==> worked(e)
            &&& d.reply(a) is Failed ==> blames(e, d.reply(a).code())
            &&& never_faults(d) ==> d.reply(a) is Done
            &&& d.reply(a) is Done ==> e.at(s) == Some(
                if mode == 0 && data.len() < from + len {
                    d.at(s)->0.with_data(resized(data, (from + len) as nat))
                } else {
                    d.at(s)->0
                },
            )
            &&& forall|y: Spot| y != s ==> #[trigger] e.at(y) == d.at(y)
            &&& rest_kept(d, e)
        }),
{
    reveal(Disk::reply);
    reveal(Disk::after);
    reveal(Disk::changed);
    reveal(Disk::possible);
}

/// Opening a file and emptying it.
pub proof fn step_truncate(d: Disk, s: Spot)
    ensures
        ({
            let a = Action::Truncate(s);
            let e = d.after(a);
            &&& d.reply(a) is Done || d.reply(a) is Failed
            &&& d.reply(a) is Done ==> d.at(s) is Some && e.at(s) == Some(
                d.at(s)->0.with_data(Seq::empty()),
            )
            &&& never_faults(d) && d.at(s) is Some && d.at(s)->0.is_file() ==> d.reply(a) is Done
            &&& d.reply(a) is Failed ==> blames(e, d.reply(a).code())
            &&& forall|x: Spot| x != s ==> #[trigger] e.at(x) == d.at(x)
            &&& rest_kept(d, e)
        }),
{
    reveal(Disk::reply);
    reveal(Disk::after);
    reveal(Disk::changed);
    reveal(Disk::possible);
}

/// Asking for the extended attribute whose name goes out.
pub proof fn step_get_xattr(d: Disk, s: Spot, size: u32)
    ensures
        d.at(s) is Some && d.at(s)->0.xattrs.contains_key(d.load.name) ==> {
            let v = d.at(s)->0.xattrs[d.load.name];
            &&& d.reply(Action::XattrSize(s)) == Answer::Count(v.len() as i64)
            &&& v.len() <= size ==> d.reply(Action::GetXattr(s, size)) == Answer::Data(v)
            &&& v.len() > size ==> d.reply(Action::GetXattr(s, size)) == Answer::Failed(
                Some(ERANGE),
            )
        },
        !(d.at(s) is Some && d.at(s)->0.xattrs.contains_key(d.load.name)) ==> {
            &&& d.reply(Action::XattrSize(s)) == Answer::Failed(Some(ENODATA))
            &&& d.reply(Action::GetXattr(s, size)) == Answer::Failed(Some(ENODATA))
        },
        only_later(d, d.after(Action::XattrSize(s))),
        only_later(d, d.after(Action::GetXattr(s, size))),
{
    reveal(Disk::reply);
    reveal(Disk::after);
    reveal(Disk::changed);
}

/// A layer is the same.
pub open spec fn layer_kept(d: Disk, e: Disk, layer: Layer) -> bool {
    forall|s: Spot| s.layer == layer ==> #[trigger] e.at(s) == d.at(s)
}

/// A request that changes at most one layer leaves the other as it is, as long as the file
/// that is open for writing is in the first.
pub proof fn law_other_layer_untouched(d: Disk, a: Action, layer: Layer, other: Layer)
    requires
        layer != other,
        a.changes_only(layer),
        d.writing matches Some(s) ==> s.layer == layer,
    ensures
        layer_kept(d, d.after(a), other),
        d.after(a).writing matches Some(s) ==> s.layer == layer,
{
    let e = d.after(a);
    assert(e.nodes == (if d.works(a) {
        d.changed(a)
    } else {
        d.nodes
    }) && (e.writing matches Some(s) ==> s.layer == layer)) by {
        reveal(Disk::after);
    }
    assert forall|s: Spot| s.layer == other implies #[trigger] e.at(s) == d.at(s) by {
        lemma_changed_elsewhere(d, a, layer, s);
    }
}

proof fn lemma_changed_elsewhere(d: Disk, a: Action, layer: Layer, s: Spot)
    requires
        s.layer != layer,
        a.changes_only(layer),
        d.writing matches Some(x) ==> x.layer == layer,
    ensures
        d.changed(a).contains_key(s) == d.nodes.contains_key(s),
        d.nodes.contains_key(s) ==> d.changed(a)[s] == d.nodes[s],
{
    reveal(Disk::changed);
}

/// Asking for the digest of a file.
pub proof fn step_digest(d: Disk, s: Spot)
    ensures
        d.at(s) is Some ==> d.reply(Action::Digest(s)) == Answer::Data(
            crate::digest::blake3_digest(d.at(s)->0.data),
        ),
        only_later(d, d.after(Action::Digest(s))),
{
    reveal(Disk::reply);
    reveal(Disk::after);
    reveal(Disk::changed);
}

/// Removing what is not there.
pub proof fn step_remove_absent(d: Disk, a: Action, s: Spot)
    requires
        a == Action::RemoveFile(s) || a == Action::RemoveTree(s),
        d.at(s) is None,
    ensures
        only_later(d, d.after(a)),
        never_faults(d) ==> d.reply(a) == Answer::Failed(Some(ENOENT)),
        d.reply(a) is Failed,
{
    reveal(Disk::reply);
    reveal(Disk::after);
    reveal(Disk::possible);
}

impl Action {
    /// A request about the directories of an overlay that is done or fails.
    pub open spec fn is_upkeep(self) -> bool {
        match self {
            Action::MakeSite(_) => true,
            Action::Spawn => true,
            Action::EndSession => true,
            Action::Pause => true,
            Action::Unmount(_) => true,
            Action::RemoveSite(_) => true,
            Action::Obliterate(_) => true,
            Action::CloneSite(_, _) => true,
            Action::Merge(_) => true,
            Action::SyncSite(_) => true,
            Action::MoveSite(_, _) => true,
            Action::Report => true,
            _ => false,
        }
    }
}

/// A request about the directories of an overlay.
pub proof fn step_upkeep(d: Disk, a: Action)
    requires
        a.is_upkeep(),
    ensures
        d.works(a) ==> d.reply(a) is Done && worked(d.after(a)),
        !d.works(a) ==> d.reply(a) is Failed && blames(d.after(a), d.reply(a).code()),
        d.after(a).sites == d.resited(a),
        d.after(a).oracle == d.oracle,
        d.after(a).devices == d.devices,
{
    reveal(Disk::reply);
    reveal(Disk::after);
}

/// Asking whether a directory is there, or which device it lies on.
pub proof fn step_look(d: Disk, site: Site)
    ensures
        d.reply(Action::Exists(site)) is Done <==> d.sites.contains_key(site),
        d.after(Action::Exists(site)).sites == d.sites,
        d.after(Action::Exists(site)).oracle == d.oracle,
        d.after(Action::Exists(site)).devices == d.devices,
        d.devices.contains_key(site) ==> d.reply(Action::Device(site)) == Answer::Count(
            d.devices[site],
        ),
        !d.devices.contains_key(site) ==> d.reply(Action::Device(site)) is Failed,
        d.after(Action::Device(site)).sites == d.sites,
        d.after(Action::Device(site)).oracle == d.oracle,
        d.after(Action::Device(site)).devices == d.devices,
{
    reveal(Disk::reply);
    reveal(Disk::after);
}

} // verus!
