//! Merging the upper layer into the directory below it.
//!
//! Here the upper layer is the source and the lower one the destination. The first path
//! is that of the entry at hand; the second is that of the entry which a marker hides.

use crate::errno::ENOENT;
use crate::filter::{CommitFilter, Rules};
use crate::listing::marker_target;
use crate::path::{bytes_eq, FsPath};
use crate::protocol::{
    Action, Answer, DirItem, FileKind, Flow, Meta, Named, Reply, Spot, Stop, Tape,
    TimeSet, Which, World,
};
use crate::text::to_lossy;
use crate::xattr::is_opaque_dir;
use vstd::prelude::*;

verus! {

/// The entry to be merged.
pub open spec fn source() -> Spot {
    Spot::upper(Which::First)
}

/// Where the entry is merged to.
pub open spec fn destination() -> Spot {
    Spot::lower(Which::First)
}

/// Gives the destination the permissions, the owner, the times and the extended
/// attributes of the source. A link has no permissions of its own and is not followed.
pub open spec fn syncing_metadata(w: World) -> Flow<()> {
    Action::Lstat(source()).meta(w).bind(
        |meta: Meta, w: World|
            syncing_mode(meta, w).bind(
                |u: (), w: World|
                    Action::SetOwner(destination(), meta.uid, meta.gid).run(w).bind(
                        |u: (), w: World|
                            Action::SetTimes(
                                destination(),
                                TimeSet::At(meta.atime),
                                TimeSet::At(meta.mtime),
                            ).attempt(w).bind(
                                |u: (), w: World|
                                    Action::CopyXattrs(source(), destination()).run(w),
                            ),
                    ),
            ),
    )
}

/// Gives the destination the permissions of the source, unless that is a link.
pub open spec fn syncing_mode(meta: Meta, w: World) -> Flow<()> {
    if meta.kind is Symlink {
        Flow::Got((), w)
    } else {
        Action::SetMode(destination(), meta.mode).run(w)
    }
}

/// Whether the destination is taken to have the content of the source: it is a file, both
/// have the same length, and either the same time of modification or the same digest.
pub open spec fn comparing(w: World) -> Flow<bool> {
    Action::Lstat(destination()).probe(w).bind(
        |m: Option<Meta>, w: World|
            match m {
                None => Flow::Got(false, w),
                Some(dst) => if dst.kind is RegularFile {
                    comparing_files(dst, w)
                } else {
                    Flow::Got(false, w)
                },
            },
    )
}

/// Whether a file at the destination is taken to have the content of the source.
pub open spec fn comparing_files(dst: Meta, w: World) -> Flow<bool> {
    Action::Stat(source()).meta(w).bind(
        |src: Meta, w: World|
            if src.size != dst.size {
                Flow::Got(false, w)
            } else if src.mtime == dst.mtime {
                Flow::Got(true, w)
            } else {
                comparing_digests(w)
            },
    )
}

/// Whether the digests of source and destination are equal.
pub open spec fn comparing_digests(w: World) -> Flow<bool> {
    Action::Digest(source()).data(w).bind(
        |a: Seq<u8>, w: World|
            Action::Digest(destination()).data(w).bind(
                |b: Seq<u8>, w: World| Flow::Got(a == b, w),
            ),
    )
}

/// Puts a copy of the source in place of whatever is at the destination.
pub open spec fn replacing(w: World) -> Flow<()> {
    Action::Lstat(destination()).probe(w).bind(
        |m: Option<Meta>, w: World|
            replacing_old(m is Some, w).bind(
                |u: (), w: World|
                    Action::CopyFile(source(), destination()).run(w).bind(
                        |u: (), w: World|
                            syncing_metadata(w).bind(|u: (), w: World| flushing(w)),
                    ),
            ),
    )
}

/// Removes what is at the destination, if there is something.
pub open spec fn replacing_old(there: bool, w: World) -> Flow<()> {
    if there {
        Action::RemoveFile(destination()).run(w)
    } else {
        Flow::Got((), w)
    }
}

/// Flushes the destination, where it can be opened for that.
pub open spec fn flushing(w: World) -> Flow<()> {
    Action::OpenWrite(destination()).test(w).bind(
        |open: bool, w: World|
            if open {
                Action::Fsync(true).run(w)
            } else {
                Flow::Got((), w)
            },
    )
}

/// Copies a file, or its metadata alone if the destination has its content already.
pub open spec fn copying_file(w: World) -> Flow<()> {
    comparing(w).bind(
        |equal: bool, w: World|
            if equal {
                syncing_metadata(w)
            } else {
                replacing(w)
            },
    )
}

/// Makes a link with the target of the source in place of whatever is at the destination.
pub open spec fn copying_link(w: World) -> Flow<()> {
    Action::ReadLink(source()).data(w).bind(
        |target: Seq<u8>, w: World|
            Action::Lstat(destination()).probe(w).bind(
                |m: Option<Meta>, w: World|
                    dropping_old(m is Some, w).bind(
                        |u: (), w: World|
                            Action::MakeLink(destination()).run(w).bind(
                                |u: (), w: World| syncing_metadata(w),
                            ),
                    ),
            ),
    )
}

/// Tries to remove what is at the destination, if there is something.
pub open spec fn dropping_old(there: bool, w: World) -> Flow<()> {
    if there {
        Action::RemoveFile(destination()).attempt(w)
    } else {
        Flow::Got((), w)
    }
}

/// Makes sure that the destination is a directory. What it holds is removed if the source
/// replaces its counterpart. The mark that says so is copied with the other attributes.
pub open spec fn copying_dir(w: World) -> Flow<()> {
    Action::Lstat(destination()).probe(w).bind(
        |m: Option<Meta>, w: World|
            crate::xattr::sealed(source(), w).bind(
                |opaque: bool, w: World|
                    making_room(m, opaque, w).bind(|u: (), w: World| syncing_metadata(w)),
            ),
    )
}

/// Makes room for a directory: one that is there is emptied if it is to be replaced, and
/// anything else gives way to a new one.
pub open spec fn making_room(there: Option<Meta>, opaque: bool, w: World) -> Flow<()> {
    match there {
        None => Action::MakeDirs(destination()).run(w),
        Some(meta) => if meta.kind is Directory {
            emptying(opaque, w)
        } else {
            Action::RemoveFile(destination()).run(w).bind(
                |u: (), w: World| Action::MakeDirs(destination()).run(w),
            )
        },
    }
}

/// Removes what the destination holds, if it is to be replaced.
pub open spec fn emptying(opaque: bool, w: World) -> Flow<()> {
    if opaque {
        Action::EmptyDir(destination()).run(w)
    } else {
        Flow::Got((), w)
    }
}

/// Prepares the directory that the upper one is merged into: what it holds is removed if
/// the upper one replaces it.
pub open spec fn preparing_root(w: World) -> Flow<()> {
    crate::xattr::sealed(source(), w).bind(|opaque: bool, w: World| emptying(opaque, w))
}

/// Merges an entry by its type; says whether it is a directory to be entered.
pub open spec fn merging(kind: FileKind, w: World) -> Flow<bool> {
    match kind {
        FileKind::Directory => copying_dir(w).bind(|u: (), w: World| Flow::Got(true, w)),
        FileKind::Symlink => copying_link(w).bind(|u: (), w: World| Flow::Got(false, w)),
        _ => copying_file(w).bind(|u: (), w: World| Flow::Got(false, w)),
    }
}

/// Deletes the entry that a marker hides. That it is not there is no failure.
pub open spec fn deleting(w: World) -> Flow<()> {
    let s = Spot::lower(Which::Second);
    Action::Lstat(s).probe(w).bind(
        |m: Option<Meta>, w: World|
            deleting_by(
                if m matches Some(meta) && meta.kind is Directory {
                    Action::RemoveTree(s)
                } else {
                    Action::RemoveFile(s)
                },
                w,
            ),
    )
}

/// Deletes an entry in the given way. That it is not there is no failure.
pub open spec fn deleting_by(remove: Action, w: World) -> Flow<()> {
    remove.ask(w).bind(
        |r: Answer, w: World|
            if r is Done || r == Answer::Failed(Some(ENOENT)) {
                Flow::Got((), w)
            } else {
                Flow::Fail(r.code(), w)
            },
    )
}

/// Whether the rules keep an entry out; its metadata is read only where they need it.
pub open spec fn filtering(rules: Rules, rel: Seq<u8>, is_dir: bool, w: World) -> Flow<bool> {
    if rules.needs_meta(rel) {
        Action::Lstat(source()).probe(w).bind(
            |m: Option<Meta>, w: World| Flow::Got(rules.excludes(rel, is_dir, m), w),
        )
    } else {
        Flow::Got(rules.excludes(rel, is_dir, None), w)
    }
}

/// Merges an entry that is no marker, unless a filter keeps it out.
pub open spec fn admitting(
    filter: Option<Rules>,
    rel: Seq<u8>,
    kind: FileKind,
    w: World,
) -> Flow<bool> {
    match filter {
        None => merging(kind, w),
        Some(rules) => filtering(rules, rel, kind is Directory, w).bind(
            |out: bool, w: World|
                if out {
                    Flow::Got(false, w)
                } else {
                    merging(kind, w)
                },
        ),
    }
}

/// Merges an item of a directory. A marker deletes what it hides, whatever the filter
/// says. An item that could not be read ends the merge.
pub open spec fn committing(
    filter: Option<Rules>,
    dir: Seq<u8>,
    item: Named,
    w: World,
) -> Flow<bool> {
    match item {
        Named::Broken(c) => Flow::Fail(c, w),
        Named::Entry(name, kind) => match kind {
            Err(c) => Flow::Fail(c, w),
            Ok(k) => if crate::listing::is_marker(crate::text::lossy(name)) {
                deleting(w).bind(|u: (), w: World| Flow::Got(false, w))
            } else {
                admitting(filter, crate::path::join(dir, name), k, w)
            },
        },
    }
}

fn src() -> (r: Spot)
    ensures
        r == source(),
{
    Spot::upper(Which::First)
}

fn dst() -> (r: Spot)
    ensures
        r == destination(),
{
    Spot::lower(Which::First)
}

/// Gives the destination the permissions, the owner, the times and the extended
/// attributes of the source.
pub fn sync_metadata(t: &mut Tape) -> (r: Result<(), Stop>)
    ensures
        final(t).flow(r) == syncing_metadata(old(t).world()),
        crate::protocol::spares_upper(r),
{
    let meta = t.meta(Action::Lstat(src()))?;
    if meta.kind != FileKind::Symlink {
        t.run(Action::SetMode(dst(), meta.mode))?;
    }
    t.run(Action::SetOwner(dst(), meta.uid, meta.gid))?;
    t.attempt(Action::SetTimes(dst(), TimeSet::At(meta.atime), TimeSet::At(meta.mtime)))?;
    t.run(Action::CopyXattrs(src(), dst()))
}

/// Whether the destination is taken to have the content of the source.
pub fn files_are_equal(t: &mut Tape) -> (r: Result<bool, Stop>)
    ensures
        final(t).flow(r) == comparing(old(t).world()),
        crate::protocol::spares_upper(r),
{
    let there = match t.probe(Action::Lstat(dst()))? {
        Some(meta) => meta,
        None => return Ok(false),
    };
    if there.kind != FileKind::RegularFile {
        return Ok(false);
    }
    let here = t.meta(Action::Stat(src()))?;
    if here.size != there.size {
        return Ok(false);
    }
    if here.mtime == there.mtime {
        return Ok(true);
    }
    let a = t.data(Action::Digest(src()))?;
    let b = t.data(Action::Digest(dst()))?;
    Ok(bytes_eq(a.as_slice(), b.as_slice()))
}

fn replace(t: &mut Tape) -> (r: Result<(), Stop>)
    ensures
        final(t).flow(r) == replacing(old(t).world()),
        crate::protocol::spares_upper(r),
{
    if t.probe(Action::Lstat(dst()))?.is_some() {
        t.run(Action::RemoveFile(dst()))?;
    }
    t.run(Action::CopyFile(src(), dst()))?;
    sync_metadata(t)?;
    if t.test(Action::OpenWrite(dst()))? {
        t.run(Action::Fsync(true))?;
    }
    Ok(())
}

/// Copies a file, or its metadata alone if the destination has its content already.
pub fn copy_if_different(t: &mut Tape) -> (r: Result<(), Stop>)
    ensures
        final(t).flow(r) == copying_file(old(t).world()),
        crate::protocol::spares_upper(r),
{
    if files_are_equal(t)? {
        sync_metadata(t)
    } else {
        replace(t)
    }
}

fn copy_link(t: &mut Tape) -> (r: Result<(), Stop>)
    ensures
        final(t).flow(r) == copying_link(old(t).world()),
        crate::protocol::spares_upper(r),
{
    t.data(Action::ReadLink(src()))?;
    if t.probe(Action::Lstat(dst()))?.is_some() {
        t.attempt(Action::RemoveFile(dst()))?;
    }
    t.run(Action::MakeLink(dst()))?;
    sync_metadata(t)
}

fn copy_dir(t: &mut Tape) -> (r: Result<(), Stop>)
    ensures
        final(t).flow(r) == copying_dir(old(t).world()),
        crate::protocol::spares_upper(r),
{
    let there = t.probe(Action::Lstat(dst()))?;
    let opaque = is_opaque_dir(t, src())?;
    match there {
        None => t.run(Action::MakeDirs(dst()))?,
        Some(meta) => {
            if meta.kind != FileKind::Directory {
                t.run(Action::RemoveFile(dst()))?;
                t.run(Action::MakeDirs(dst()))?;
            } else if opaque {
                t.run(Action::EmptyDir(dst()))?;
            }
        },
    }
    sync_metadata(t)
}

/// Prepares the directory that the upper one is merged into: what it holds is removed if
/// the upper one replaces it.
pub fn commit_root(t: &mut Tape) -> (r: Result<(), Stop>)
    ensures
        final(t).flow(r) == preparing_root(old(t).world()),
        crate::protocol::spares_upper(r),
{
    if is_opaque_dir(t, src())? {
        t.run(Action::EmptyDir(dst()))?;
    }
    Ok(())
}

fn merge(t: &mut Tape, kind: FileKind) -> (r: Result<bool, Stop>)
    ensures
        final(t).flow(r) == merging(kind, old(t).world()),
        crate::protocol::spares_upper(r),
{
    match kind {
        FileKind::Directory => {
            copy_dir(t)?;
            Ok(true)
        },
        FileKind::Symlink => {
            copy_link(t)?;
            Ok(false)
        },
        _ => {
            copy_if_different(t)?;
            Ok(false)
        },
    }
}

fn delete(t: &mut Tape) -> (r: Result<(), Stop>)
    ensures
        final(t).flow(r) == deleting(old(t).world()),
        crate::protocol::spares_upper(r),
{
    let s = Spot::lower(Which::Second);
    let is_dir = match t.probe(Action::Lstat(s))? {
        Some(meta) => meta.kind == FileKind::Directory,
        None => false,
    };
    let remove = if is_dir {
        Action::RemoveTree(s)
    } else {
        Action::RemoveFile(s)
    };
    let reply = t.ask(remove)?;
    match reply {
        Reply::Done => Ok(()),
        Reply::Failed(Some(c)) => if *c == ENOENT {
            Ok(())
        } else {
            Err(Stop::Fail(*c))
        },
        _ => Err(Stop::Fail(reply.error_code())),
    }
}

/// The rules of a filter, where there is one.
pub open spec fn rules_of(filter: Option<CommitFilter>) -> Option<Rules> {
    match filter {
        Some(f) => Some(f@),
        None => None,
    }
}

fn is_excluded(t: &mut Tape, filter: &CommitFilter, rel: &FsPath, is_dir: bool) -> (r: Result<
    bool,
    Stop,
>)
    ensures
        final(t).flow(r) == filtering(filter@, rel@, is_dir, old(t).world()),
        crate::protocol::spares_upper(r),
{
    if filter.needs_meta(rel) {
        let meta = t.probe(Action::Lstat(src()))?;
        Ok(filter.excludes(rel, is_dir, meta))
    } else {
        Ok(filter.excludes(rel, is_dir, None))
    }
}

/// Merges an item of a directory; says whether it is a directory to be entered.
pub fn commit_entry(
    t: &mut Tape,
    filter: &Option<CommitFilter>,
    dir: &FsPath,
    item: &DirItem,
) -> (r: Result<bool, Stop>)
    ensures
        final(t).flow(r) == committing(rules_of(*filter), dir@, item@, old(t).world()),
        crate::protocol::spares_upper(r),
{
    match item {
        DirItem::Broken(c) => Err(Stop::Fail(*c)),
        DirItem::Entry(name, kind) => {
            let kind = match kind {
                Ok(k) => *k,
                Err(c) => return Err(Stop::Fail(*c)),
            };
            let text = to_lossy(name.as_slice());
            if marker_target(text.as_slice()).is_some() {
                delete(t)?;
                return Ok(false);
            }
            if let Some(f) = filter {
                let rel = dir.join(name.as_slice());
                if is_excluded(t, f, &rel, kind == FileKind::Directory)? {
                    return Ok(false);
                }
            }
            merge(t, kind)
        },
    }
}

/// The path of an item of a directory, and the path of the entry that it hides.
pub open spec fn item_paths(dir: Seq<u8>, item: Named) -> (Seq<u8>, Seq<u8>) {
    match item {
        Named::Entry(name, _) => (
            crate::path::join(dir, name),
            crate::path::join(dir, crate::listing::hidden_name(crate::text::lossy(name))),
        ),
        Named::Broken(_) => (dir, dir),
    }
}

/// The two paths that merging an item is about.
pub fn commit_paths(dir: &FsPath, item: &DirItem) -> (r: (FsPath, FsPath))
    ensures
        r.0@ == item_paths(dir@, item@).0,
        item@ matches Named::Entry(name, _) && crate::listing::is_marker(crate::text::lossy(name))
            ==> r.1@ == item_paths(dir@, item@).1,
{
    match item {
        DirItem::Entry(name, _) => {
            let first = dir.join(name.as_slice());
            let text = to_lossy(name.as_slice());
            let second = match marker_target(text.as_slice()) {
                Some(n) => dir.join(n.as_slice()),
                None => dir.clone(),
            };
            (first, second)
        },
        DirItem::Broken(_) => (dir.clone(), dir.clone()),
    }
}

} // verus!
