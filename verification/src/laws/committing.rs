//! Merging one entry of the upper layer into the lower one.

use crate::filter::Rules;
use crate::model::{Disk, Node};
use crate::protocol::{Action, Answer, FileKind, Flow, Meta, Named, Spot, TimeSet, Which, World};
use vstd::prelude::*;

verus! {

/// What the destination has of the source once its metadata is taken over.
pub open spec fn took_over(src: Node, was: Node, now: Node) -> bool {
    &&& now.meta.kind == was.meta.kind
    &&& now.data == was.data
    &&& now.target == was.target
    &&& now.items == was.items
    &&& !src.is_symlink() && !was.is_symlink() ==> now.meta.mode & 0o7777 == src.meta.mode & 0o7777
    &&& same_owner(src, now)
    &&& now.xattrs == was.xattrs.union_prefer_right(src.xattrs)
}

/// Two entries belong to the same user and group. The highest number stands for none.
pub open spec fn same_owner(src: Node, now: Node) -> bool {
    &&& src.meta.uid != u32::MAX ==> now.meta.uid == src.meta.uid
    &&& src.meta.gid != u32::MAX ==> now.meta.gid == src.meta.gid
}

/// Two entries have the same times of access and modification.
pub open spec fn same_times(src: Node, now: Node) -> bool {
    &&& now.meta.atime == src.meta.atime
    &&& now.meta.mtime == src.meta.mtime
}

/// A request without which the metadata of an entry is not taken over.
pub open spec fn is_sync(a: Action) -> bool {
    a is SetMode || a is SetOwner || a is CopyXattrs
}

proof fn lemma_syncing(d: Disk)
    requires
        d.at(Spot::upper(Which::First)) is Some,
        d.at(Spot::lower(Which::First)) is Some,
    ensures
        match crate::commit::syncing_metadata(World::Disk(d)) {
            Flow::Got(_, World::Disk(e)) => {
                let src = d.at(Spot::upper(Which::First))->0;
                let dst = Spot::lower(Which::First);
                &&& crate::model::all_but(d, e, dst)
                &&& e.at(dst) is Some && took_over(src, d.at(dst)->0, e.at(dst)->0)
                &&& crate::model::never_faults(d) ==> same_times(src, e.at(dst)->0)
            },
            Flow::Fail(code, World::Disk(e)) => {
                &&& crate::model::all_but(d, e, Spot::lower(Which::First))
                &&& crate::model::blames(e, code) && is_sync(e.log.last())
                &&& !crate::model::never_faults(d)
            },
            _ => false,
        },
{
    let src = Spot::upper(Which::First);
    let dst = Spot::lower(Which::First);
    let n = d.at(src)->0;
    crate::model::step_lstat(d, src);
    let d1 = d.after(Action::Lstat(src));
    let m = d.at(dst)->0;
    lemma_mode_step(d1, n);
    if let Flow::Got(_, World::Disk(d2)) = crate::commit::syncing_mode(n.meta, World::Disk(d1)) {
        let m2 = d2.at(dst)->0;
        assert(d2.at(src) == d1.at(src));
        let b = Action::SetOwner(dst, n.meta.uid, n.meta.gid);
        crate::model::step_change(d2, b);
        crate::model::step_frame(d2, b);
        let d3 = d2.after(b);
        assert(d2.possible(b)) by {
            reveal(Disk::possible);
        }
        assert(d2.works(b) ==> d3.at(dst) is Some && took_owner(n, m2, d3.at(dst)->0)) by {
            reveal(Disk::changed);
        }
        if d2.works(b) {
            assert(d3.at(src) == d2.at(src));
            lemma_last_steps(d3, n);
        }
    }
}

/// The owner alone is taken over.
pub open spec fn took_owner(src: Node, was: Node, now: Node) -> bool {
    now == was.with_meta(
        Meta {
            uid: if src.meta.uid == u32::MAX {
                was.meta.uid
            } else {
                src.meta.uid
            },
            gid: if src.meta.gid == u32::MAX {
                was.meta.gid
            } else {
                src.meta.gid
            },
            ..was.meta
        },
    )
}

proof fn lemma_mode_step(d: Disk, n: Node)
    requires
        d.at(Spot::lower(Which::First)) is Some,
    ensures
        match crate::commit::syncing_mode(n.meta, World::Disk(d)) {
            Flow::Got(_, World::Disk(e)) => {
                let dst = Spot::lower(Which::First);
                let was = d.at(dst)->0;
                &&& crate::model::all_but(d, e, dst)
                &&& e.at(dst) is Some
                &&& e.at(dst)->0 == was.with_meta(
                    Meta { mode: e.at(dst)->0.meta.mode, ..was.meta },
                )
                &&& !n.is_symlink() && !was.is_symlink() ==> e.at(dst)->0.meta.mode & 0o7777
                    == n.meta.mode & 0o7777
            },
            Flow::Fail(code, World::Disk(e)) => {
                &&& crate::model::all_but(d, e, Spot::lower(Which::First))
                &&& crate::model::blames(e, code) && is_sync(e.log.last())
                &&& !crate::model::never_faults(d)
            },
            _ => false,
        },
{
    let dst = Spot::lower(Which::First);
    let a = Action::SetMode(dst, n.meta.mode);
    crate::model::step_change(d, a);
    crate::model::step_frame(d, a);
    crate::laws::layering::lemma_mode_kept(d.at(dst)->0.meta.mode, n.meta.mode);
    reveal(Disk::changed);
    reveal(Disk::possible);
}

proof fn lemma_last_steps(d: Disk, n: Node)
    requires
        d.at(Spot::upper(Which::First)) == Some(n),
        d.at(Spot::lower(Which::First)) is Some,
    ensures
        ({
            let src = Spot::upper(Which::First);
            let dst = Spot::lower(Which::First);
            let c = Action::SetTimes(dst, TimeSet::At(n.meta.atime), TimeSet::At(n.meta.mtime));
            let x = Action::CopyXattrs(src, dst);
            let d1 = d.after(c);
            let e = d1.after(x);
            let was = d.at(dst)->0;
            &&& crate::model::all_but(d, e, dst)
            &&& d1.reply(x) is Done || d1.reply(x) is Failed
            &&& d1.reply(x) is Failed ==> !crate::model::never_faults(d) && crate::model::blames(
                e,
                d1.reply(x).code(),
            ) && is_sync(e.log.last())
            &&& d1.reply(x) is Done ==> {
                let now = e.at(dst)->0;
                &&& e.at(dst) is Some
                &&& now.meta == (Meta { atime: now.meta.atime, mtime: now.meta.mtime, ..was.meta })
                &&& now.data == was.data && now.target == was.target && now.items == was.items
                &&& now.xattrs == was.xattrs.union_prefer_right(n.xattrs)
                &&& crate::model::never_faults(d) ==> now.meta.atime == n.meta.atime
                    && now.meta.mtime == n.meta.mtime
            }
        }),
{
    let src = Spot::upper(Which::First);
    let dst = Spot::lower(Which::First);
    let c = Action::SetTimes(dst, TimeSet::At(n.meta.atime), TimeSet::At(n.meta.mtime));
    let x = Action::CopyXattrs(src, dst);
    let d1 = d.after(c);
    let e = d1.after(x);
    crate::model::step_change(d, c);
    crate::model::step_frame(d, c);
    crate::model::step_change(d1, x);
    crate::model::step_frame(d1, x);
    assert(d1.at(src) == d.at(src));
    reveal(Disk::changed);
    reveal(Disk::possible);
}

/// The destination is taken to have the content of the source without being compared byte
/// by byte.
pub open spec fn taken_as_equal(d: Disk) -> bool {
    let src = d.at(Spot::upper(Which::First));
    let dst = d.at(Spot::lower(Which::First));
    &&& src is Some && dst is Some && dst->0.is_file()
    &&& src->0.meta.size == dst->0.meta.size
    &&& src->0.meta.mtime == dst->0.meta.mtime || crate::digest::blake3_digest(
        src->0.data,
    ) == crate::digest::blake3_digest(dst->0.data)
}

proof fn lemma_comparing(d: Disk)
    requires
        d.at(Spot::upper(Which::First)) is Some,
        d.at(Spot::upper(Which::First))->0.is_file(),
    ensures
        crate::commit::comparing(World::Disk(d)) matches Flow::Got(equal, World::Disk(e)) && equal
            == taken_as_equal(d) && crate::model::only_later(d, e),
{
    let src = Spot::upper(Which::First);
    let dst = Spot::lower(Which::First);
    crate::model::step_lstat(d, dst);
    let d1 = d.after(Action::Lstat(dst));
    crate::model::step_stat(d1, src);
    let d2 = d1.after(Action::Stat(src));
    crate::model::step_digest(d2, src);
    let d3 = d2.after(Action::Digest(src));
    crate::model::step_digest(d3, dst);
}

/// The last request flushed the file in the lower layer, content and metadata.
pub open spec fn flushed(e: Disk) -> bool {
    e.writing == Some(Spot::lower(Which::First)) && crate::model::asked_last(
        e,
        Action::Fsync(true),
    )
}

/// There is a file.
pub open spec fn is_file_at(d: Disk, s: Spot) -> bool {
    d.at(s) is Some && d.at(s)->0.is_file()
}

proof fn lemma_flushing(d: Disk)
    ensures
        match crate::commit::flushing(World::Disk(d)) {
            Flow::Got(_, World::Disk(e)) => {
                &&& forall|s: Spot| #[trigger] e.at(s) == d.at(s)
                &&& crate::model::rest_kept(d, e)
                &&& crate::model::never_faults(d) && is_file_at(d, Spot::lower(Which::First))
                    ==> flushed(e)
            },
            Flow::Fail(code, World::Disk(e)) => {
                &&& forall|s: Spot| #[trigger] e.at(s) == d.at(s)
                &&& crate::model::rest_kept(d, e)
                &&& !crate::model::never_faults(d)
                &&& crate::model::blames(e, code) && !(e.log.last() is SetTimes)
            },
            _ => false,
        },
{
    let dst = Spot::lower(Which::First);
    crate::model::step_open_write(d, dst);
    let d1 = d.after(Action::OpenWrite(dst));
    crate::model::step_change(d1, Action::Fsync(true));
    crate::model::step_frame(d1, Action::Fsync(true));
    crate::model::step_log(d1, Action::Fsync(true));
    reveal(Disk::possible);
}

proof fn lemma_replacing(d: Disk)
    requires
        d.at(Spot::upper(Which::First)) is Some,
        d.at(Spot::upper(Which::First))->0.is_file(),
    ensures
        match crate::commit::replacing(World::Disk(d)) {
            Flow::Got(_, World::Disk(e)) => {
                let src = d.at(Spot::upper(Which::First))->0;
                let dst = Spot::lower(Which::First);
                &&& crate::model::all_but(d, e, dst)
                &&& e.at(dst) is Some && e.at(dst)->0.is_file() && e.at(dst)->0.data == src.data
                &&& e.at(dst)->0.meta.mode & 0o7777 == src.meta.mode & 0o7777
                &&& e.at(dst)->0.xattrs == src.xattrs
                &&& same_owner(src, e.at(dst)->0)
                &&& crate::model::never_faults(d) ==> same_times(src, e.at(dst)->0) && flushed(e)
            },
            Flow::Fail(code, World::Disk(e)) => {
                &&& crate::model::all_but(d, e, Spot::lower(Which::First))
                &&& crate::model::blames(e, code) && !(e.log.last() is SetTimes)
                &&& crate::model::never_faults(d) ==> d.at(Spot::lower(Which::First)) is Some
                    && d.at(Spot::lower(Which::First))->0.is_dir()
            },
            _ => false,
        },
{
    let src = Spot::upper(Which::First);
    let dst = Spot::lower(Which::First);
    crate::model::step_lstat(d, dst);
    let d1 = d.after(Action::Lstat(dst));
    let remove = Action::RemoveFile(dst);
    crate::model::step_change(d1, remove);
    crate::model::step_frame(d1, remove);
    assert(d1.works(remove) ==> d1.after(remove).at(dst) is None) by {
        reveal(Disk::changed);
    }
    assert(d1.at(dst) is Some && !d1.at(dst)->0.is_dir() ==> d1.possible(remove)) by {
        reveal(Disk::possible);
    }
    let d2 = if d.at(dst) is Some {
        d1.after(remove)
    } else {
        d1
    };
    if d.at(dst) is None || d1.works(remove) {
        assert(d2.at(dst) is None);
        assert(d2.at(src) == d.at(src));
        let copy = Action::CopyFile(src, dst);
        crate::model::step_change(d2, copy);
        crate::model::step_frame(d2, copy);
        let d3 = d2.after(copy);
        assert(d2.possible(copy)) by {
            reveal(Disk::possible);
        }
        assert(d2.works(copy) ==> d3.at(dst) is Some && d3.at(dst)->0.is_file() && d3.at(
            dst,
        )->0.data == d.at(src)->0.data && d3.at(dst)->0.xattrs == Map::<
            Seq<u8>,
            Seq<u8>,
        >::empty()) by {
            reveal(Disk::changed);
        }
        if d2.works(copy) {
            assert(d3.at(src) == d2.at(src));
            lemma_syncing(d3);
            if let Flow::Got(_, World::Disk(d4)) = crate::commit::syncing_metadata(
                World::Disk(d3),
            ) {
                let x = d.at(src)->0.xattrs;
                assert(Map::<Seq<u8>, Seq<u8>>::empty().union_prefer_right(x) =~= x);
                lemma_flushing(d4);
            }
        }
    }
}

/// A committed file: the destination is a file with the content of the source, unless it
/// was taken to have that already; it has the permissions and the owner of the source and
/// at least its extended attributes, and no others if it was replaced. The upper layer is
/// as it was. Where nothing fails, a file can be committed over anything but a directory,
/// its times are taken over, and one that was replaced is flushed. What failed, if the
/// commit did, is the last request; times that could not be set are no failure.
pub proof fn law_commit_file(d: Disk)
    requires
        d.at(Spot::upper(Which::First)) is Some,
        d.at(Spot::upper(Which::First))->0.is_file(),
        d.at(Spot::lower(Which::First)) matches Some(n) ==> !n.is_dir(),
    ensures
        match crate::commit::copying_file(World::Disk(d)) {
            Flow::Got(_, World::Disk(e)) => {
                let src = d.at(Spot::upper(Which::First))->0;
                let dst = Spot::lower(Which::First);
                &&& crate::model::all_but(d, e, dst)
                &&& e.at(dst) is Some && e.at(dst)->0.is_file()
                &&& e.at(dst)->0.data == if taken_as_equal(d) {
                    d.at(dst)->0.data
                } else {
                    src.data
                }
                &&& e.at(dst)->0.meta.mode & 0o7777 == src.meta.mode & 0o7777
                &&& src.xattrs.submap_of(e.at(dst)->0.xattrs)
                &&& !taken_as_equal(d) ==> e.at(dst)->0.xattrs == src.xattrs
                &&& same_owner(src, e.at(dst)->0)
                &&& crate::model::never_faults(d) ==> same_times(src, e.at(dst)->0) && (
                !taken_as_equal(d) ==> flushed(e))
            },
            Flow::Fail(code, World::Disk(e)) => {
                &&& crate::model::all_but(d, e, Spot::lower(Which::First))
                &&& crate::model::blames(e, code) && !(e.log.last() is SetTimes)
                &&& !crate::model::never_faults(d)
            },
            _ => false,
        },
{
    lemma_comparing(d);
    if let Flow::Got(equal, World::Disk(d1)) = crate::commit::comparing(World::Disk(d)) {
        if equal {
            lemma_syncing(d1);
            let x = d.at(Spot::upper(Which::First))->0.xattrs;
            let y = d.at(Spot::lower(Which::First))->0.xattrs;
            assert(x.submap_of(y.union_prefer_right(x)));
        } else {
            lemma_replacing(d1);
            let x = d.at(Spot::upper(Which::First))->0.xattrs;
            assert(x.submap_of(x));
        }
    }
}

/// Files with the same content are not copied again, if their metadata tells the true
/// length.
pub proof fn law_equal_files_not_copied(d: Disk)
    requires
        d.at(Spot::upper(Which::First)) is Some,
        d.at(Spot::lower(Which::First)) is Some,
        crate::laws::content::sound_file(d.at(Spot::upper(Which::First))->0),
        crate::laws::content::sound_file(d.at(Spot::lower(Which::First))->0),
        d.at(Spot::upper(Which::First))->0.data == d.at(Spot::lower(Which::First))->0.data,
    ensures
        crate::commit::comparing(World::Disk(d)) matches Flow::Got(equal, _) && equal,
{
    lemma_comparing(d);
}

/// A committed link: the destination is a link with the target, the owner and the extended
/// attributes of the source. The upper layer is as it was. Where nothing fails, a link can
/// be committed over anything but a directory, be it a link that leads nowhere, and its
/// times are taken over. That these could not be set, or that what was there could not be
/// removed, is by itself no failure.
pub proof fn law_commit_link(d: Disk)
    requires
        d.at(Spot::upper(Which::First)) is Some,
        d.at(Spot::upper(Which::First))->0.is_symlink(),
    ensures
        match crate::commit::copying_link(World::Disk(d)) {
            Flow::Got(_, World::Disk(e)) => {
                let src = d.at(Spot::upper(Which::First))->0;
                let dst = Spot::lower(Which::First);
                &&& crate::model::all_but(d, e, dst)
                &&& e.at(dst) is Some && e.at(dst)->0.is_symlink() && e.at(dst)->0.target
                    == src.target
                &&& e.at(dst)->0.xattrs == src.xattrs
                &&& same_owner(src, e.at(dst)->0)
                &&& crate::model::never_faults(d) ==> same_times(src, e.at(dst)->0)
            },
            Flow::Fail(code, World::Disk(e)) => {
                &&& crate::model::all_but(d, e, Spot::lower(Which::First))
                &&& crate::model::blames(e, code) && !(e.log.last() is SetTimes)
                &&& !(e.log.last() is RemoveFile)
                &&& crate::model::never_faults(d) ==> d.at(Spot::lower(Which::First)) is Some
                    && d.at(Spot::lower(Which::First))->0.is_dir()
            },
            _ => false,
        },
{
    let src = Spot::upper(Which::First);
    let dst = Spot::lower(Which::First);
    crate::model::step_readlink(d, src);
    let d0 = d.after(Action::ReadLink(src));
    assert(forall|s: Spot| #[trigger] d0.at(s) == d.at(s));
    crate::model::step_lstat(d0, dst);
    let d1 = d0.after(Action::Lstat(dst));
    let remove = Action::RemoveFile(dst);
    crate::model::step_change(d1, remove);
    crate::model::step_frame(d1, remove);
    assert(d1.works(remove) ==> d1.after(remove).at(dst) is None) by {
        reveal(Disk::changed);
    }
    assert(d1.at(dst) is Some && !d1.at(dst)->0.is_dir() ==> d1.possible(remove)) by {
        reveal(Disk::possible);
    }
    let d2 = if d.at(dst) is Some {
        d1.after(remove)
    } else {
        d1
    };
    let make = Action::MakeLink(dst);
    crate::model::step_change(d2, make);
    crate::model::step_frame(d2, make);
    let d3 = d2.after(make);
    assert(d2.possible(make) == (d2.at(dst) is None)) by {
        reveal(Disk::possible);
    }
    assert(d2.works(make) ==> d3.at(dst) is Some && d3.at(dst)->0.is_symlink() && d3.at(
        dst,
    )->0.target == d2.link_target() && d3.at(dst)->0.xattrs == Map::<
        Seq<u8>,
        Seq<u8>,
    >::empty()) by {
        reveal(Disk::changed);
    }
    assert(d2.at(src) == d.at(src));
    if d2.works(make) {
        assert(d3.at(src) == d2.at(src));
        let x = d.at(src)->0.xattrs;
        assert(Map::<Seq<u8>, Seq<u8>>::empty().union_prefer_right(x) =~= x);
        lemma_syncing(d3);
    }
}

/// What the destination of a directory holds before the metadata is taken over: nothing, if
/// no directory was there or the source replaces it.
pub open spec fn made_room(d: Disk, now: Node) -> bool {
    let was = d.at(Spot::lower(Which::First));
    &&& now.is_dir()
    &&& if was is Some && was->0.is_dir() {
        now == if crate::laws::layering::opaque_at(d, Spot::upper(Which::First)) {
            Node { items: Seq::empty(), ..was->0 }
        } else {
            was->0
        }
    } else {
        now.items.len() == 0
    }
}

proof fn lemma_making_room(d: Disk)
    requires
        d.at(Spot::upper(Which::First)) is Some,
    ensures
        ({
            let src = Spot::upper(Which::First);
            let dst = Spot::lower(Which::First);
            let there = match d.at(dst) {
                Some(n) => Some(n.meta),
                None => None,
            };
            match crate::commit::making_room(
                there,
                crate::laws::layering::opaque_at(d, src),
                World::Disk(d),
            ) {
                Flow::Got(_, World::Disk(e)) => {
                    &&& crate::model::all_but(d, e, dst)
                    &&& e.at(dst) is Some && made_room(d, e.at(dst)->0)
                },
                Flow::Fail(code, World::Disk(e)) => {
                    &&& crate::model::all_but(d, e, dst)
                    &&& crate::model::blames(e, code) && !(e.log.last() is SetTimes)
                    &&& !crate::model::never_faults(d)
                },
                _ => false,
            }
        }),
{
    let dst = Spot::lower(Which::First);
    let make = Action::MakeDirs(dst);
    let empty = Action::EmptyDir(dst);
    let remove = Action::RemoveFile(dst);
    crate::model::step_change(d, empty);
    crate::model::step_frame(d, empty);
    crate::model::step_change(d, remove);
    crate::model::step_frame(d, remove);
    let d1 = if d.at(dst) is Some {
        d.after(remove)
    } else {
        d
    };
    crate::model::step_change(d1, make);
    crate::model::step_frame(d1, make);
    reveal(Disk::possible);
    reveal(Disk::changed);
}

/// A committed directory: the destination is a directory. It holds what it held before, or
/// nothing if it was none or if the source replaces it. It has the permissions and the owner
/// of the source and all its extended attributes, marks among them. The upper layer is as it
/// was. Where nothing fails, a directory can be committed over anything, and its times are
/// taken over.
pub proof fn law_commit_directory(d: Disk)
    requires
        d.at(Spot::upper(Which::First)) is Some,
        d.at(Spot::upper(Which::First))->0.is_dir(),
    ensures
        match crate::commit::copying_dir(World::Disk(d)) {
            Flow::Got(_, World::Disk(e)) => {
                let src = d.at(Spot::upper(Which::First))->0;
                let dst = Spot::lower(Which::First);
                let opaque = crate::laws::layering::opaque_at(d, Spot::upper(Which::First));
                let now = e.at(dst)->0;
                &&& crate::model::all_but(d, e, dst)
                &&& e.at(dst) is Some && now.is_dir()
                &&& now.meta.mode & 0o7777 == src.meta.mode & 0o7777
                &&& now.items == if d.at(dst) is Some && d.at(dst)->0.is_dir() && !opaque {
                    d.at(dst)->0.items
                } else {
                    Seq::empty()
                }
                &&& src.xattrs.submap_of(now.xattrs)
                &&& same_owner(src, now)
                &&& crate::model::never_faults(d) ==> same_times(src, now)
            },
            Flow::Fail(code, World::Disk(e)) => {
                &&& crate::model::all_but(d, e, Spot::lower(Which::First))
                &&& crate::model::blames(e, code) && !(e.log.last() is SetTimes)
                &&& !crate::model::never_faults(d)
            },
            _ => false,
        },
{
    let src = Spot::upper(Which::First);
    let dst = Spot::lower(Which::First);
    crate::model::step_lstat(d, dst);
    let d1 = d.after(Action::Lstat(dst));
    let there = match d1.at(dst) {
        Some(n) => Some(n.meta),
        None => None,
    };
    crate::laws::layering::law_opaque(d1, src);
    if let Flow::Got(opaque, World::Disk(d2)) = crate::xattr::sealed(src, World::Disk(d1)) {
        assert(crate::laws::layering::opaque_at(d2, src) == opaque);
        lemma_making_room(d2);
        if let Flow::Got(_, World::Disk(d3)) = crate::commit::making_room(
            there,
            opaque,
            World::Disk(d2),
        ) {
            assert(d3.at(src) == d.at(src));
            assert(d3.at(dst)->0.items =~= if d.at(dst) is Some && d.at(dst)->0.is_dir()
                && !opaque {
                d.at(dst)->0.items
            } else {
                Seq::empty()
            });
            lemma_syncing(d3);
            if let Flow::Got(_, World::Disk(d4)) = crate::commit::syncing_metadata(
                World::Disk(d3),
            ) {
                let x = d.at(src)->0.xattrs;
                let y = d3.at(dst)->0.xattrs;
                assert(x.submap_of(y.union_prefer_right(x)));
            }
        }
    }
}

/// Before a merge the directory that is merged into is emptied, if the upper one replaces
/// it, and is as it was otherwise; so is everything else.
pub proof fn law_commit_root(d: Disk)
    requires
        d.at(Spot::lower(Which::First)) is Some,
        d.at(Spot::lower(Which::First))->0.is_dir(),
    ensures
        ({
            let dst = Spot::lower(Which::First);
            match crate::commit::preparing_root(World::Disk(d)) {
                Flow::Got(_, World::Disk(e)) => {
                    &&& crate::model::all_but(d, e, dst)
                    &&& e.at(dst) == if crate::laws::layering::opaque_at(
                        d,
                        Spot::upper(Which::First),
                    ) {
                        Some(Node { items: Seq::empty(), ..d.at(dst)->0 })
                    } else {
                        d.at(dst)
                    }
                },
                Flow::Fail(code, World::Disk(e)) => {
                    &&& crate::model::all_but(d, e, dst)
                    &&& crate::model::blames(e, code) && !(e.log.last() is SetTimes)
                    &&& !crate::model::never_faults(d)
                },
                _ => false,
            }
        }),
{
    let dst = Spot::lower(Which::First);
    let src = Spot::upper(Which::First);
    crate::laws::layering::law_opaque(d, src);
    if let Flow::Got(_, World::Disk(d1)) = crate::xattr::sealed(src, World::Disk(d)) {
        let empty = Action::EmptyDir(dst);
        crate::model::step_change(d1, empty);
        crate::model::step_frame(d1, empty);
        reveal(Disk::possible);
        reveal(Disk::changed);
    }
}

/// A marker deletes what it hides, a directory with all that it holds, and nothing else.
/// That is gone then, unless the system said that it was not there, which is no failure.
/// Where nothing fails, a marker can be committed.
pub proof fn law_commit_marker(d: Disk)
    ensures
        match crate::commit::deleting(World::Disk(d)) {
            Flow::Got(_, World::Disk(e)) => {
                let s = Spot::lower(Which::Second);
                &&& crate::model::all_but(d, e, s)
                &&& e.at(s) is None || e.clock > 0 && (e.oracle.fault)((e.clock - 1) as nat)
                    == Some(Some(crate::errno::ENOENT))
                &&& crate::model::never_faults(d) ==> e.at(s) is None
            },
            Flow::Fail(code, World::Disk(e)) => {
                &&& crate::model::all_but(d, e, Spot::lower(Which::Second))
                &&& crate::model::blames(e, code) && !(e.log.last() is SetTimes)
                &&& !crate::model::never_faults(d)
            },
            _ => false,
        },
{
    let s = Spot::lower(Which::Second);
    crate::model::step_lstat(d, s);
    let d1 = d.after(Action::Lstat(s));
    let remove = if d.at(s) is Some && d.at(s)->0.is_dir() {
        Action::RemoveTree(s)
    } else {
        Action::RemoveFile(s)
    };
    crate::model::step_change(d1, remove);
    crate::model::step_frame(d1, remove);
    if d1.at(s) is None {
        crate::model::step_remove_absent(d1, remove, s);
    }
    reveal(Disk::changed);
    reveal(Disk::possible);
    reveal(Disk::reply);
    reveal(Disk::after);
}

/// An entry that the filter keeps out changes nothing; nor is anything asked for but, where
/// the rules need it, its metadata.
pub proof fn law_filtered_entry_untouched(d: Disk, rules: Rules, rel: Seq<u8>, kind: FileKind)
    requires
        rules.excludes(
            rel,
            kind is Directory,
            if rules.needs_meta(rel) {
                match d.at(Spot::upper(Which::First)) {
                    Some(n) => Some(n.meta),
                    None => None::<Meta>,
                }
            } else {
                None
            },
        ),
    ensures
        crate::commit::admitting(Some(rules), rel, kind, World::Disk(d)) matches Flow::Got(
            enter,
            World::Disk(e),
        ) && !enter && crate::model::only_later(d, e),
{
    crate::model::step_lstat(d, Spot::upper(Which::First));
}

/// A filter makes no difference to a marker.
pub proof fn law_filter_spares_markers(
    rules: Option<Rules>,
    dir: Seq<u8>,
    name: Seq<u8>,
    kind: FileKind,
    w: World,
)
    requires
        crate::listing::is_marker(crate::text::lossy(name)),
    ensures
        crate::commit::committing(rules, dir, Named::Entry(name, Ok(kind)), w)
            == crate::commit::committing(None, dir, Named::Entry(name, Ok(kind)), w),
{
}

/// A file is not committed over a directory: that fails, and the directory is there as it
/// was.
pub proof fn law_file_spares_directory(d: Disk)
    requires
        is_file_at(d, Spot::upper(Which::First)),
        d.at(Spot::lower(Which::First)) is Some,
        d.at(Spot::lower(Which::First))->0.is_dir(),
    ensures
        crate::commit::copying_file(World::Disk(d)) matches Flow::Fail(code, World::Disk(e))
            && crate::model::blames(e, code) && forall|s: Spot| #[trigger] e.at(s) == d.at(s),
{
    let dst = Spot::lower(Which::First);
    lemma_comparing(d);
    if let Flow::Got(_, World::Disk(d1)) = crate::commit::comparing(World::Disk(d)) {
        crate::model::step_lstat(d1, dst);
        let d2 = d1.after(Action::Lstat(dst));
        let remove = Action::RemoveFile(dst);
        crate::model::step_change(d2, remove);
        assert(!d2.possible(remove)) by {
            reveal(Disk::possible);
        }
        assert(forall|s: Spot| #[trigger] d2.after(remove).at(s) == d2.at(s));
    }
}

/// A file that took the place of another is flushed, content and metadata, if it can be
/// opened; what keeps it from being flushed fails the commit.
pub proof fn law_copy_is_flushed(t: Seq<Answer>, p: int)
    requires
        0 <= p <= t.len(),
    ensures
        p == t.len() ==> crate::commit::flushing(World::Tape(t, p)) == Flow::<()>::Ask(
            Action::OpenWrite(Spot::lower(Which::First)),
        ),
        p + 1 == t.len() && t[p] is Done ==> crate::commit::flushing(World::Tape(t, p))
            == Flow::<()>::Ask(Action::Fsync(true)),
        p + 1 < t.len() && t[p] is Done ==> crate::commit::flushing(World::Tape(t, p)) == (
        if t[p + 1] is Done {
            Flow::Got((), World::Tape(t, p + 2))
        } else {
            Flow::Fail(t[p + 1].code(), World::Tape(t, p + 2))
        }),
{
}

/// An entry of the upper layer has arrived in the lower one: same type, same permissions
/// but for a link, same owner, all the extended attributes, and the content or the target.
pub open spec fn arrived(d: Disk, e: Disk) -> bool {
    let src = d.at(Spot::upper(Which::First))->0;
    let now = e.at(Spot::lower(Which::First))->0;
    &&& e.at(Spot::lower(Which::First)) is Some
    &&& now.meta.kind == src.meta.kind
    &&& !src.is_symlink() ==> now.meta.mode & 0o7777 == src.meta.mode & 0o7777
    &&& same_owner(src, now)
    &&& src.xattrs.submap_of(now.xattrs)
    &&& src.is_symlink() ==> now.target == src.target
    &&& src.is_file() && !taken_as_equal(d) ==> now.data == src.data
}

/// An entry that the filter lets through arrives in the lower layer, its times too where
/// nothing fails. Nothing else changes. A directory is entered afterwards, and nothing else
/// is. If it does not arrive, the last request has failed.
pub proof fn law_entry_arrives(
    d: Disk,
    filter: Option<Rules>,
    dir: Seq<u8>,
    name: Seq<u8>,
    kind: FileKind,
)
    requires
        d.at(Spot::upper(Which::First)) is Some,
        d.at(Spot::upper(Which::First))->0.meta.kind == kind,
        kind is Directory || kind is RegularFile || kind is Symlink,
        !crate::listing::is_marker(crate::text::lossy(name)),
        !(kind is Directory) ==> (d.at(Spot::lower(Which::First)) matches Some(n) ==> !n.is_dir()),
        filter matches Some(rules) ==> !rules.excludes(
            crate::path::join(dir, name),
            kind is Directory,
            if rules.needs_meta(crate::path::join(dir, name)) {
                Some(d.at(Spot::upper(Which::First))->0.meta)
            } else {
                None
            },
        ),
    ensures
        match crate::commit::committing(filter, dir, Named::Entry(name, Ok(kind)), World::Disk(d)) {
            Flow::Got(enter, World::Disk(e)) => {
                &&& enter == (kind is Directory)
                &&& crate::model::all_but(d, e, Spot::lower(Which::First))
                &&& arrived(d, e)
                &&& crate::model::never_faults(d) ==> same_times(
                    d.at(Spot::upper(Which::First))->0,
                    e.at(Spot::lower(Which::First))->0,
                )
            },
            Flow::Fail(code, World::Disk(e)) => {
                &&& crate::model::all_but(d, e, Spot::lower(Which::First))
                &&& crate::model::blames(e, code) && !(e.log.last() is SetTimes)
                &&& !crate::model::never_faults(d)
            },
            _ => false,
        },
{
    let src = Spot::upper(Which::First);
    let rel = crate::path::join(dir, name);
    let d1 = if filter is Some && filter->0.needs_meta(rel) {
        crate::model::step_lstat(d, src);
        d.after(Action::Lstat(src))
    } else {
        d
    };
    assert(forall|s: Spot| #[trigger] d1.at(s) == d.at(s));
    match kind {
        FileKind::Directory => {
            law_commit_directory(d1);
        },
        FileKind::Symlink => {
            law_commit_link(d1);
            let x = d.at(src)->0.xattrs;
            assert(x.submap_of(x));
        },
        _ => {
            law_commit_file(d1);
        },
    }
}

/// An item that could not be read, or whose type could not, ends the merge with that
/// failure, before anything is changed.
pub proof fn law_unreadable_item(filter: Option<Rules>, dir: Seq<u8>, name: Seq<u8>, c: i32, w: World)
    ensures
        crate::commit::committing(filter, dir, Named::Broken(c), w) == Flow::<bool>::Fail(c, w),
        crate::commit::committing(filter, dir, Named::Entry(name, Err(c)), w) == Flow::<bool>::Fail(
            c,
            w,
        ),
{
}

/// A marker is committed by deleting what it hides, which it is not entered for.
pub proof fn law_marker_deletes(
    d: Disk,
    filter: Option<Rules>,
    dir: Seq<u8>,
    name: Seq<u8>,
    kind: FileKind,
)
    requires
        crate::listing::is_marker(crate::text::lossy(name)),
    ensures
        match crate::commit::committing(filter, dir, Named::Entry(name, Ok(kind)), World::Disk(d)) {
            Flow::Got(enter, World::Disk(e)) => {
                let s = Spot::lower(Which::Second);
                &&& !enter
                &&& crate::model::all_but(d, e, s)
                &&& e.at(s) is None || e.clock > 0 && (e.oracle.fault)((e.clock - 1) as nat)
                    == Some(Some(crate::errno::ENOENT))
            },
            Flow::Fail(code, World::Disk(e)) => {
                &&& crate::model::all_but(d, e, Spot::lower(Which::Second))
                &&& crate::model::blames(e, code) && !(e.log.last() is SetTimes)
                &&& !crate::model::never_faults(d)
            },
            _ => false,
        },
{
    law_commit_marker(d);
}

/// The first path that merging an item is about is that of the item in its directory; the
/// second, for a marker, is that of the entry in the same directory whose name follows the
/// prefix of the marker.
pub proof fn law_item_paths(dir: Seq<u8>, name: Seq<u8>, hidden: Seq<u8>, kind: Result<FileKind, i32>)
    ensures
        crate::commit::item_paths(dir, Named::Entry(name, kind)).0 == crate::path::join(dir, name),
        crate::text::lossy(name) == crate::layers::wh_prefix() + hidden
            ==> crate::commit::item_paths(dir, Named::Entry(name, kind)).1 == crate::path::join(
            dir,
            hidden,
        ),
{
    let p = crate::layers::wh_prefix();
    assert((p + hidden).skip(p.len() as int) =~= hidden);
}

} // verus!
