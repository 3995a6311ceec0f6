//! Merging over a record.

use crate::errno::ENOENT;
use crate::filter::Rules;
use crate::protocol::{Action, Answer, FileKind, Flow, Meta, Named, Spot, TimeSet, Which, World};
use vstd::prelude::*;

verus! {

/// [`crate::commit::syncing_metadata`] does over a record what it does on a disk.
pub proof fn faithful_syncing_metadata()
    ensures
        super::faithful(|w: World| crate::commit::syncing_metadata(w)),
{
    let h = |w: World| crate::commit::syncing_metadata(w);
    let f = |w: World| Action::Lstat(crate::commit::source()).meta(w);
    let g = |meta: Meta, w: World|
        crate::commit::syncing_mode(meta, w).bind(
            |u: (), w: World|
                Action::SetOwner(crate::commit::destination(), meta.uid, meta.gid).run(w).bind(
                    |u: (), w: World|
                        Action::SetTimes(
                            crate::commit::destination(),
                            TimeSet::At(meta.atime),
                            TimeSet::At(meta.mtime),
                        ).attempt(w).bind(
                            |u: (), w: World|
                                Action::CopyXattrs(crate::commit::source(), crate::commit::destination()).run(w),
                        ),
                ),
        );
    super::faithful_meta(Action::Lstat(crate::commit::source()));
    assert forall|meta: Meta| super::faithful(#[trigger] super::going_on(g, meta)) by {
        let f2 = |w: World| crate::commit::syncing_mode(meta, w);
        let g2 = |u: (), w: World|
            Action::SetOwner(crate::commit::destination(), meta.uid, meta.gid).run(w).bind(
                |u: (), w: World|
                    Action::SetTimes(
                        crate::commit::destination(),
                        TimeSet::At(meta.atime),
                        TimeSet::At(meta.mtime),
                    ).attempt(w).bind(
                        |u: (), w: World|
                            Action::CopyXattrs(crate::commit::source(), crate::commit::destination()).run(w),
                    ),
            );
        faithful_syncing_mode(meta);
        assert forall|u: ()| super::faithful(#[trigger] super::going_on(g2, u)) by {
            let f3 = |w: World|
                Action::SetOwner(crate::commit::destination(), meta.uid, meta.gid).run(w);
            let g3 = |u: (), w: World|
                Action::SetTimes(
                    crate::commit::destination(),
                    TimeSet::At(meta.atime),
                    TimeSet::At(meta.mtime),
                ).attempt(w).bind(
                    |u: (), w: World|
                        Action::CopyXattrs(crate::commit::source(), crate::commit::destination()).run(w),
                );
            super::faithful_run(Action::SetOwner(crate::commit::destination(), meta.uid, meta.gid));
            assert forall|u: ()| super::faithful(#[trigger] super::going_on(g3, u)) by {
                let f4 = |w: World| Action::SetTimes(
                    crate::commit::destination(),
                    TimeSet::At(meta.atime),
                    TimeSet::At(meta.mtime),
                ).attempt(w);
                let g4 = |u: (), w: World|
                    Action::CopyXattrs(crate::commit::source(), crate::commit::destination()).run(w);
                super::faithful_attempt(Action::SetTimes(
                crate::commit::destination(),
                TimeSet::At(meta.atime),
                TimeSet::At(meta.mtime)));
                assert forall|u: ()| super::faithful(#[trigger] super::going_on(g4, u)) by {
                    super::faithful_run(Action::CopyXattrs(crate::commit::source(), crate::commit::destination()));
                    assert(super::going_on(g4, u) =~= |w: World|
                        Action::CopyXattrs(crate::commit::source(), crate::commit::destination()).run(w));
                }
                super::faithful_bind(f4, g4, super::going_on(g3, u));
            }
            super::faithful_bind(f3, g3, super::going_on(g2, u));
        }
        super::faithful_bind(f2, g2, super::going_on(g, meta));
    }
    super::faithful_bind(f, g, h);
}

/// [`crate::commit::syncing_mode`] does over a record what it does on a disk.
pub proof fn faithful_syncing_mode(meta: Meta)
    ensures
        super::faithful(|w: World| crate::commit::syncing_mode(meta, w)),
{
    let h = |w: World| crate::commit::syncing_mode(meta, w);
    if meta.kind is Symlink {
        super::faithful_got(());
        assert(h =~= |w: World| Flow::Got((), w));
    } else {
        super::faithful_run(Action::SetMode(crate::commit::destination(), meta.mode));
        assert(h =~= |w: World| Action::SetMode(crate::commit::destination(), meta.mode).run(w));
    }
}

/// [`crate::commit::comparing`] does over a record what it does on a disk.
pub proof fn faithful_comparing()
    ensures
        super::faithful(|w: World| crate::commit::comparing(w)),
{
    let h = |w: World| crate::commit::comparing(w);
    let f = |w: World| Action::Lstat(crate::commit::destination()).probe(w);
    let g = |m: Option<Meta>, w: World|
        match m {
            None => Flow::Got(false, w),
            Some(dst) => if dst.kind is RegularFile {
                crate::commit::comparing_files(dst, w)
            } else {
                Flow::Got(false, w)
            },
        };
    super::faithful_probe(Action::Lstat(crate::commit::destination()));
    assert forall|m: Option<Meta>| super::faithful(#[trigger] super::going_on(g, m)) by {
        match m {
            None => {
                super::faithful_got(false);
                assert(super::going_on(g, m) =~= |w: World| Flow::Got(false, w));
            },
            Some(dst) => {
                if dst.kind is RegularFile {
                    faithful_comparing_files(dst);
                    assert(super::going_on(g, m) =~= |w: World|
                        crate::commit::comparing_files(dst, w));
                } else {
                    super::faithful_got(false);
                    assert(super::going_on(g, m) =~= |w: World| Flow::Got(false, w));
                }
            },
        }
    }
    super::faithful_bind(f, g, h);
}

/// [`crate::commit::comparing_files`] does over a record what it does on a disk.
pub proof fn faithful_comparing_files(dst: Meta)
    ensures
        super::faithful(|w: World| crate::commit::comparing_files(dst, w)),
{
    let h = |w: World| crate::commit::comparing_files(dst, w);
    let f = |w: World| Action::Stat(crate::commit::source()).meta(w);
    let g = |src: Meta, w: World|
        if src.size != dst.size {
            Flow::Got(false, w)
        } else if src.mtime == dst.mtime {
            Flow::Got(true, w)
        } else {
            crate::commit::comparing_digests(w)
        };
    super::faithful_meta(Action::Stat(crate::commit::source()));
    assert forall|src: Meta| super::faithful(#[trigger] super::going_on(g, src)) by {
        if src.size != dst.size {
            super::faithful_got(false);
            assert(super::going_on(g, src) =~= |w: World| Flow::Got(false, w));
        } else if src.mtime == dst.mtime {
            super::faithful_got(true);
            assert(super::going_on(g, src) =~= |w: World| Flow::Got(true, w));
        } else {
            faithful_comparing_digests();
            assert(super::going_on(g, src) =~= |w: World| crate::commit::comparing_digests(w));
        }
    }
    super::faithful_bind(f, g, h);
}

/// [`crate::commit::comparing_digests`] does over a record what it does on a disk.
pub proof fn faithful_comparing_digests()
    ensures
        super::faithful(|w: World| crate::commit::comparing_digests(w)),
{
    let h = |w: World| crate::commit::comparing_digests(w);
    let f = |w: World| Action::Digest(crate::commit::source()).data(w);
    let g = |a: Seq<u8>, w: World|
        Action::Digest(crate::commit::destination()).data(w).bind(
            |b: Seq<u8>, w: World| Flow::Got(a == b, w),
        );
    super::faithful_data(Action::Digest(crate::commit::source()));
    assert forall|a: Seq<u8>| super::faithful(#[trigger] super::going_on(g, a)) by {
        let f2 = |w: World| Action::Digest(crate::commit::destination()).data(w);
        let g2 = |b: Seq<u8>, w: World| Flow::Got(a == b, w);
        super::faithful_data(Action::Digest(crate::commit::destination()));
        assert forall|b: Seq<u8>| super::faithful(#[trigger] super::going_on(g2, b)) by {
            super::faithful_got(a == b);
            assert(super::going_on(g2, b) =~= |w: World| Flow::Got(a == b, w));
        }
        super::faithful_bind(f2, g2, super::going_on(g, a));
    }
    super::faithful_bind(f, g, h);
}

/// [`crate::commit::replacing`] does over a record what it does on a disk.
pub proof fn faithful_replacing()
    ensures
        super::faithful(|w: World| crate::commit::replacing(w)),
{
    let h = |w: World| crate::commit::replacing(w);
    let f = |w: World| Action::Lstat(crate::commit::destination()).probe(w);
    let g = |m: Option<Meta>, w: World|
        crate::commit::replacing_old(m is Some, w).bind(
            |u: (), w: World|
                Action::CopyFile(crate::commit::source(), crate::commit::destination()).run(w).bind(
                    |u: (), w: World|
                        crate::commit::syncing_metadata(w).bind(|u: (), w: World| crate::commit::flushing(w)),
                ),
        );
    super::faithful_probe(Action::Lstat(crate::commit::destination()));
    assert forall|m: Option<Meta>| super::faithful(#[trigger] super::going_on(g, m)) by {
        let f2 = |w: World| crate::commit::replacing_old(m is Some, w);
        let g2 = |u: (), w: World|
            Action::CopyFile(crate::commit::source(), crate::commit::destination()).run(w).bind(
                |u: (), w: World|
                    crate::commit::syncing_metadata(w).bind(|u: (), w: World| crate::commit::flushing(w)),
            );
        faithful_replacing_old(m is Some);
        assert forall|u: ()| super::faithful(#[trigger] super::going_on(g2, u)) by {
            let f3 = |w: World|
                Action::CopyFile(crate::commit::source(), crate::commit::destination()).run(w);
            let g3 = |u: (), w: World|
                crate::commit::syncing_metadata(w).bind(|u: (), w: World| crate::commit::flushing(w));
            super::faithful_run(Action::CopyFile(crate::commit::source(), crate::commit::destination()));
            assert forall|u: ()| super::faithful(#[trigger] super::going_on(g3, u)) by {
                let f4 = |w: World| crate::commit::syncing_metadata(w);
                let g4 = |u: (), w: World| crate::commit::flushing(w);
                faithful_syncing_metadata();
                assert forall|u: ()| super::faithful(#[trigger] super::going_on(g4, u)) by {
                    faithful_flushing();
                    assert(super::going_on(g4, u) =~= |w: World| crate::commit::flushing(w));
                }
                super::faithful_bind(f4, g4, super::going_on(g3, u));
            }
            super::faithful_bind(f3, g3, super::going_on(g2, u));
        }
        super::faithful_bind(f2, g2, super::going_on(g, m));
    }
    super::faithful_bind(f, g, h);
}

/// [`crate::commit::replacing_old`] does over a record what it does on a disk.
pub proof fn faithful_replacing_old(there: bool)
    ensures
        super::faithful(|w: World| crate::commit::replacing_old(there, w)),
{
    let h = |w: World| crate::commit::replacing_old(there, w);
    if there {
        super::faithful_run(Action::RemoveFile(crate::commit::destination()));
        assert(h =~= |w: World| Action::RemoveFile(crate::commit::destination()).run(w));
    } else {
        super::faithful_got(());
        assert(h =~= |w: World| Flow::Got((), w));
    }
}

/// [`crate::commit::flushing`] does over a record what it does on a disk.
pub proof fn faithful_flushing()
    ensures
        super::faithful(|w: World| crate::commit::flushing(w)),
{
    let h = |w: World| crate::commit::flushing(w);
    let f = |w: World| Action::OpenWrite(crate::commit::destination()).test(w);
    let g = |open: bool, w: World|
        if open {
            Action::Fsync(true).run(w)
        } else {
            Flow::Got((), w)
        };
    super::faithful_test(Action::OpenWrite(crate::commit::destination()));
    assert forall|open: bool| super::faithful(#[trigger] super::going_on(g, open)) by {
        if open {
            super::faithful_run(Action::Fsync(true));
            assert(super::going_on(g, open) =~= |w: World| Action::Fsync(true).run(w));
        } else {
            super::faithful_got(());
            assert(super::going_on(g, open) =~= |w: World| Flow::Got((), w));
        }
    }
    super::faithful_bind(f, g, h);
}

/// [`crate::commit::copying_file`] does over a record what it does on a disk.
pub proof fn faithful_copying_file()
    ensures
        super::faithful(|w: World| crate::commit::copying_file(w)),
{
    let h = |w: World| crate::commit::copying_file(w);
    let f = |w: World| crate::commit::comparing(w);
    let g = |equal: bool, w: World|
        if equal {
            crate::commit::syncing_metadata(w)
        } else {
            crate::commit::replacing(w)
        };
    faithful_comparing();
    assert forall|equal: bool| super::faithful(#[trigger] super::going_on(g, equal)) by {
        if equal {
            faithful_syncing_metadata();
            assert(super::going_on(g, equal) =~= |w: World| crate::commit::syncing_metadata(w));
        } else {
            faithful_replacing();
            assert(super::going_on(g, equal) =~= |w: World| crate::commit::replacing(w));
        }
    }
    super::faithful_bind(f, g, h);
}

/// [`crate::commit::copying_link`] does over a record what it does on a disk.
pub proof fn faithful_copying_link()
    ensures
        super::faithful(|w: World| crate::commit::copying_link(w)),
{
    let h = |w: World| crate::commit::copying_link(w);
    let f = |w: World| Action::ReadLink(crate::commit::source()).data(w);
    let g = |target: Seq<u8>, w: World|
        Action::Lstat(crate::commit::destination()).probe(w).bind(
            |m: Option<Meta>, w: World|
                crate::commit::dropping_old(m is Some, w).bind(
                    |u: (), w: World|
                        Action::MakeLink(crate::commit::destination()).run(w).bind(
                            |u: (), w: World| crate::commit::syncing_metadata(w),
                        ),
                ),
        );
    super::faithful_data(Action::ReadLink(crate::commit::source()));
    assert forall|target: Seq<u8>| super::faithful(#[trigger] super::going_on(g, target)) by {
        let f2 = |w: World| Action::Lstat(crate::commit::destination()).probe(w);
        let g2 = |m: Option<Meta>, w: World|
            crate::commit::dropping_old(m is Some, w).bind(
                |u: (), w: World|
                    Action::MakeLink(crate::commit::destination()).run(w).bind(
                        |u: (), w: World| crate::commit::syncing_metadata(w),
                    ),
            );
        super::faithful_probe(Action::Lstat(crate::commit::destination()));
        assert forall|m: Option<Meta>| super::faithful(#[trigger] super::going_on(g2, m)) by {
            let f3 = |w: World| crate::commit::dropping_old(m is Some, w);
            let g3 = |u: (), w: World|
                Action::MakeLink(crate::commit::destination()).run(w).bind(
                    |u: (), w: World| crate::commit::syncing_metadata(w),
                );
            faithful_dropping_old(m is Some);
            assert forall|u: ()| super::faithful(#[trigger] super::going_on(g3, u)) by {
                let f4 = |w: World| Action::MakeLink(crate::commit::destination()).run(w);
                let g4 = |u: (), w: World| crate::commit::syncing_metadata(w);
                super::faithful_run(Action::MakeLink(crate::commit::destination()));
                assert forall|u: ()| super::faithful(#[trigger] super::going_on(g4, u)) by {
                    faithful_syncing_metadata();
                    assert(super::going_on(g4, u) =~= |w: World|
                        crate::commit::syncing_metadata(w));
                }
                super::faithful_bind(f4, g4, super::going_on(g3, u));
            }
            super::faithful_bind(f3, g3, super::going_on(g2, m));
        }
        super::faithful_bind(f2, g2, super::going_on(g, target));
    }
    super::faithful_bind(f, g, h);
}

/// [`crate::commit::dropping_old`] does over a record what it does on a disk.
pub proof fn faithful_dropping_old(there: bool)
    ensures
        super::faithful(|w: World| crate::commit::dropping_old(there, w)),
{
    let h = |w: World| crate::commit::dropping_old(there, w);
    if there {
        super::faithful_attempt(Action::RemoveFile(crate::commit::destination()));
        assert(h =~= |w: World| Action::RemoveFile(crate::commit::destination()).attempt(w));
    } else {
        super::faithful_got(());
        assert(h =~= |w: World| Flow::Got((), w));
    }
}

/// [`crate::commit::copying_dir`] does over a record what it does on a disk.
pub proof fn faithful_copying_dir()
    ensures
        super::faithful(|w: World| crate::commit::copying_dir(w)),
{
    let h = |w: World| crate::commit::copying_dir(w);
    let f = |w: World| Action::Lstat(crate::commit::destination()).probe(w);
    let g = |m: Option<Meta>, w: World|
        crate::xattr::sealed(crate::commit::source(), w).bind(
            |opaque: bool, w: World|
                crate::commit::making_room(m, opaque, w).bind(|u: (), w: World| crate::commit::syncing_metadata(w)),
        );
    super::faithful_probe(Action::Lstat(crate::commit::destination()));
    assert forall|m: Option<Meta>| super::faithful(#[trigger] super::going_on(g, m)) by {
        let f2 = |w: World| crate::xattr::sealed(crate::commit::source(), w);
        let g2 = |opaque: bool, w: World|
            crate::commit::making_room(m, opaque, w).bind(|u: (), w: World| crate::commit::syncing_metadata(w));
        super::attributes::faithful_sealed(crate::commit::source());
        assert forall|opaque: bool| super::faithful(#[trigger] super::going_on(g2, opaque)) by {
            let f3 = |w: World| crate::commit::making_room(m, opaque, w);
            let g3 = |u: (), w: World| crate::commit::syncing_metadata(w);
            faithful_making_room(m, opaque);
            assert forall|u: ()| super::faithful(#[trigger] super::going_on(g3, u)) by {
                faithful_syncing_metadata();
                assert(super::going_on(g3, u) =~= |w: World| crate::commit::syncing_metadata(w));
            }
            super::faithful_bind(f3, g3, super::going_on(g2, opaque));
        }
        super::faithful_bind(f2, g2, super::going_on(g, m));
    }
    super::faithful_bind(f, g, h);
}

/// [`crate::commit::making_room`] does over a record what it does on a disk.
pub proof fn faithful_making_room(there: Option<Meta>, opaque: bool)
    ensures
        super::faithful(|w: World| crate::commit::making_room(there, opaque, w)),
{
    let h = |w: World| crate::commit::making_room(there, opaque, w);
    match there {
        None => {
            super::faithful_run(Action::MakeDirs(crate::commit::destination()));
            assert(h =~= |w: World| Action::MakeDirs(crate::commit::destination()).run(w));
        },
        Some(meta) => {
            if meta.kind is Directory {
                faithful_emptying(opaque);
                assert(h =~= |w: World| crate::commit::emptying(opaque, w));
            } else {
                let f = |w: World| Action::RemoveFile(crate::commit::destination()).run(w);
                let g = |u: (), w: World| Action::MakeDirs(crate::commit::destination()).run(w);
                super::faithful_run(Action::RemoveFile(crate::commit::destination()));
                assert forall|u: ()| super::faithful(#[trigger] super::going_on(g, u)) by {
                    super::faithful_run(Action::MakeDirs(crate::commit::destination()));
                    assert(super::going_on(g, u) =~= |w: World|
                        Action::MakeDirs(crate::commit::destination()).run(w));
                }
                super::faithful_bind(f, g, h);
            }
        },
    }
}

/// [`crate::commit::emptying`] does over a record what it does on a disk.
pub proof fn faithful_emptying(opaque: bool)
    ensures
        super::faithful(|w: World| crate::commit::emptying(opaque, w)),
{
    let h = |w: World| crate::commit::emptying(opaque, w);
    if opaque {
        super::faithful_run(Action::EmptyDir(crate::commit::destination()));
        assert(h =~= |w: World| Action::EmptyDir(crate::commit::destination()).run(w));
    } else {
        super::faithful_got(());
        assert(h =~= |w: World| Flow::Got((), w));
    }
}

/// [`crate::commit::preparing_root`] does over a record what it does on a disk.
pub proof fn faithful_preparing_root()
    ensures
        super::faithful(|w: World| crate::commit::preparing_root(w)),
{
    let h = |w: World| crate::commit::preparing_root(w);
    let f = |w: World| crate::xattr::sealed(crate::commit::source(), w);
    let g = |opaque: bool, w: World| crate::commit::emptying(opaque, w);
    super::attributes::faithful_sealed(crate::commit::source());
    assert forall|opaque: bool| super::faithful(#[trigger] super::going_on(g, opaque)) by {
        faithful_emptying(opaque);
        assert(super::going_on(g, opaque) =~= |w: World| crate::commit::emptying(opaque, w));
    }
    super::faithful_bind(f, g, h);
}

/// [`crate::commit::merging`] does over a record what it does on a disk.
pub proof fn faithful_merging(kind: FileKind)
    ensures
        super::faithful(|w: World| crate::commit::merging(kind, w)),
{
    let h = |w: World| crate::commit::merging(kind, w);
    match kind {
        FileKind::Directory => {
            let f = |w: World| crate::commit::copying_dir(w);
            let g = |u: (), w: World| Flow::Got(true, w);
            faithful_copying_dir();
            assert forall|u: ()| super::faithful(#[trigger] super::going_on(g, u)) by {
                super::faithful_got(true);
                assert(super::going_on(g, u) =~= |w: World| Flow::Got(true, w));
            }
            super::faithful_bind(f, g, h);
        },
        FileKind::Symlink => {
            let f2 = |w: World| crate::commit::copying_link(w);
            let g2 = |u: (), w: World| Flow::Got(false, w);
            faithful_copying_link();
            assert forall|u: ()| super::faithful(#[trigger] super::going_on(g2, u)) by {
                super::faithful_got(false);
                assert(super::going_on(g2, u) =~= |w: World| Flow::Got(false, w));
            }
            super::faithful_bind(f2, g2, h);
        },
        _ => {
            let f3 = |w: World| crate::commit::copying_file(w);
            let g3 = |u: (), w: World| Flow::Got(false, w);
            faithful_copying_file();
            assert forall|u: ()| super::faithful(#[trigger] super::going_on(g3, u)) by {
                super::faithful_got(false);
                assert(super::going_on(g3, u) =~= |w: World| Flow::Got(false, w));
            }
            super::faithful_bind(f3, g3, h);
        },
    }
}

/// [`crate::commit::deleting`] does over a record what it does on a disk.
pub proof fn faithful_deleting()
    ensures
        super::faithful(|w: World| crate::commit::deleting(w)),
{
    let h = |w: World| crate::commit::deleting(w);
    let s = Spot::lower(Which::Second);
    let f = |w: World| Action::Lstat(s).probe(w);
    let g = |m: Option<Meta>, w: World|
        crate::commit::deleting_by(
            if m matches Some(meta) && meta.kind is Directory {
                Action::RemoveTree(s)
            } else {
                Action::RemoveFile(s)
            },
            w,
        );
    super::faithful_probe(Action::Lstat(s));
    assert forall|m: Option<Meta>| super::faithful(#[trigger] super::going_on(g, m)) by {
        let x = if m matches Some(meta) && meta.kind is Directory {
            Action::RemoveTree(s)
        } else {
            Action::RemoveFile(s)
        };
        faithful_deleting_by(x);
        assert(super::going_on(g, m) =~= |w: World| crate::commit::deleting_by(x, w));
    }
    super::faithful_bind(f, g, h);
}

/// [`crate::commit::deleting_by`] does over a record what it does on a disk.
pub proof fn faithful_deleting_by(remove: Action)
    ensures
        super::faithful(|w: World| crate::commit::deleting_by(remove, w)),
{
    let h = |w: World| crate::commit::deleting_by(remove, w);
    let f = |w: World| remove.ask(w);
    let g = |r: Answer, w: World|
        if r is Done || r == Answer::Failed(Some(ENOENT)) {
            Flow::Got((), w)
        } else {
            Flow::Fail(r.code(), w)
        };
    super::faithful_ask(remove);
    assert forall|r: Answer| super::faithful(#[trigger] super::going_on(g, r)) by {
        if r is Done || r == Answer::Failed(Some(ENOENT)) {
            super::faithful_got(());
            assert(super::going_on(g, r) =~= |w: World| Flow::Got((), w));
        } else {
            super::faithful_fail::<()>(r.code());
            assert(super::going_on(g, r) =~= |w: World| Flow::Fail(r.code(), w));
        }
    }
    super::faithful_bind(f, g, h);
}

/// [`crate::commit::filtering`] does over a record what it does on a disk.
pub proof fn faithful_filtering(rules: Rules, rel: Seq<u8>, is_dir: bool)
    ensures
        super::faithful(|w: World| crate::commit::filtering(rules, rel, is_dir, w)),
{
    let h = |w: World| crate::commit::filtering(rules, rel, is_dir, w);
    if rules.needs_meta(rel) {
        let f = |w: World| Action::Lstat(crate::commit::source()).probe(w);
        let g = |m: Option<Meta>, w: World| Flow::Got(rules.excludes(rel, is_dir, m), w);
        super::faithful_probe(Action::Lstat(crate::commit::source()));
        assert forall|m: Option<Meta>| super::faithful(#[trigger] super::going_on(g, m)) by {
            super::faithful_got(rules.excludes(rel, is_dir, m));
            assert(super::going_on(g, m) =~= |w: World|
                Flow::Got(rules.excludes(rel, is_dir, m), w));
        }
        super::faithful_bind(f, g, h);
    } else {
        super::faithful_got::<bool>(rules.excludes(rel, is_dir, None));
        assert(h =~= |w: World| Flow::Got(rules.excludes(rel, is_dir, None), w));
    }
}

/// [`crate::commit::admitting`] does over a record what it does on a disk.
pub proof fn faithful_admitting(filter: Option<Rules>, rel: Seq<u8>, kind: FileKind)
    ensures
        super::faithful(|w: World| crate::commit::admitting(filter, rel, kind, w)),
{
    let h = |w: World| crate::commit::admitting(filter, rel, kind, w);
    match filter {
        None => {
            faithful_merging(kind);
            assert(h =~= |w: World| crate::commit::merging(kind, w));
        },
        Some(rules) => {
            let f = |w: World| crate::commit::filtering(rules, rel, kind is Directory, w);
            let g = |out: bool, w: World|
                if out {
                    Flow::Got(false, w)
                } else {
                    crate::commit::merging(kind, w)
                };
            faithful_filtering(rules, rel, kind is Directory);
            assert forall|out: bool| super::faithful(#[trigger] super::going_on(g, out)) by {
                if out {
                    super::faithful_got(false);
                    assert(super::going_on(g, out) =~= |w: World| Flow::Got(false, w));
                } else {
                    faithful_merging(kind);
                    assert(super::going_on(g, out) =~= |w: World| crate::commit::merging(kind, w));
                }
            }
            super::faithful_bind(f, g, h);
        },
    }
}

/// [`crate::commit::committing`] does over a record what it does on a disk.
pub proof fn faithful_committing(filter: Option<Rules>, dir: Seq<u8>, item: Named)
    ensures
        super::faithful(|w: World| crate::commit::committing(filter, dir, item, w)),
{
    let h = |w: World| crate::commit::committing(filter, dir, item, w);
    match item {
        Named::Broken(c) => {
            super::faithful_fail::<bool>(c);
            assert(h =~= |w: World| Flow::Fail(c, w));
        },
        Named::Entry(name, kind) => {
            match kind {
                Err(c) => {
                    super::faithful_fail::<bool>(c);
                    assert(h =~= |w: World| Flow::Fail(c, w));
                },
                Ok(k) => {
                    if crate::listing::is_marker(crate::text::lossy(name)) {
                        let f = |w: World| crate::commit::deleting(w);
                        let g = |u: (), w: World| Flow::Got(false, w);
                        faithful_deleting();
                        assert forall|u: ()| super::faithful(#[trigger] super::going_on(g, u)) by {
                            super::faithful_got(false);
                            assert(super::going_on(g, u) =~= |w: World| Flow::Got(false, w));
                        }
                        super::faithful_bind(f, g, h);
                    } else {
                        faithful_admitting(filter, crate::path::join(dir, name), k);
                        assert(h =~= |w: World|
                            crate::commit::admitting(filter, crate::path::join(dir, name), k, w));
                    }
                },
            }
        },
    }
}

} // verus!
