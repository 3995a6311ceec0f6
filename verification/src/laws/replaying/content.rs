//! Content over a record.

use crate::errno::{EACCES, EINVAL, EIO, ENOENT};
use crate::fuse_ops::{O_TRUNC, OverlayOps, SEEK_CUR, SEEK_END, SEEK_SET, X_OK};
use crate::layers::{LayerManager, Place};
use crate::protocol::{Action, Answer, Flow, Layer, Meta, Space, Spot, Which, World};
use vstd::prelude::*;

verus! {

/// [`OverlayOps::opening`] does over a record what it does on a disk.
pub proof fn faithful_opening(place: Place, flags: i32)
    ensures
        super::faithful(|w: World| OverlayOps::opening(place, flags, w)),
{
    let h = |w: World| OverlayOps::opening(place, flags, w);
    let f = |w: World| LayerManager::promoting(place, Which::First, w);
    let g = |u: (), w: World|
        if flags & O_TRUNC != 0 {
            Action::Truncate(Spot::upper(Which::First)).run(w)
        } else {
            Flow::Got((), w)
        };
    super::layers::faithful_promoting(place, Which::First);
    assert forall|u: ()| super::faithful(#[trigger] super::going_on(g, u)) by {
        if flags & O_TRUNC != 0 {
            super::faithful_run(Action::Truncate(Spot::upper(Which::First)));
            assert(super::going_on(g, u) =~= |w: World|
                Action::Truncate(Spot::upper(Which::First)).run(w));
        } else {
            super::faithful_got(());
            assert(super::going_on(g, u) =~= |w: World| Flow::Got((), w));
        }
    }
    super::faithful_bind(f, g, h);
}

/// [`OverlayOps::reading`] does over a record what it does on a disk.
pub proof fn faithful_reading(place: Place, offset: u64, size: u32)
    ensures
        super::faithful(|w: World| OverlayOps::reading(place, offset, size, w)),
{
    let h = |w: World| OverlayOps::reading(place, offset, size, w);
    let f = |w: World| LayerManager::resolving(place, Which::First, w);
    let g = |at: Option<Layer>, w: World|
        match at {
            None => Flow::Fail(ENOENT, w),
            Some(layer) => OverlayOps::reading_at(Spot::entry(layer, Which::First), offset, size, w),
        };
    super::layers::faithful_resolving(place, Which::First);
    assert forall|at: Option<Layer>| super::faithful(#[trigger] super::going_on(g, at)) by {
        match at {
            None => {
                super::faithful_fail::<Seq<u8>>(ENOENT);
                assert(super::going_on(g, at) =~= |w: World| Flow::Fail(ENOENT, w));
            },
            Some(layer) => {
                faithful_reading_at(Spot::entry(layer, Which::First), offset, size);
                assert(super::going_on(g, at) =~= |w: World|
                    OverlayOps::reading_at(Spot::entry(layer, Which::First), offset, size, w));
            },
        }
    }
    super::faithful_bind(f, g, h);
}

/// [`OverlayOps::reading_at`] does over a record what it does on a disk.
pub proof fn faithful_reading_at(s: Spot, offset: u64, size: u32)
    ensures
        super::faithful(|w: World| OverlayOps::reading_at(s, offset, size, w)),
{
    let h = |w: World| OverlayOps::reading_at(s, offset, size, w);
    let f = |w: World| Action::Stat(s).probe(w);
    let g = |m: Option<Meta>, w: World|
        if m matches Some(meta) && offset >= meta.size {
            Flow::Got(Seq::empty(), w)
        } else {
            Action::OpenRead(s).run(w).bind(
                |u: (), w: World|
                    Action::SeekTo(offset).run(w).bind(
                        |u: (), w: World| Action::ReadSome(size).data(w),
                    ),
            )
        };
    super::faithful_probe(Action::Stat(s));
    assert forall|m: Option<Meta>| super::faithful(#[trigger] super::going_on(g, m)) by {
        if m matches Some(meta) && offset >= meta.size {
            super::faithful_got::<Seq<u8>>(Seq::empty());
            assert(super::going_on(g, m) =~= |w: World| Flow::Got(Seq::empty(), w));
        } else {
            let f2 = |w: World| Action::OpenRead(s).run(w);
            let g2 = |u: (), w: World|
                Action::SeekTo(offset).run(w).bind(
                    |u: (), w: World| Action::ReadSome(size).data(w),
                );
            super::faithful_run(Action::OpenRead(s));
            assert forall|u: ()| super::faithful(#[trigger] super::going_on(g2, u)) by {
                let f3 = |w: World| Action::SeekTo(offset).run(w);
                let g3 = |u: (), w: World| Action::ReadSome(size).data(w);
                super::faithful_run(Action::SeekTo(offset));
                assert forall|u: ()| super::faithful(#[trigger] super::going_on(g3, u)) by {
                    super::faithful_data(Action::ReadSome(size));
                    assert(super::going_on(g3, u) =~= |w: World| Action::ReadSome(size).data(w));
                }
                super::faithful_bind(f3, g3, super::going_on(g2, u));
            }
            super::faithful_bind(f2, g2, super::going_on(g, m));
        }
    }
    super::faithful_bind(f, g, h);
}

/// [`OverlayOps::writing`] does over a record what it does on a disk.
pub proof fn faithful_writing(place: Place, offset: u64)
    ensures
        super::faithful(|w: World| OverlayOps::writing(place, offset, w)),
{
    let h = |w: World| OverlayOps::writing(place, offset, w);
    let f = |w: World| LayerManager::promoting(place, Which::First, w);
    let g = |u: (), w: World|
        Action::OpenWrite(Spot::upper(Which::First)).run(w).bind(
            |u: (), w: World|
                Action::SeekTo(offset).run(w).bind(
                    |u: (), w: World|
                        Action::WriteData.count(w).bind(
                            |n: i64, w: World| Flow::Got(n as u32, w),
                        ),
                ),
        );
    super::layers::faithful_promoting(place, Which::First);
    assert forall|u: ()| super::faithful(#[trigger] super::going_on(g, u)) by {
        let f2 = |w: World| Action::OpenWrite(Spot::upper(Which::First)).run(w);
        let g2 = |u: (), w: World|
            Action::SeekTo(offset).run(w).bind(
                |u: (), w: World|
                    Action::WriteData.count(w).bind(
                        |n: i64, w: World| Flow::Got(n as u32, w),
                    ),
            );
        super::faithful_run(Action::OpenWrite(Spot::upper(Which::First)));
        assert forall|u: ()| super::faithful(#[trigger] super::going_on(g2, u)) by {
            let f3 = |w: World| Action::SeekTo(offset).run(w);
            let g3 = |u: (), w: World|
                Action::WriteData.count(w).bind(
                    |n: i64, w: World| Flow::Got(n as u32, w),
                );
            super::faithful_run(Action::SeekTo(offset));
            assert forall|u: ()| super::faithful(#[trigger] super::going_on(g3, u)) by {
                let f4 = |w: World| Action::WriteData.count(w);
                let g4 = |n: i64, w: World| Flow::Got(n as u32, w);
                super::faithful_count(Action::WriteData);
                assert forall|n: i64| super::faithful(#[trigger] super::going_on(g4, n)) by {
                    super::faithful_got(n as u32);
                    assert(super::going_on(g4, n) =~= |w: World| Flow::Got(n as u32, w));
                }
                super::faithful_bind(f4, g4, super::going_on(g3, u));
            }
            super::faithful_bind(f3, g3, super::going_on(g2, u));
        }
        super::faithful_bind(f2, g2, super::going_on(g, u));
    }
    super::faithful_bind(f, g, h);
}

/// [`OverlayOps::finding_file`] does over a record what it does on a disk.
pub proof fn faithful_finding_file()
    ensures
        super::faithful(|w: World| OverlayOps::finding_file(w)),
{
    let h = |w: World| OverlayOps::finding_file(w);
    let f = |w: World| Action::Lstat(Spot::upper(Which::First)).probe(w);
    let g = |m: Option<Meta>, w: World|
        Flow::Got(m matches Some(meta) && meta.kind is RegularFile, w);
    super::faithful_probe(Action::Lstat(Spot::upper(Which::First)));
    assert forall|m: Option<Meta>| super::faithful(#[trigger] super::going_on(g, m)) by {
        let x = m matches Some(meta) && meta.kind is RegularFile;
        super::faithful_got(x);
        assert(super::going_on(g, m) =~= |w: World| Flow::Got(x, w));
    }
    super::faithful_bind(f, g, h);
}

/// [`OverlayOps::flushing`] does over a record what it does on a disk.
pub proof fn faithful_flushing()
    ensures
        super::faithful(|w: World| OverlayOps::flushing(w)),
{
    let h = |w: World| OverlayOps::flushing(w);
    let f = |w: World| OverlayOps::finding_file(w);
    let g = |file: bool, w: World|
        if !file {
            Flow::Got((), w)
        } else {
            Action::OpenWrite(Spot::upper(Which::First)).test(w).bind(
                |open: bool, w: World|
                    if !open {
                        Flow::Got((), w)
                    } else {
                        Action::SyncAll.test(w).bind(
                            |ok: bool, w: World|
                                if ok {
                                    Flow::Got((), w)
                                } else {
                                    Flow::Fail(EIO, w)
                                },
                        )
                    },
            )
        };
    faithful_finding_file();
    assert forall|file: bool| super::faithful(#[trigger] super::going_on(g, file)) by {
        if !file {
            super::faithful_got(());
            assert(super::going_on(g, file) =~= |w: World| Flow::Got((), w));
        } else {
            let f2 = |w: World| Action::OpenWrite(Spot::upper(Which::First)).test(w);
            let g2 = |open: bool, w: World|
                if !open {
                    Flow::Got((), w)
                } else {
                    Action::SyncAll.test(w).bind(
                        |ok: bool, w: World|
                            if ok {
                                Flow::Got((), w)
                            } else {
                                Flow::Fail(EIO, w)
                            },
                    )
                };
            super::faithful_test(Action::OpenWrite(Spot::upper(Which::First)));
            assert forall|open: bool| super::faithful(#[trigger] super::going_on(g2, open)) by {
                if !open {
                    super::faithful_got(());
                    assert(super::going_on(g2, open) =~= |w: World| Flow::Got((), w));
                } else {
                    let f3 = |w: World| Action::SyncAll.test(w);
                    let g3 = |ok: bool, w: World|
                        if ok {
                            Flow::Got((), w)
                        } else {
                            Flow::Fail(EIO, w)
                        };
                    super::faithful_test(Action::SyncAll);
                    assert forall|ok: bool| super::faithful(#[trigger] super::going_on(g3, ok)) by {
                        if ok {
                            super::faithful_got(());
                            assert(super::going_on(g3, ok) =~= |w: World| Flow::Got((), w));
                        } else {
                            super::faithful_fail::<()>(EIO);
                            assert(super::going_on(g3, ok) =~= |w: World| Flow::Fail(EIO, w));
                        }
                    }
                    super::faithful_bind(f3, g3, super::going_on(g2, open));
                }
            }
            super::faithful_bind(f2, g2, super::going_on(g, file));
        }
    }
    super::faithful_bind(f, g, h);
}

/// [`OverlayOps::syncing`] does over a record what it does on a disk.
pub proof fn faithful_syncing(datasync: bool)
    ensures
        super::faithful(|w: World| OverlayOps::syncing(datasync, w)),
{
    let h = |w: World| OverlayOps::syncing(datasync, w);
    let f = |w: World| OverlayOps::finding_file(w);
    let g = |file: bool, w: World|
        if !file {
            Flow::Got((), w)
        } else {
            Action::OpenWrite(Spot::upper(Which::First)).run(w).bind(
                |u: (), w: World| Action::Fsync(datasync).run(w),
            )
        };
    faithful_finding_file();
    assert forall|file: bool| super::faithful(#[trigger] super::going_on(g, file)) by {
        if !file {
            super::faithful_got(());
            assert(super::going_on(g, file) =~= |w: World| Flow::Got((), w));
        } else {
            let f2 = |w: World| Action::OpenWrite(Spot::upper(Which::First)).run(w);
            let g2 = |u: (), w: World| Action::Fsync(datasync).run(w);
            super::faithful_run(Action::OpenWrite(Spot::upper(Which::First)));
            assert forall|u: ()| super::faithful(#[trigger] super::going_on(g2, u)) by {
                super::faithful_run(Action::Fsync(datasync));
                assert(super::going_on(g2, u) =~= |w: World| Action::Fsync(datasync).run(w));
            }
            super::faithful_bind(f2, g2, super::going_on(g, file));
        }
    }
    super::faithful_bind(f, g, h);
}

/// [`OverlayOps::allocating`] does over a record what it does on a disk.
pub proof fn faithful_allocating(place: Place, offset: u64, length: u64, mode: i32)
    ensures
        super::faithful(|w: World| OverlayOps::allocating(place, offset, length, mode, w)),
{
    let h = |w: World| OverlayOps::allocating(place, offset, length, mode, w);
    let f = |w: World| LayerManager::promoting(place, Which::First, w);
    let g = |u: (), w: World|
        Action::OpenWrite(Spot::upper(Which::First)).run(w).bind(
            |u: (), w: World| Action::Allocate(offset, length, mode).run(w),
        );
    super::layers::faithful_promoting(place, Which::First);
    assert forall|u: ()| super::faithful(#[trigger] super::going_on(g, u)) by {
        let f2 = |w: World| Action::OpenWrite(Spot::upper(Which::First)).run(w);
        let g2 = |u: (), w: World| Action::Allocate(offset, length, mode).run(w);
        super::faithful_run(Action::OpenWrite(Spot::upper(Which::First)));
        assert forall|u: ()| super::faithful(#[trigger] super::going_on(g2, u)) by {
            super::faithful_run(Action::Allocate(offset, length, mode));
            assert(super::going_on(g2, u) =~= |w: World|
                Action::Allocate(offset, length, mode).run(w));
        }
        super::faithful_bind(f2, g2, super::going_on(g, u));
    }
    super::faithful_bind(f, g, h);
}

/// [`OverlayOps::seeking`] does over a record what it does on a disk.
pub proof fn faithful_seeking(s: Spot, offset: i64, whence: i32)
    ensures
        super::faithful(|w: World| OverlayOps::seeking(s, offset, whence, w)),
{
    let h = |w: World| OverlayOps::seeking(s, offset, whence, w);
    if whence == SEEK_SET {
        if offset < 0 {
            super::faithful_fail::<i64>(EINVAL);
            assert(h =~= |w: World| Flow::Fail(EINVAL, w));
        } else {
            super::faithful_got(offset);
            assert(h =~= |w: World| Flow::Got(offset, w));
        }
    } else if whence == SEEK_END {
        let f = |w: World| Action::Lstat(s).meta(w);
        let g = |meta: Meta, w: World|
            match OverlayOps::from_end(meta.size, offset) {
                Some(p) => Flow::Got(p, w),
                None => Flow::Fail(EINVAL, w),
            };
        super::faithful_meta(Action::Lstat(s));
        assert forall|meta: Meta| super::faithful(#[trigger] super::going_on(g, meta)) by {
            match OverlayOps::from_end(meta.size, offset) {
                Some(p) => {
                    super::faithful_got(p);
                    assert(super::going_on(g, meta) =~= |w: World| Flow::Got(p, w));
                },
                None => {
                    super::faithful_fail::<i64>(EINVAL);
                    assert(super::going_on(g, meta) =~= |w: World| Flow::Fail(EINVAL, w));
                },
            }
        }
        super::faithful_bind(f, g, h);
    } else if whence == SEEK_CUR {
        super::faithful_fail::<i64>(EINVAL);
        assert(h =~= |w: World| Flow::Fail(EINVAL, w));
    } else {
        let f2 = |w: World| Action::OpenRead(s).run(w);
        let g2 = |u: (), w: World| Action::SeekBy(offset, whence).count(w);
        super::faithful_run(Action::OpenRead(s));
        assert forall|u: ()| super::faithful(#[trigger] super::going_on(g2, u)) by {
            super::faithful_count(Action::SeekBy(offset, whence));
            assert(super::going_on(g2, u) =~= |w: World| Action::SeekBy(offset, whence).count(w));
        }
        super::faithful_bind(f2, g2, h);
    }
}

/// [`OverlayOps::ranging`] does over a record what it does on a disk.
pub proof fn faithful_ranging(
    place_in: Place,
    place_out: Place,
    offset_in: u64,
    offset_out: u64,
    len: u64,
)
    ensures
        super::faithful(|w: World| OverlayOps::ranging(place_in, place_out, offset_in, offset_out, len, w)),
{
    let h = |w: World| OverlayOps::ranging(place_in, place_out, offset_in, offset_out, len, w);
    let f = |w: World| LayerManager::resolving(place_in, Which::First, w);
    let g = |at: Option<Layer>, w: World|
        match at {
            None => Flow::Fail(ENOENT, w),
            Some(layer) => LayerManager::promoting(place_out, Which::Second, w).bind(
                |u: (), w: World|
                    Action::OpenRead(Spot::entry(layer, Which::First)).run(w).bind(
                        |u: (), w: World|
                            Action::OpenWrite(Spot::upper(Which::Second)).run(w).bind(
                                |u: (), w: World|
                                    Action::CopyRange(offset_in, offset_out, len).count(
                                        w,
                                    ).bind(|n: i64, w: World| Flow::Got(n as u32, w)),
                            ),
                    ),
            ),
        };
    super::layers::faithful_resolving(place_in, Which::First);
    assert forall|at: Option<Layer>| super::faithful(#[trigger] super::going_on(g, at)) by {
        match at {
            None => {
                super::faithful_fail::<u32>(ENOENT);
                assert(super::going_on(g, at) =~= |w: World| Flow::Fail(ENOENT, w));
            },
            Some(layer) => {
                let f2 = |w: World| LayerManager::promoting(place_out, Which::Second, w);
                let g2 = |u: (), w: World|
                    Action::OpenRead(Spot::entry(layer, Which::First)).run(w).bind(
                        |u: (), w: World|
                            Action::OpenWrite(Spot::upper(Which::Second)).run(w).bind(
                                |u: (), w: World|
                                    Action::CopyRange(offset_in, offset_out, len).count(
                                        w,
                                    ).bind(|n: i64, w: World| Flow::Got(n as u32, w)),
                            ),
                    );
                super::layers::faithful_promoting(place_out, Which::Second);
                assert forall|u: ()| super::faithful(#[trigger] super::going_on(g2, u)) by {
                    let f3 = |w: World| Action::OpenRead(Spot::entry(layer, Which::First)).run(w);
                    let g3 = |u: (), w: World|
                        Action::OpenWrite(Spot::upper(Which::Second)).run(w).bind(
                            |u: (), w: World|
                                Action::CopyRange(offset_in, offset_out, len).count(
                                    w,
                                ).bind(|n: i64, w: World| Flow::Got(n as u32, w)),
                        );
                    super::faithful_run(Action::OpenRead(Spot::entry(layer, Which::First)));
                    assert forall|u: ()| super::faithful(#[trigger] super::going_on(g3, u)) by {
                        let f4 = |w: World| Action::OpenWrite(Spot::upper(Which::Second)).run(w);
                        let g4 = |u: (), w: World|
                            Action::CopyRange(offset_in, offset_out, len).count(
                                w,
                            ).bind(|n: i64, w: World| Flow::Got(n as u32, w));
                        super::faithful_run(Action::OpenWrite(Spot::upper(Which::Second)));
                        assert forall|u: ()| super::faithful(#[trigger] super::going_on(g4, u)) by {
                            let f5 = |w: World| Action::CopyRange(offset_in, offset_out, len).count(
                                w,
                            );
                            let g5 = |n: i64, w: World| Flow::Got(n as u32, w);
                            super::faithful_count(Action::CopyRange(offset_in, offset_out, len));
                            assert forall|n: i64| super::faithful(
                                #[trigger] super::going_on(g5, n),
                            ) by {
                                super::faithful_got(n as u32);
                                assert(super::going_on(g5, n) =~= |w: World|
                                    Flow::Got(n as u32, w));
                            }
                            super::faithful_bind(f5, g5, super::going_on(g4, u));
                        }
                        super::faithful_bind(f4, g4, super::going_on(g3, u));
                    }
                    super::faithful_bind(f3, g3, super::going_on(g2, u));
                }
                super::faithful_bind(f2, g2, super::going_on(g, at));
            },
        }
    }
    super::faithful_bind(f, g, h);
}

/// [`OverlayOps::testing`] does over a record what it does on a disk.
pub proof fn faithful_testing(place: Place, uid: u32, mask: i32)
    ensures
        super::faithful(|w: World| OverlayOps::testing(place, uid, mask, w)),
{
    let h = |w: World| OverlayOps::testing(place, uid, mask, w);
    let f = |w: World| LayerManager::resolving(place, Which::First, w);
    let g = |at: Option<Layer>, w: World|
        match at {
            None => Flow::Fail(ENOENT, w),
            Some(layer) => if mask == 0 || uid != 0 || mask & X_OK == 0 {
                Flow::Got((), w)
            } else {
                Action::Lstat(Spot::entry(layer, Which::First)).probe(w).bind(
                    |m: Option<Meta>, w: World|
                        match m {
                            None => Flow::Fail(ENOENT, w),
                            Some(meta) => if !(meta.kind is Directory) && meta.mode & 0o111
                                == 0 {
                                Flow::Fail(EACCES, w)
                            } else {
                                Flow::Got((), w)
                            },
                        },
                )
            },
        };
    super::layers::faithful_resolving(place, Which::First);
    assert forall|at: Option<Layer>| super::faithful(#[trigger] super::going_on(g, at)) by {
        match at {
            None => {
                super::faithful_fail::<()>(ENOENT);
                assert(super::going_on(g, at) =~= |w: World| Flow::Fail(ENOENT, w));
            },
            Some(layer) => {
                if mask == 0 || uid != 0 || mask & X_OK == 0 {
                    super::faithful_got(());
                    assert(super::going_on(g, at) =~= |w: World| Flow::Got((), w));
                } else {
                    let f2 = |w: World| Action::Lstat(Spot::entry(layer, Which::First)).probe(w);
                    let g2 = |m: Option<Meta>, w: World|
                        match m {
                            None => Flow::Fail(ENOENT, w),
                            Some(meta) => if !(meta.kind is Directory) && meta.mode & 0o111
                                == 0 {
                                Flow::Fail(EACCES, w)
                            } else {
                                Flow::Got((), w)
                            },
                        };
                    super::faithful_probe(Action::Lstat(Spot::entry(layer, Which::First)));
                    assert forall|m: Option<Meta>| super::faithful(
                        #[trigger] super::going_on(g2, m),
                    ) by {
                        match m {
                            None => {
                                super::faithful_fail::<()>(ENOENT);
                                assert(super::going_on(g2, m) =~= |w: World| Flow::Fail(ENOENT, w));
                            },
                            Some(meta) => {
                                if !(meta.kind is Directory) && meta.mode & 0o111
                                        == 0 {
                                    super::faithful_fail::<()>(EACCES);
                                    assert(super::going_on(g2, m) =~= |w: World|
                                        Flow::Fail(EACCES, w));
                                } else {
                                    super::faithful_got(());
                                    assert(super::going_on(g2, m) =~= |w: World| Flow::Got((), w));
                                }
                            },
                        }
                    }
                    super::faithful_bind(f2, g2, super::going_on(g, at));
                }
            },
        }
    }
    super::faithful_bind(f, g, h);
}

/// [`OverlayOps::sizing`] does over a record what it does on a disk.
pub proof fn faithful_sizing(layer: Layer)
    ensures
        super::faithful(|w: World| OverlayOps::sizing(layer, w)),
{
    let h = |w: World| OverlayOps::sizing(layer, w);
    let f = |w: World| Action::Space(layer).ask(w);
    let g = |r: Answer, w: World|
        match r {
            Answer::Space(s) => Flow::Got(Some(s), w),
            _ => Flow::Got(None, w),
        };
    super::faithful_ask(Action::Space(layer));
    assert forall|r: Answer| super::faithful(#[trigger] super::going_on(g, r)) by {
        match r {
            Answer::Space(s) => {
                super::faithful_got(Some(s));
                assert(super::going_on(g, r) =~= |w: World| Flow::Got(Some(s), w));
            },
            _ => {
                super::faithful_got::<Option<Space>>(None);
                assert(super::going_on(g, r) =~= |w: World| Flow::Got(None, w));
            },
        }
    }
    super::faithful_bind(f, g, h);
}

/// [`OverlayOps::measuring`] does over a record what it does on a disk.
pub proof fn faithful_measuring()
    ensures
        super::faithful(|w: World| OverlayOps::measuring(w)),
{
    let h = |w: World| OverlayOps::measuring(w);
    let f = |w: World| OverlayOps::sizing(Layer::Lower, w);
    let g = |lower: Option<Space>, w: World|
        match lower {
            None => Flow::Got(OverlayOps::no_stat(), w),
            Some(l) => OverlayOps::sizing(Layer::Upper, w).bind(
                |upper: Option<Space>, w: World|
                    match upper {
                        None => Flow::Got(OverlayOps::no_stat(), w),
                        Some(u) => Flow::Got(OverlayOps::both_stat(l, u), w),
                    },
            ),
        };
    faithful_sizing(Layer::Lower);
    assert forall|lower: Option<Space>| super::faithful(#[trigger] super::going_on(g, lower)) by {
        match lower {
            None => {
                super::faithful_got(OverlayOps::no_stat());
                assert(super::going_on(g, lower) =~= |w: World|
                    Flow::Got(OverlayOps::no_stat(), w));
            },
            Some(l) => {
                let f2 = |w: World| OverlayOps::sizing(Layer::Upper, w);
                let g2 = |upper: Option<Space>, w: World|
                    match upper {
                        None => Flow::Got(OverlayOps::no_stat(), w),
                        Some(u) => Flow::Got(OverlayOps::both_stat(l, u), w),
                    };
                faithful_sizing(Layer::Upper);
                assert forall|upper: Option<Space>| super::faithful(
                    #[trigger] super::going_on(g2, upper),
                ) by {
                    match upper {
                        None => {
                            super::faithful_got(OverlayOps::no_stat());
                            assert(super::going_on(g2, upper) =~= |w: World|
                                Flow::Got(OverlayOps::no_stat(), w));
                        },
                        Some(u) => {
                            super::faithful_got(OverlayOps::both_stat(l, u));
                            assert(super::going_on(g2, upper) =~= |w: World|
                                Flow::Got(OverlayOps::both_stat(l, u), w));
                        },
                    }
                }
                super::faithful_bind(f2, g2, super::going_on(g, lower));
            },
        }
    }
    super::faithful_bind(f, g, h);
}

} // verus!
