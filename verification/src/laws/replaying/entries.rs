//! Entries over a record.

use crate::attr::FileAttr;
use crate::errno::{EEXIST, EINVAL, EISDIR, ENOENT, ENOTSUP};
use crate::fuse_ops::{OverlayOps, SetAttr};
use crate::layers::{LayerManager, Place};
use crate::protocol::{Action, Flow, Layer, Mark, Meta, Spot, TimeSet, Which, World};
use vstd::prelude::*;

verus! {

/// [`OverlayOps::inspecting`] does over a record what it does on a disk.
pub proof fn faithful_inspecting(place: Place)
    ensures
        super::faithful(|w: World| OverlayOps::inspecting(place, w)),
{
    let h = |w: World| OverlayOps::inspecting(place, w);
    let f = |w: World| LayerManager::resolving(place, Which::First, w);
    let g = |at: Option<Layer>, w: World|
        match at {
            None => Flow::Fail(ENOENT, w),
            Some(layer) => Action::Lstat(Spot::entry(layer, Which::First)).probe(w).bind(
                |m: Option<Meta>, w: World|
                    match m {
                        Some(meta) => Flow::Got(meta, w),
                        None => Flow::Fail(ENOENT, w),
                    },
            ),
        };
    super::layers::faithful_resolving(place, Which::First);
    assert forall|at: Option<Layer>| super::faithful(#[trigger] super::going_on(g, at)) by {
        match at {
            None => {
                super::faithful_fail::<Meta>(ENOENT);
                assert(super::going_on(g, at) =~= |w: World| Flow::Fail(ENOENT, w));
            },
            Some(layer) => {
                let f2 = |w: World| Action::Lstat(Spot::entry(layer, Which::First)).probe(w);
                let g2 = |m: Option<Meta>, w: World|
                    match m {
                        Some(meta) => Flow::Got(meta, w),
                        None => Flow::Fail(ENOENT, w),
                    };
                super::faithful_probe(Action::Lstat(Spot::entry(layer, Which::First)));
                assert forall|m: Option<Meta>| super::faithful(
                    #[trigger] super::going_on(g2, m),
                ) by {
                    match m {
                        Some(meta) => {
                            super::faithful_got(meta);
                            assert(super::going_on(g2, m) =~= |w: World| Flow::Got(meta, w));
                        },
                        None => {
                            super::faithful_fail::<Meta>(ENOENT);
                            assert(super::going_on(g2, m) =~= |w: World| Flow::Fail(ENOENT, w));
                        },
                    }
                }
                super::faithful_bind(f2, g2, super::going_on(g, at));
            },
        }
    }
    super::faithful_bind(f, g, h);
}

/// [`OverlayOps::setting_size`] does over a record what it does on a disk.
pub proof fn faithful_setting_size(size: Option<u64>, is_link: bool)
    ensures
        super::faithful(|w: World| OverlayOps::setting_size(size, is_link, w)),
{
    let h = |w: World| OverlayOps::setting_size(size, is_link, w);
    match size {
        Some(n) => {
            if is_link {
                super::faithful_fail::<()>(EINVAL);
                assert(h =~= |w: World| Flow::Fail(EINVAL, w));
            } else {
                super::faithful_run(Action::SetLen(Spot::upper(Which::First), n));
                assert(h =~= |w: World| Action::SetLen(Spot::upper(Which::First), n).run(w));
            }
        },
        None => {
            super::faithful_got(());
            assert(h =~= |w: World| Flow::Got((), w));
        },
    }
}

/// [`OverlayOps::setting_mode`] does over a record what it does on a disk.
pub proof fn faithful_setting_mode(mode: Option<u32>, is_link: bool)
    ensures
        super::faithful(|w: World| OverlayOps::setting_mode(mode, is_link, w)),
{
    let h = |w: World| OverlayOps::setting_mode(mode, is_link, w);
    match mode {
        Some(m) if !is_link => {
            super::faithful_run(Action::SetMode(Spot::upper(Which::First), m));
            assert(h =~= |w: World| Action::SetMode(Spot::upper(Which::First), m).run(w));
        },
        _ => {
            super::faithful_got(());
            assert(h =~= |w: World| Flow::Got((), w));
        },
    }
}

/// [`OverlayOps::setting_owner`] does over a record what it does on a disk.
pub proof fn faithful_setting_owner(uid: Option<u32>, gid: Option<u32>)
    ensures
        super::faithful(|w: World| OverlayOps::setting_owner(uid, gid, w)),
{
    let h = |w: World| OverlayOps::setting_owner(uid, gid, w);
    if uid is Some || gid is Some {
        let x = Action::SetOwner(
            Spot::upper(Which::First),
            match uid {
                Some(u) => u,
                None => u32::MAX,
            },
            match gid {
                Some(g) => g,
                None => u32::MAX,
            },
        );
        super::faithful_run(x);
        assert(h =~= |w: World| x.run(w));
    } else {
        super::faithful_got(());
        assert(h =~= |w: World| Flow::Got((), w));
    }
}

/// [`OverlayOps::setting_times`] does over a record what it does on a disk.
pub proof fn faithful_setting_times(atime: Option<TimeSet>, mtime: Option<TimeSet>)
    ensures
        super::faithful(|w: World| OverlayOps::setting_times(atime, mtime, w)),
{
    let h = |w: World| OverlayOps::setting_times(atime, mtime, w);
    if atime is Some || mtime is Some {
        super::faithful_run(Action::SetTimes(
        Spot::upper(Which::First),
        OverlayOps::time_to_set(atime),
        OverlayOps::time_to_set(mtime)));
        assert(h =~= |w: World| Action::SetTimes(
            Spot::upper(Which::First),
            OverlayOps::time_to_set(atime),
            OverlayOps::time_to_set(mtime),
        ).run(w));
    } else {
        super::faithful_got(());
        assert(h =~= |w: World| Flow::Got((), w));
    }
}

/// [`OverlayOps::altering`] does over a record what it does on a disk.
pub proof fn faithful_altering(place: Place, set: SetAttr)
    ensures
        super::faithful(|w: World| OverlayOps::altering(place, set, w)),
{
    let h = |w: World| OverlayOps::altering(place, set, w);
    let f = |w: World| LayerManager::promoting(place, Which::First, w);
    let g = |u: (), w: World|
        Action::Lstat(Spot::upper(Which::First)).probe(w).bind(
            |m: Option<Meta>, w: World|
                {
                    let is_link = m matches Some(meta) && meta.kind is Symlink;
                    OverlayOps::setting_size(set.size, is_link, w).bind(
                        |u: (), w: World|
                            OverlayOps::setting_mode(set.mode, is_link, w).bind(
                                |u: (), w: World|
                                    OverlayOps::setting_owner(set.uid, set.gid, w).bind(
                                        |u: (), w: World|
                                            OverlayOps::setting_times(set.atime, set.mtime, w),
                                    ),
                            ),
                    )
                },
        );
    super::layers::faithful_promoting(place, Which::First);
    assert forall|u: ()| super::faithful(#[trigger] super::going_on(g, u)) by {
        let f2 = |w: World| Action::Lstat(Spot::upper(Which::First)).probe(w);
        let g2 = |m: Option<Meta>, w: World|
            {
                let is_link = m matches Some(meta) && meta.kind is Symlink;
                OverlayOps::setting_size(set.size, is_link, w).bind(
                                            |u: (), w: World|
                                                OverlayOps::setting_mode(set.mode, is_link, w).bind(
                                                    |u: (), w: World|
                                                        OverlayOps::setting_owner(set.uid, set.gid, w).bind(
                                                            |u: (), w: World|
                                                                OverlayOps::setting_times(set.atime, set.mtime, w),
                                                        ),
                                                ),
                                        )
            };
        super::faithful_probe(Action::Lstat(Spot::upper(Which::First)));
        assert forall|m: Option<Meta>| super::faithful(#[trigger] super::going_on(g2, m)) by {
            let is_link = m matches Some(meta) && meta.kind is Symlink;
            let f3 = |w: World| OverlayOps::setting_size(set.size, is_link, w);
            let g3 = |u: (), w: World|
                OverlayOps::setting_mode(set.mode, is_link, w).bind(
                    |u: (), w: World|
                        OverlayOps::setting_owner(set.uid, set.gid, w).bind(
                            |u: (), w: World|
                                OverlayOps::setting_times(set.atime, set.mtime, w),
                        ),
                );
            faithful_setting_size(set.size, is_link);
            assert forall|u: ()| super::faithful(#[trigger] super::going_on(g3, u)) by {
                let f4 = |w: World| OverlayOps::setting_mode(set.mode, is_link, w);
                let g4 = |u: (), w: World|
                    OverlayOps::setting_owner(set.uid, set.gid, w).bind(
                        |u: (), w: World|
                            OverlayOps::setting_times(set.atime, set.mtime, w),
                    );
                faithful_setting_mode(set.mode, is_link);
                assert forall|u: ()| super::faithful(#[trigger] super::going_on(g4, u)) by {
                    let f5 = |w: World| OverlayOps::setting_owner(set.uid, set.gid, w);
                    let g5 = |u: (), w: World| OverlayOps::setting_times(set.atime, set.mtime, w);
                    faithful_setting_owner(set.uid, set.gid);
                    assert forall|u: ()| super::faithful(#[trigger] super::going_on(g5, u)) by {
                        faithful_setting_times(set.atime, set.mtime);
                        assert(super::going_on(g5, u) =~= |w: World|
                            OverlayOps::setting_times(set.atime, set.mtime, w));
                    }
                    super::faithful_bind(f5, g5, super::going_on(g4, u));
                }
                super::faithful_bind(f4, g4, super::going_on(g3, u));
            }
            super::faithful_bind(f3, g3, super::going_on(g2, m));
        }
        super::faithful_bind(f2, g2, super::going_on(g, u));
    }
    super::faithful_bind(f, g, h);
}

/// [`OverlayOps::reading_link`] does over a record what it does on a disk.
pub proof fn faithful_reading_link(place: Place)
    ensures
        super::faithful(|w: World| OverlayOps::reading_link(place, w)),
{
    let h = |w: World| OverlayOps::reading_link(place, w);
    let f = |w: World| LayerManager::resolving(place, Which::First, w);
    let g = |at: Option<Layer>, w: World|
        match at {
            None => Flow::Fail(ENOENT, w),
            Some(layer) => Action::ReadLink(Spot::entry(layer, Which::First)).data(w),
        };
    super::layers::faithful_resolving(place, Which::First);
    assert forall|at: Option<Layer>| super::faithful(#[trigger] super::going_on(g, at)) by {
        match at {
            None => {
                super::faithful_fail::<Seq<u8>>(ENOENT);
                assert(super::going_on(g, at) =~= |w: World| Flow::Fail(ENOENT, w));
            },
            Some(layer) => {
                super::faithful_data(Action::ReadLink(Spot::entry(layer, Which::First)));
                assert(super::going_on(g, at) =~= |w: World|
                    Action::ReadLink(Spot::entry(layer, Which::First)).data(w));
            },
        }
    }
    super::faithful_bind(f, g, h);
}

/// [`OverlayOps::making`] does over a record what it does on a disk.
pub proof fn faithful_making(place: Place, make: Action, mode: Option<u32>)
    ensures
        super::faithful(|w: World| OverlayOps::making(place, make, mode, w)),
{
    let h = |w: World| OverlayOps::making(place, make, mode, w);
    let f = |w: World| Action::MakeParents(Spot::upper(Which::First)).run(w);
    let g = |u: (), w: World|
        make.run(w).bind(
            |u: (), w: World|
                OverlayOps::set_new_mode(mode, w).bind(
                    |u: (), w: World| LayerManager::clearing(place.named, Which::First, w),
                ),
        );
    super::faithful_run(Action::MakeParents(Spot::upper(Which::First)));
    assert forall|u: ()| super::faithful(#[trigger] super::going_on(g, u)) by {
        let f2 = |w: World| make.run(w);
        let g2 = |u: (), w: World|
            OverlayOps::set_new_mode(mode, w).bind(
                |u: (), w: World| LayerManager::clearing(place.named, Which::First, w),
            );
        super::faithful_run(make);
        assert forall|u: ()| super::faithful(#[trigger] super::going_on(g2, u)) by {
            let f3 = |w: World| OverlayOps::set_new_mode(mode, w);
            let g3 = |u: (), w: World| LayerManager::clearing(place.named, Which::First, w);
            faithful_set_new_mode(mode);
            assert forall|u: ()| super::faithful(#[trigger] super::going_on(g3, u)) by {
                super::layers::faithful_clearing(place.named, Which::First);
                assert(super::going_on(g3, u) =~= |w: World|
                    LayerManager::clearing(place.named, Which::First, w));
            }
            super::faithful_bind(f3, g3, super::going_on(g2, u));
        }
        super::faithful_bind(f2, g2, super::going_on(g, u));
    }
    super::faithful_bind(f, g, h);
}

/// [`OverlayOps::set_new_mode`] does over a record what it does on a disk.
pub proof fn faithful_set_new_mode(mode: Option<u32>)
    ensures
        super::faithful(|w: World| OverlayOps::set_new_mode(mode, w)),
{
    let h = |w: World| OverlayOps::set_new_mode(mode, w);
    match mode {
        Some(m) => {
            super::faithful_attempt(Action::SetMode(Spot::upper(Which::First), m));
            assert(h =~= |w: World| Action::SetMode(Spot::upper(Which::First), m).attempt(w));
        },
        None => {
            super::faithful_got(());
            assert(h =~= |w: World| Flow::Got((), w));
        },
    }
}

/// [`OverlayOps::making_node`] does over a record what it does on a disk.
pub proof fn faithful_making_node(place: Place, mode: u32, rdev: u32)
    ensures
        super::faithful(|w: World| OverlayOps::making_node(place, mode, rdev, w)),
{
    let h = |w: World| OverlayOps::making_node(place, mode, rdev, w);
    let f = |w: World| OverlayOps::making(
        place,
        Action::MakeNode(Spot::upper(Which::First), mode, rdev),
        None,
        w,
    );
    let g = |u: (), w: World| Action::Lstat(Spot::upper(Which::First)).meta(w);
    faithful_making(place, Action::MakeNode(Spot::upper(Which::First), mode, rdev), None);
    assert forall|u: ()| super::faithful(#[trigger] super::going_on(g, u)) by {
        super::faithful_meta(Action::Lstat(Spot::upper(Which::First)));
        assert(super::going_on(g, u) =~= |w: World|
            Action::Lstat(Spot::upper(Which::First)).meta(w));
    }
    super::faithful_bind(f, g, h);
}

/// [`OverlayOps::sealing`] does over a record what it does on a disk.
pub proof fn faithful_sealing()
    ensures
        super::faithful(|w: World| OverlayOps::sealing(w)),
{
    let h = |w: World| OverlayOps::sealing(w);
    let up = Spot::upper(Which::First);
    let f = |w: World| Action::Lstat(Spot::lower(Which::First)).probe(w);
    let g = |m: Option<Meta>, w: World|
        if m matches Some(meta) && meta.kind is Directory {
            Action::SetMark(up, Mark::Trusted).attempt(w).bind(
                |u: (), w: World| Action::SetMark(up, Mark::User).attempt(w),
            )
        } else {
            Flow::Got((), w)
        };
    super::faithful_probe(Action::Lstat(Spot::lower(Which::First)));
    assert forall|m: Option<Meta>| super::faithful(#[trigger] super::going_on(g, m)) by {
        if m matches Some(meta) && meta.kind is Directory {
            let f2 = |w: World| Action::SetMark(up, Mark::Trusted).attempt(w);
            let g2 = |u: (), w: World| Action::SetMark(up, Mark::User).attempt(w);
            super::faithful_attempt(Action::SetMark(up, Mark::Trusted));
            assert forall|u: ()| super::faithful(#[trigger] super::going_on(g2, u)) by {
                super::faithful_attempt(Action::SetMark(up, Mark::User));
                assert(super::going_on(g2, u) =~= |w: World|
                    Action::SetMark(up, Mark::User).attempt(w));
            }
            super::faithful_bind(f2, g2, super::going_on(g, m));
        } else {
            super::faithful_got(());
            assert(super::going_on(g, m) =~= |w: World| Flow::Got((), w));
        }
    }
    super::faithful_bind(f, g, h);
}

/// [`OverlayOps::founding`] does over a record what it does on a disk.
pub proof fn faithful_founding(mode: u32)
    ensures
        super::faithful(|w: World| OverlayOps::founding(mode, w)),
{
    let h = |w: World| OverlayOps::founding(mode, w);
    let up = Spot::upper(Which::First);
    let f = |w: World| Action::MakeParents(up).run(w);
    let g = |u: (), w: World|
        Action::MakeDir(up).run(w).bind(
            |u: (), w: World| Action::SetMode(up, mode).attempt(w),
        );
    super::faithful_run(Action::MakeParents(up));
    assert forall|u: ()| super::faithful(#[trigger] super::going_on(g, u)) by {
        let f2 = |w: World| Action::MakeDir(up).run(w);
        let g2 = |u: (), w: World| Action::SetMode(up, mode).attempt(w);
        super::faithful_run(Action::MakeDir(up));
        assert forall|u: ()| super::faithful(#[trigger] super::going_on(g2, u)) by {
            super::faithful_attempt(Action::SetMode(up, mode));
            assert(super::going_on(g2, u) =~= |w: World| Action::SetMode(up, mode).attempt(w));
        }
        super::faithful_bind(f2, g2, super::going_on(g, u));
    }
    super::faithful_bind(f, g, h);
}

/// [`OverlayOps::making_dir`] does over a record what it does on a disk.
pub proof fn faithful_making_dir(place: Place, mode: u32)
    ensures
        super::faithful(|w: World| OverlayOps::making_dir(place, mode, w)),
{
    let h = |w: World| OverlayOps::making_dir(place, mode, w);
    let f = |w: World| OverlayOps::refusing_dir(place, EEXIST, w);
    let g = |u: (), w: World|
        OverlayOps::founding(mode, w).bind(
            |u: (), w: World|
                LayerManager::unhiding(place.named, Which::First, w).bind(
                    |u: (), w: World|
                        OverlayOps::sealing(w).bind(
                            |u: (), w: World|
                                Action::Stat(Spot::upper(Which::First)).meta(w),
                        ),
                ),
        );
    faithful_refusing_dir(place, EEXIST);
    assert forall|u: ()| super::faithful(#[trigger] super::going_on(g, u)) by {
        let f2 = |w: World| OverlayOps::founding(mode, w);
        let g2 = |u: (), w: World|
            LayerManager::unhiding(place.named, Which::First, w).bind(
                |u: (), w: World|
                    OverlayOps::sealing(w).bind(
                        |u: (), w: World|
                            Action::Stat(Spot::upper(Which::First)).meta(w),
                    ),
            );
        faithful_founding(mode);
        assert forall|u: ()| super::faithful(#[trigger] super::going_on(g2, u)) by {
            let f3 = |w: World| LayerManager::unhiding(place.named, Which::First, w);
            let g3 = |u: (), w: World|
                OverlayOps::sealing(w).bind(
                    |u: (), w: World|
                        Action::Stat(Spot::upper(Which::First)).meta(w),
                );
            super::layers::faithful_unhiding(place.named, Which::First);
            assert forall|u: ()| super::faithful(#[trigger] super::going_on(g3, u)) by {
                let f4 = |w: World| OverlayOps::sealing(w);
                let g4 = |u: (), w: World| Action::Stat(Spot::upper(Which::First)).meta(w);
                faithful_sealing();
                assert forall|u: ()| super::faithful(#[trigger] super::going_on(g4, u)) by {
                    super::faithful_meta(Action::Stat(Spot::upper(Which::First)));
                    assert(super::going_on(g4, u) =~= |w: World|
                        Action::Stat(Spot::upper(Which::First)).meta(w));
                }
                super::faithful_bind(f4, g4, super::going_on(g3, u));
            }
            super::faithful_bind(f3, g3, super::going_on(g2, u));
        }
        super::faithful_bind(f2, g2, super::going_on(g, u));
    }
    super::faithful_bind(f, g, h);
}

/// [`OverlayOps::making_link`] does over a record what it does on a disk.
pub proof fn faithful_making_link(place: Place)
    ensures
        super::faithful(|w: World| OverlayOps::making_link(place, w)),
{
    let h = |w: World| OverlayOps::making_link(place, w);
    let f = |w: World|
        OverlayOps::making(place, Action::MakeLink(Spot::upper(Which::First)), None, w);
    let g = |u: (), w: World| Action::Lstat(Spot::upper(Which::First)).meta(w);
    faithful_making(place, Action::MakeLink(Spot::upper(Which::First)), None);
    assert forall|u: ()| super::faithful(#[trigger] super::going_on(g, u)) by {
        super::faithful_meta(Action::Lstat(Spot::upper(Which::First)));
        assert(super::going_on(g, u) =~= |w: World|
            Action::Lstat(Spot::upper(Which::First)).meta(w));
    }
    super::faithful_bind(f, g, h);
}

/// [`OverlayOps::making_file`] does over a record what it does on a disk.
pub proof fn faithful_making_file(place: Place, mode: u32)
    ensures
        super::faithful(|w: World| OverlayOps::making_file(place, mode, w)),
{
    let h = |w: World| OverlayOps::making_file(place, mode, w);
    let f = |w: World|
        OverlayOps::making(place, Action::CreateFile(Spot::upper(Which::First)), Some(mode), w);
    let g = |u: (), w: World| Action::Stat(Spot::upper(Which::First)).meta(w);
    faithful_making(place, Action::CreateFile(Spot::upper(Which::First)), Some(mode));
    assert forall|u: ()| super::faithful(#[trigger] super::going_on(g, u)) by {
        super::faithful_meta(Action::Stat(Spot::upper(Which::First)));
        assert(super::going_on(g, u) =~= |w: World|
            Action::Stat(Spot::upper(Which::First)).meta(w));
    }
    super::faithful_bind(f, g, h);
}

/// [`OverlayOps::refusing_dir`] does over a record what it does on a disk.
pub proof fn faithful_refusing_dir(place: Place, code: i32)
    ensures
        super::faithful(|w: World| OverlayOps::refusing_dir(place, code, w)),
{
    let h = |w: World| OverlayOps::refusing_dir(place, code, w);
    let f = |w: World| LayerManager::resolving(place, Which::First, w);
    let g = |at: Option<Layer>, w: World|
        match at {
            None => Flow::Got((), w),
            Some(layer) => Action::Lstat(Spot::entry(layer, Which::First)).probe(w).bind(
                |m: Option<Meta>, w: World|
                    if m matches Some(meta) && meta.kind is Directory {
                        Flow::Fail(code, w)
                    } else {
                        Flow::Got((), w)
                    },
            ),
        };
    super::layers::faithful_resolving(place, Which::First);
    assert forall|at: Option<Layer>| super::faithful(#[trigger] super::going_on(g, at)) by {
        match at {
            None => {
                super::faithful_got(());
                assert(super::going_on(g, at) =~= |w: World| Flow::Got((), w));
            },
            Some(layer) => {
                let f2 = |w: World| Action::Lstat(Spot::entry(layer, Which::First)).probe(w);
                let g2 = |m: Option<Meta>, w: World|
                    if m matches Some(meta) && meta.kind is Directory {
                        Flow::Fail(code, w)
                    } else {
                        Flow::Got((), w)
                    };
                super::faithful_probe(Action::Lstat(Spot::entry(layer, Which::First)));
                assert forall|m: Option<Meta>| super::faithful(
                    #[trigger] super::going_on(g2, m),
                ) by {
                    if m matches Some(meta) && meta.kind is Directory {
                        super::faithful_fail::<()>(code);
                        assert(super::going_on(g2, m) =~= |w: World| Flow::Fail(code, w));
                    } else {
                        super::faithful_got(());
                        assert(super::going_on(g2, m) =~= |w: World| Flow::Got((), w));
                    }
                }
                super::faithful_bind(f2, g2, super::going_on(g, at));
            },
        }
    }
    super::faithful_bind(f, g, h);
}

/// [`OverlayOps::dropping`] does over a record what it does on a disk.
pub proof fn faithful_dropping(remove: Action)
    ensures
        super::faithful(|w: World| OverlayOps::dropping(remove, w)),
{
    let h = |w: World| OverlayOps::dropping(remove, w);
    let f = |w: World| Action::Lstat(Spot::upper(Which::First)).probe(w);
    let g = |m: Option<Meta>, w: World|
        if m is Some {
            remove.run(w)
        } else {
            Flow::Got((), w)
        };
    super::faithful_probe(Action::Lstat(Spot::upper(Which::First)));
    assert forall|m: Option<Meta>| super::faithful(#[trigger] super::going_on(g, m)) by {
        if m is Some {
            super::faithful_run(remove);
            assert(super::going_on(g, m) =~= |w: World| remove.run(w));
        } else {
            super::faithful_got(());
            assert(super::going_on(g, m) =~= |w: World| Flow::Got((), w));
        }
    }
    super::faithful_bind(f, g, h);
}

/// [`OverlayOps::covering`] does over a record what it does on a disk.
pub proof fn faithful_covering(place: Place)
    ensures
        super::faithful(|w: World| OverlayOps::covering(place, w)),
{
    let h = |w: World| OverlayOps::covering(place, w);
    let f = |w: World| Action::Lstat(Spot::lower(Which::First)).probe(w);
    let g = |m: Option<Meta>, w: World|
        if m is Some {
            LayerManager::whiting_out(place.named, Which::First, w)
        } else {
            Flow::Got((), w)
        };
    super::faithful_probe(Action::Lstat(Spot::lower(Which::First)));
    assert forall|m: Option<Meta>| super::faithful(#[trigger] super::going_on(g, m)) by {
        if m is Some {
            super::layers::faithful_whiting_out(place.named, Which::First);
            assert(super::going_on(g, m) =~= |w: World|
                LayerManager::whiting_out(place.named, Which::First, w));
        } else {
            super::faithful_got(());
            assert(super::going_on(g, m) =~= |w: World| Flow::Got((), w));
        }
    }
    super::faithful_bind(f, g, h);
}

/// [`OverlayOps::unlinking`] does over a record what it does on a disk.
pub proof fn faithful_unlinking(place: Place)
    ensures
        super::faithful(|w: World| OverlayOps::unlinking(place, w)),
{
    let h = |w: World| OverlayOps::unlinking(place, w);
    let f = |w: World| OverlayOps::refusing_dir(place, EISDIR, w);
    let g = |u: (), w: World|
        OverlayOps::dropping(Action::RemoveFile(Spot::upper(Which::First)), w).bind(
            |u: (), w: World| OverlayOps::covering(place, w),
        );
    faithful_refusing_dir(place, EISDIR);
    assert forall|u: ()| super::faithful(#[trigger] super::going_on(g, u)) by {
        let f2 = |w: World| OverlayOps::dropping(Action::RemoveFile(Spot::upper(Which::First)), w);
        let g2 = |u: (), w: World| OverlayOps::covering(place, w);
        faithful_dropping(Action::RemoveFile(Spot::upper(Which::First)));
        assert forall|u: ()| super::faithful(#[trigger] super::going_on(g2, u)) by {
            faithful_covering(place);
            assert(super::going_on(g2, u) =~= |w: World| OverlayOps::covering(place, w));
        }
        super::faithful_bind(f2, g2, super::going_on(g, u));
    }
    super::faithful_bind(f, g, h);
}

/// [`OverlayOps::refusing_taken`] does over a record what it does on a disk.
pub proof fn faithful_refusing_taken(flags: u32, place: Place)
    ensures
        super::faithful(|w: World| OverlayOps::refusing_taken(flags, place, w)),
{
    let h = |w: World| OverlayOps::refusing_taken(flags, place, w);
    if flags & crate::fuse_ops::RENAME_NOREPLACE != 0 {
        let f = |w: World| LayerManager::resolving(place, Which::Second, w);
        let g = |at: Option<Layer>, w: World|
            if at is Some {
                Flow::Fail(EEXIST, w)
            } else {
                Flow::Got((), w)
            };
        super::layers::faithful_resolving(place, Which::Second);
        assert forall|at: Option<Layer>| super::faithful(#[trigger] super::going_on(g, at)) by {
            if at is Some {
                super::faithful_fail::<()>(EEXIST);
                assert(super::going_on(g, at) =~= |w: World| Flow::Fail(EEXIST, w));
            } else {
                super::faithful_got(());
                assert(super::going_on(g, at) =~= |w: World| Flow::Got((), w));
            }
        }
        super::faithful_bind(f, g, h);
    } else {
        super::faithful_got(());
        assert(h =~= |w: World| Flow::Got((), w));
    }
}

/// [`OverlayOps::fetching`] does over a record what it does on a disk.
pub proof fn faithful_fetching(place: Place)
    ensures
        super::faithful(|w: World| OverlayOps::fetching(place, w)),
{
    let h = |w: World| OverlayOps::fetching(place, w);
    let up = Spot::upper(Which::First);
    let low = Spot::lower(Which::First);
    let f = |w: World| LayerManager::resolving(place, Which::First, w);
    let g = |at: Option<Layer>, w: World|
        match at {
            None => Flow::Fail(ENOENT, w),
            Some(Layer::Upper) => OverlayOps::completing(place, w),
            Some(Layer::Lower) => Action::Lstat(low).probe(w).bind(
                |m: Option<Meta>, w: World|
                    if m matches Some(meta) && meta.kind is Directory {
                        Action::CopyTree(low, up).run(w)
                    } else {
                        LayerManager::promoting(place, Which::First, w)
                    },
            ),
        };
    super::layers::faithful_resolving(place, Which::First);
    assert forall|at: Option<Layer>| super::faithful(#[trigger] super::going_on(g, at)) by {
        match at {
            None => {
                super::faithful_fail::<()>(ENOENT);
                assert(super::going_on(g, at) =~= |w: World| Flow::Fail(ENOENT, w));
            },
            Some(Layer::Upper) => {
                faithful_completing(place);
                assert(super::going_on(g, at) =~= |w: World| OverlayOps::completing(place, w));
            },
            Some(Layer::Lower) => {
                let f2 = |w: World| Action::Lstat(low).probe(w);
                let g2 = |m: Option<Meta>, w: World|
                    if m matches Some(meta) && meta.kind is Directory {
                        Action::CopyTree(low, up).run(w)
                    } else {
                        LayerManager::promoting(place, Which::First, w)
                    };
                super::faithful_probe(Action::Lstat(low));
                assert forall|m: Option<Meta>| super::faithful(
                    #[trigger] super::going_on(g2, m),
                ) by {
                    if m matches Some(meta) && meta.kind is Directory {
                        super::faithful_run(Action::CopyTree(low, up));
                        assert(super::going_on(g2, m) =~= |w: World|
                            Action::CopyTree(low, up).run(w));
                    } else {
                        super::layers::faithful_promoting(place, Which::First);
                        assert(super::going_on(g2, m) =~= |w: World|
                            LayerManager::promoting(place, Which::First, w));
                    }
                }
                super::faithful_bind(f2, g2, super::going_on(g, at));
            },
        }
    }
    super::faithful_bind(f, g, h);
}

/// [`OverlayOps::completing`] does over a record what it does on a disk.
pub proof fn faithful_completing(place: Place)
    ensures
        super::faithful(|w: World| OverlayOps::completing(place, w)),
{
    let h = |w: World| OverlayOps::completing(place, w);
    let up = Spot::upper(Which::First);
    let low = Spot::lower(Which::First);
    let f = |w: World| OverlayOps::is_open(place, w);
    let g = |open: bool, w: World|
        if open {
            Action::CopyTree(low, up).run(w)
        } else {
            Flow::Got((), w)
        };
    faithful_is_open(place);
    assert forall|open: bool| super::faithful(#[trigger] super::going_on(g, open)) by {
        if open {
            super::faithful_run(Action::CopyTree(low, up));
            assert(super::going_on(g, open) =~= |w: World| Action::CopyTree(low, up).run(w));
        } else {
            super::faithful_got(());
            assert(super::going_on(g, open) =~= |w: World| Flow::Got((), w));
        }
    }
    super::faithful_bind(f, g, h);
}

/// [`OverlayOps::is_open`] does over a record what it does on a disk.
pub proof fn faithful_is_open(place: Place)
    ensures
        super::faithful(|w: World| OverlayOps::is_open(place, w)),
{
    let h = |w: World| OverlayOps::is_open(place, w);
    let f = |w: World| Action::Lstat(Spot::upper(Which::First)).probe(w);
    let g = |m: Option<Meta>, w: World|
        if m matches Some(meta) && meta.kind is Directory {
            Action::Lstat(Spot::lower(Which::First)).probe(w).bind(
                |m: Option<Meta>, w: World|
                    if m matches Some(meta) && meta.kind is Directory {
                        crate::listing::closed_off(place.depth, w).bind(
                            |closed: bool, w: World| Flow::Got(!closed, w),
                        )
                    } else {
                        Flow::Got(false, w)
                    },
            )
        } else {
            Flow::Got(false, w)
        };
    super::faithful_probe(Action::Lstat(Spot::upper(Which::First)));
    assert forall|m: Option<Meta>| super::faithful(#[trigger] super::going_on(g, m)) by {
        if m matches Some(meta) && meta.kind is Directory {
            let f2 = |w: World| Action::Lstat(Spot::lower(Which::First)).probe(w);
            let g2 = |m: Option<Meta>, w: World|
                if m matches Some(meta) && meta.kind is Directory {
                    crate::listing::closed_off(place.depth, w).bind(
                        |closed: bool, w: World| Flow::Got(!closed, w),
                    )
                } else {
                    Flow::Got(false, w)
                };
            super::faithful_probe(Action::Lstat(Spot::lower(Which::First)));
            assert forall|m: Option<Meta>| super::faithful(#[trigger] super::going_on(g2, m)) by {
                if m matches Some(meta) && meta.kind is Directory {
                    let f3 = |w: World| crate::listing::closed_off(place.depth, w);
                    let g3 = |closed: bool, w: World| Flow::Got(!closed, w);
                    super::directories::faithful_closed_off(place.depth);
                    assert forall|closed: bool| super::faithful(
                        #[trigger] super::going_on(g3, closed),
                    ) by {
                        super::faithful_got(!closed);
                        assert(super::going_on(g3, closed) =~= |w: World| Flow::Got(!closed, w));
                    }
                    super::faithful_bind(f3, g3, super::going_on(g2, m));
                } else {
                    super::faithful_got(false);
                    assert(super::going_on(g2, m) =~= |w: World| Flow::Got(false, w));
                }
            }
            super::faithful_bind(f2, g2, super::going_on(g, m));
        } else {
            super::faithful_got(false);
            assert(super::going_on(g, m) =~= |w: World| Flow::Got(false, w));
        }
    }
    super::faithful_bind(f, g, h);
}

/// [`OverlayOps::copying_entry`] does over a record what it does on a disk.
pub proof fn faithful_copying_entry(place: Place)
    ensures
        super::faithful(|w: World| OverlayOps::copying_entry(place, w)),
{
    let h = |w: World| OverlayOps::copying_entry(place, w);
    let f = |w: World| LayerManager::resolving(place, Which::First, w);
    let g = |at: Option<Layer>, w: World|
        match at {
            None => Flow::Got(false, w),
            Some(Layer::Upper) => OverlayOps::is_open(place, w),
            Some(Layer::Lower) => Action::Lstat(Spot::lower(Which::First)).meta(w).bind(
                |meta: Meta, w: World|
                    LayerManager::carrying(Which::First, meta, w).bind(
                        |u: (), w: World| Flow::Got(meta.kind is Directory, w),
                    ),
            ),
        };
    super::layers::faithful_resolving(place, Which::First);
    assert forall|at: Option<Layer>| super::faithful(#[trigger] super::going_on(g, at)) by {
        match at {
            None => {
                super::faithful_got(false);
                assert(super::going_on(g, at) =~= |w: World| Flow::Got(false, w));
            },
            Some(Layer::Upper) => {
                faithful_is_open(place);
                assert(super::going_on(g, at) =~= |w: World| OverlayOps::is_open(place, w));
            },
            Some(Layer::Lower) => {
                let f2 = |w: World| Action::Lstat(Spot::lower(Which::First)).meta(w);
                let g2 = |meta: Meta, w: World|
                    LayerManager::carrying(Which::First, meta, w).bind(
                        |u: (), w: World| Flow::Got(meta.kind is Directory, w),
                    );
                super::faithful_meta(Action::Lstat(Spot::lower(Which::First)));
                assert forall|meta: Meta| super::faithful(#[trigger] super::going_on(g2, meta)) by {
                    let f3 = |w: World| LayerManager::carrying(Which::First, meta, w);
                    let g3 = |u: (), w: World| Flow::Got(meta.kind is Directory, w);
                    super::layers::faithful_carrying(Which::First, meta);
                    assert forall|u: ()| super::faithful(#[trigger] super::going_on(g3, u)) by {
                        super::faithful_got(meta.kind is Directory);
                        assert(super::going_on(g3, u) =~= |w: World|
                            Flow::Got(meta.kind is Directory, w));
                    }
                    super::faithful_bind(f3, g3, super::going_on(g2, meta));
                }
                super::faithful_bind(f2, g2, super::going_on(g, at));
            },
        }
    }
    super::faithful_bind(f, g, h);
}

/// [`OverlayOps::renaming`] does over a record what it does on a disk.
pub proof fn faithful_renaming(flags: u32, place: Place, place_new: Place)
    ensures
        super::faithful(|w: World| OverlayOps::renaming(flags, place, place_new, w)),
{
    let h = |w: World| OverlayOps::renaming(flags, place, place_new, w);
    let from = Spot::upper(Which::First);
    let to = Spot::upper(Which::Second);
    let f = |w: World| OverlayOps::refusing_taken(flags, place_new, w);
    let g = |u: (), w: World|
        if flags & crate::fuse_ops::RENAME_EXCHANGE != 0 {
            Flow::Fail(ENOTSUP, w)
        } else {
            OverlayOps::fetching(place, w).bind(
                |u: (), w: World|
                    Action::MakeParents(to).run(w).bind(
                        |u: (), w: World|
                            Action::Rename(from, to).run(w).bind(
                                |u: (), w: World|
                                    OverlayOps::covering(place, w).settle(
                                        |r: Result<(), i32>, w: World|
                                            LayerManager::clearing(
                                                place_new.named,
                                                Which::Second,
                                                w,
                                            ),
                                    ),
                            ),
                    ),
            )
        };
    faithful_refusing_taken(flags, place_new);
    assert forall|u: ()| super::faithful(#[trigger] super::going_on(g, u)) by {
        if flags & crate::fuse_ops::RENAME_EXCHANGE != 0 {
            super::faithful_fail::<()>(ENOTSUP);
            assert(super::going_on(g, u) =~= |w: World| Flow::Fail(ENOTSUP, w));
        } else {
            let f2 = |w: World| OverlayOps::fetching(place, w);
            let g2 = |u: (), w: World|
                Action::MakeParents(to).run(w).bind(
                    |u: (), w: World|
                        Action::Rename(from, to).run(w).bind(
                            |u: (), w: World|
                                OverlayOps::covering(place, w).settle(
                                    |r: Result<(), i32>, w: World|
                                        LayerManager::clearing(
                                            place_new.named,
                                            Which::Second,
                                            w,
                                        ),
                                ),
                        ),
                );
            faithful_fetching(place);
            assert forall|u: ()| super::faithful(#[trigger] super::going_on(g2, u)) by {
                let f3 = |w: World| Action::MakeParents(to).run(w);
                let g3 = |u: (), w: World|
                    Action::Rename(from, to).run(w).bind(
                        |u: (), w: World|
                            OverlayOps::covering(place, w).settle(
                                |r: Result<(), i32>, w: World|
                                    LayerManager::clearing(
                                        place_new.named,
                                        Which::Second,
                                        w,
                                    ),
                            ),
                    );
                super::faithful_run(Action::MakeParents(to));
                assert forall|u: ()| super::faithful(#[trigger] super::going_on(g3, u)) by {
                    let f4 = |w: World| Action::Rename(from, to).run(w);
                    let g4 = |u: (), w: World|
                        OverlayOps::covering(place, w).settle(
                            |r: Result<(), i32>, w: World|
                                LayerManager::clearing(
                                    place_new.named,
                                    Which::Second,
                                    w,
                                ),
                        );
                    super::faithful_run(Action::Rename(from, to));
                    assert forall|u: ()| super::faithful(#[trigger] super::going_on(g4, u)) by {
                        let f5 = |w: World| OverlayOps::covering(place, w);
                        let g5 = |r: Result<(), i32>, w: World|
                            LayerManager::clearing(
                                place_new.named,
                                Which::Second,
                                w,
                            );
                        faithful_covering(place);
                        assert forall|r: Result<(), i32>| super::faithful(
                            #[trigger] super::going_on(g5, r),
                        ) by {
                            super::layers::faithful_clearing(place_new.named, Which::Second);
                            assert(super::going_on(g5, r) =~= |w: World| LayerManager::clearing(
                                place_new.named,
                                Which::Second,
                                w,
                            ));
                        }
                        super::faithful_settle(f5, g5, super::going_on(g4, u));
                    }
                    super::faithful_bind(f4, g4, super::going_on(g3, u));
                }
                super::faithful_bind(f3, g3, super::going_on(g2, u));
            }
            super::faithful_bind(f2, g2, super::going_on(g, u));
        }
    }
    super::faithful_bind(f, g, h);
}

/// [`OverlayOps::linking`] does over a record what it does on a disk.
pub proof fn faithful_linking(place: Place, place_new: Place)
    ensures
        super::faithful(|w: World| OverlayOps::linking(place, place_new, w)),
{
    let h = |w: World| OverlayOps::linking(place, place_new, w);
    let from = Spot::upper(Which::First);
    let to = Spot::upper(Which::Second);
    let f = |w: World| LayerManager::promoting(place, Which::First, w);
    let g = |u: (), w: World|
        Action::MakeParents(to).run(w).bind(
            |u: (), w: World|
                Action::HardLink(from, to).run(w).bind(
                    |u: (), w: World|
                        LayerManager::clearing(place_new.named, Which::Second, w).bind(
                            |u: (), w: World| Action::Lstat(to).meta(w),
                        ),
                ),
        );
    super::layers::faithful_promoting(place, Which::First);
    assert forall|u: ()| super::faithful(#[trigger] super::going_on(g, u)) by {
        let f2 = |w: World| Action::MakeParents(to).run(w);
        let g2 = |u: (), w: World|
            Action::HardLink(from, to).run(w).bind(
                |u: (), w: World|
                    LayerManager::clearing(place_new.named, Which::Second, w).bind(
                        |u: (), w: World| Action::Lstat(to).meta(w),
                    ),
            );
        super::faithful_run(Action::MakeParents(to));
        assert forall|u: ()| super::faithful(#[trigger] super::going_on(g2, u)) by {
            let f3 = |w: World| Action::HardLink(from, to).run(w);
            let g3 = |u: (), w: World|
                LayerManager::clearing(place_new.named, Which::Second, w).bind(
                    |u: (), w: World| Action::Lstat(to).meta(w),
                );
            super::faithful_run(Action::HardLink(from, to));
            assert forall|u: ()| super::faithful(#[trigger] super::going_on(g3, u)) by {
                let f4 = |w: World| LayerManager::clearing(place_new.named, Which::Second, w);
                let g4 = |u: (), w: World| Action::Lstat(to).meta(w);
                super::layers::faithful_clearing(place_new.named, Which::Second);
                assert forall|u: ()| super::faithful(#[trigger] super::going_on(g4, u)) by {
                    super::faithful_meta(Action::Lstat(to));
                    assert(super::going_on(g4, u) =~= |w: World| Action::Lstat(to).meta(w));
                }
                super::faithful_bind(f4, g4, super::going_on(g3, u));
            }
            super::faithful_bind(f3, g3, super::going_on(g2, u));
        }
        super::faithful_bind(f2, g2, super::going_on(g, u));
    }
    super::faithful_bind(f, g, h);
}

/// [`OverlayOps::from_path`] does over a record what it does on a disk, if what comes next does.
pub proof fn faithful_from_path<T>(
    ops: OverlayOps,
    ino: u64,
    next: spec_fn(Seq<u8>, World) -> Flow<T>,
)
    requires
        forall|path: Seq<u8>| super::faithful(#[trigger] super::going_on(next, path)),
    ensures
        super::faithful(|w: World| ops.from_path(ino, w, next)),
{
    let h = |w: World| ops.from_path(ino, w, next);
    match ops.inodes@.path_of(ino) {
        Some(path) => {
            assert(super::faithful(super::going_on(next, path)));
            assert(h =~= super::going_on(next, path));
        },
        None => {
            super::faithful_fail::<T>(ENOENT);
            assert(h =~= |w: World| Flow::Fail(ENOENT, w));
        },
    }
}

/// [`OverlayOps::described`] does over a record what it does on a disk, if what it describes does.
pub proof fn faithful_described(ino: u64, f: spec_fn(World) -> Flow<Meta>)
    requires
        super::faithful(f),
    ensures
        super::faithful(|w: World| OverlayOps::described(ino, f(w))),
{
    let h = |w: World| OverlayOps::described(ino, f(w));
    let g = |meta: Meta, w: World| Flow::Got(FileAttr::of(ino, meta), w);
    assert forall|meta: Meta| super::faithful(#[trigger] super::going_on(g, meta)) by {
        super::faithful_got(FileAttr::of(ino, meta));
        assert(super::going_on(g, meta) =~= |w: World| Flow::Got(FileAttr::of(ino, meta), w));
    }
    super::faithful_bind(f, g, h);
}

/// [`OverlayOps::getting`] does over a record what it does on a disk.
pub proof fn faithful_getting(ops: OverlayOps, ino: u64)
    ensures
        super::faithful(|w: World| ops.getting(ino, w)),
{
    let next = |path: Seq<u8>, w: World|
        OverlayOps::described(ino, OverlayOps::inspecting(LayerManager::place(path), w));
    assert forall|path: Seq<u8>| super::faithful(#[trigger] super::going_on(next, path)) by {
        let f = |w: World| OverlayOps::inspecting(LayerManager::place(path), w);
        faithful_inspecting(LayerManager::place(path));
        faithful_described(ino, f);
        assert(super::going_on(next, path) =~= |w: World| OverlayOps::described(ino, f(w)));
    }
    faithful_from_path(ops, ino, next);
    assert((|w: World| ops.getting(ino, w)) =~= |w: World| ops.from_path(ino, w, next));
}

} // verus!
