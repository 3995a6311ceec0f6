//! Resolving and promoting over a record.

use crate::errno::ENOENT;
use crate::layers::{LayerManager, Place};
use crate::protocol::{Action, Answer, Flow, Layer, Meta, Spot, TimeSet, Which, World};
use vstd::prelude::*;

verus! {

/// [`LayerManager::hiding`] does over a record what it does on a disk.
pub proof fn faithful_hiding(named: bool, which: Which)
    ensures
        super::faithful(|w: World| LayerManager::hiding(named, which, w)),
{
    let h = |w: World| LayerManager::hiding(named, which, w);
    if named {
        let f = |w: World| Action::Lstat(Spot::whiteout(which)).probe(w);
        let g = |m: Option<Meta>, w: World| Flow::Got(m is Some, w);
        super::faithful_probe(Action::Lstat(Spot::whiteout(which)));
        assert forall|m: Option<Meta>| super::faithful(#[trigger] super::going_on(g, m)) by {
            super::faithful_got(m is Some);
            assert(super::going_on(g, m) =~= |w: World| Flow::Got(m is Some, w));
        }
        super::faithful_bind(f, g, h);
    } else {
        super::faithful_got(false);
        assert(h =~= |w: World| Flow::Got(false, w));
    }
}

/// [`LayerManager::uncovering`] does over a record what it does on a disk.
pub proof fn faithful_uncovering(which: Which, depth: nat)
    ensures
        super::faithful(|w: World| LayerManager::uncovering(which, depth, w)),
{
    let h = |w: World| LayerManager::uncovering(which, depth, w);
    let f = |w: World| LayerManager::covering(which, 0, depth, w);
    let g = |covered: bool, w: World|
        if covered {
            Flow::Got(None, w)
        } else {
            Flow::Got(Some(Layer::Lower), w)
        };
    faithful_covering(which, 0, depth);
    assert forall|covered: bool| super::faithful(#[trigger] super::going_on(g, covered)) by {
        if covered {
            super::faithful_got::<Option<Layer>>(None);
            assert(super::going_on(g, covered) =~= |w: World| Flow::Got(None, w));
        } else {
            super::faithful_got(Some(Layer::Lower));
            assert(super::going_on(g, covered) =~= |w: World| Flow::Got(Some(Layer::Lower), w));
        }
    }
    super::faithful_bind(f, g, h);
}

/// [`LayerManager::resolving`] does over a record what it does on a disk.
pub proof fn faithful_resolving(place: Place, which: Which)
    ensures
        super::faithful(|w: World| LayerManager::resolving(place, which, w)),
{
    let h = |w: World| LayerManager::resolving(place, which, w);
    let f = |w: World| LayerManager::hiding(place.named, which, w);
    let g = |hidden: bool, w: World|
        if hidden {
            Flow::Got(None, w)
        } else {
            Action::Lstat(Spot::upper(which)).probe(w).bind(
                |up: Option<Meta>, w: World|
                    if up is Some {
                        Flow::Got(Some(Layer::Upper), w)
                    } else {
                        Action::Lstat(Spot::lower(which)).probe(w).bind(
                            |low: Option<Meta>, w: World|
                                if low is Some {
                                    LayerManager::uncovering(which, place.depth, w)
                                } else {
                                    Flow::Got(None, w)
                                },
                        )
                    },
            )
        };
    faithful_hiding(place.named, which);
    assert forall|hidden: bool| super::faithful(#[trigger] super::going_on(g, hidden)) by {
        if hidden {
            super::faithful_got::<Option<Layer>>(None);
            assert(super::going_on(g, hidden) =~= |w: World| Flow::Got(None, w));
        } else {
            let f2 = |w: World| Action::Lstat(Spot::upper(which)).probe(w);
            let g2 = |up: Option<Meta>, w: World|
                if up is Some {
                    Flow::Got(Some(Layer::Upper), w)
                } else {
                    Action::Lstat(Spot::lower(which)).probe(w).bind(
                        |low: Option<Meta>, w: World|
                            if low is Some {
                                LayerManager::uncovering(which, place.depth, w)
                            } else {
                                Flow::Got(None, w)
                            },
                    )
                };
            super::faithful_probe(Action::Lstat(Spot::upper(which)));
            assert forall|up: Option<Meta>| super::faithful(#[trigger] super::going_on(g2, up)) by {
                if up is Some {
                    super::faithful_got(Some(Layer::Upper));
                    assert(super::going_on(g2, up) =~= |w: World| Flow::Got(Some(Layer::Upper), w));
                } else {
                    let f3 = |w: World| Action::Lstat(Spot::lower(which)).probe(w);
                    let g3 = |low: Option<Meta>, w: World|
                        if low is Some {
                            LayerManager::uncovering(which, place.depth, w)
                        } else {
                            Flow::Got(None, w)
                        };
                    super::faithful_probe(Action::Lstat(Spot::lower(which)));
                    assert forall|low: Option<Meta>| super::faithful(
                        #[trigger] super::going_on(g3, low),
                    ) by {
                        if low is Some {
                            faithful_uncovering(which, place.depth);
                            assert(super::going_on(g3, low) =~= |w: World|
                                LayerManager::uncovering(which, place.depth, w));
                        } else {
                            super::faithful_got::<Option<Layer>>(None);
                            assert(super::going_on(g3, low) =~= |w: World| Flow::Got(None, w));
                        }
                    }
                    super::faithful_bind(f3, g3, super::going_on(g2, up));
                }
            }
            super::faithful_bind(f2, g2, super::going_on(g, hidden));
        }
    }
    super::faithful_bind(f, g, h);
}

/// [`LayerManager::whiting_out`] does over a record what it does on a disk.
pub proof fn faithful_whiting_out(named: bool, which: Which)
    ensures
        super::faithful(|w: World| LayerManager::whiting_out(named, which, w)),
{
    let h = |w: World| LayerManager::whiting_out(named, which, w);
    if named {
        let f = |w: World| Action::MakeParents(Spot::whiteout(which)).run(w);
        let g = |u: (), w: World| Action::CreateFile(Spot::whiteout(which)).run(w);
        super::faithful_run(Action::MakeParents(Spot::whiteout(which)));
        assert forall|u: ()| super::faithful(#[trigger] super::going_on(g, u)) by {
            super::faithful_run(Action::CreateFile(Spot::whiteout(which)));
            assert(super::going_on(g, u) =~= |w: World|
                Action::CreateFile(Spot::whiteout(which)).run(w));
        }
        super::faithful_bind(f, g, h);
    } else {
        super::faithful_got(());
        assert(h =~= |w: World| Flow::Got((), w));
    }
}

/// [`LayerManager::clearing`] does over a record what it does on a disk.
pub proof fn faithful_clearing(named: bool, which: Which)
    ensures
        super::faithful(|w: World| LayerManager::clearing(named, which, w)),
{
    let h = |w: World| LayerManager::clearing(named, which, w);
    if named {
        super::faithful_attempt(Action::RemoveFile(Spot::whiteout(which)));
        assert(h =~= |w: World| Action::RemoveFile(Spot::whiteout(which)).attempt(w));
    } else {
        super::faithful_got(());
        assert(h =~= |w: World| Flow::Got((), w));
    }
}

/// [`LayerManager::unhiding`] does over a record what it does on a disk.
pub proof fn faithful_unhiding(named: bool, which: Which)
    ensures
        super::faithful(|w: World| LayerManager::unhiding(named, which, w)),
{
    let h = |w: World| LayerManager::unhiding(named, which, w);
    if named {
        let f = |w: World| Action::RemoveFile(Spot::whiteout(which)).ask(w);
        let g = |r: Answer, w: World|
            if r is Done || r == Answer::Failed(Some(ENOENT)) {
                Flow::Got((), w)
            } else {
                Flow::Fail(r.code(), w)
            };
        super::faithful_ask(Action::RemoveFile(Spot::whiteout(which)));
        assert forall|r: Answer| super::faithful(#[trigger] super::going_on(g, r)) by {
            if r is Done || r == Answer::Failed(Some(ENOENT)) {
                super::faithful_got(());
                assert(super::going_on(g, r) =~= |w: World| Flow::Got((), w));
            } else {
                super::faithful_fail::<()>(r.code());
                assert(super::going_on(g, r) =~= |w: World| Flow::Fail(r.code(), w));
            }
        }
        super::faithful_bind(f, g, h);
    } else {
        super::faithful_got(());
        assert(h =~= |w: World| Flow::Got((), w));
    }
}

/// [`LayerManager::duplicating`] does over a record what it does on a disk.
pub proof fn faithful_duplicating(which: Which, meta: Meta)
    ensures
        super::faithful(|w: World| LayerManager::duplicating(which, meta, w)),
{
    let h = |w: World| LayerManager::duplicating(which, meta, w);
    let up = Spot::upper(which);
    let low = Spot::lower(which);
    if meta.kind is Symlink {
        let f = |w: World| Action::ReadLink(low).data(w);
        let g = |target: Seq<u8>, w: World| Action::MakeLink(up).run(w);
        super::faithful_data(Action::ReadLink(low));
        assert forall|target: Seq<u8>| super::faithful(#[trigger] super::going_on(g, target)) by {
            super::faithful_run(Action::MakeLink(up));
            assert(super::going_on(g, target) =~= |w: World| Action::MakeLink(up).run(w));
        }
        super::faithful_bind(f, g, h);
    } else if meta.kind is Directory {
        let f2 = |w: World| Action::MakeDirs(up).run(w);
        let g2 = |u: (), w: World| Action::SetMode(up, meta.mode).run(w);
        super::faithful_run(Action::MakeDirs(up));
        assert forall|u: ()| super::faithful(#[trigger] super::going_on(g2, u)) by {
            super::faithful_run(Action::SetMode(up, meta.mode));
            assert(super::going_on(g2, u) =~= |w: World| Action::SetMode(up, meta.mode).run(w));
        }
        super::faithful_bind(f2, g2, h);
    } else {
        let f3 = |w: World| Action::CopyFile(low, up).run(w);
        let g3 = |u: (), w: World| Action::SetMode(up, meta.mode).run(w);
        super::faithful_run(Action::CopyFile(low, up));
        assert forall|u: ()| super::faithful(#[trigger] super::going_on(g3, u)) by {
            super::faithful_run(Action::SetMode(up, meta.mode));
            assert(super::going_on(g3, u) =~= |w: World| Action::SetMode(up, meta.mode).run(w));
        }
        super::faithful_bind(f3, g3, h);
    }
}

/// [`LayerManager::carrying`] does over a record what it does on a disk.
pub proof fn faithful_carrying(which: Which, meta: Meta)
    ensures
        super::faithful(|w: World| LayerManager::carrying(which, meta, w)),
{
    let h = |w: World| LayerManager::carrying(which, meta, w);
    let up = Spot::upper(which);
    let low = Spot::lower(which);
    let f = |w: World| LayerManager::duplicating(which, meta, w);
    let g = |u: (), w: World|
        Action::SetTimes(up, TimeSet::At(meta.atime), TimeSet::At(meta.mtime)).attempt(
            w,
        ).bind(
            |u: (), w: World|
                Action::SetOwner(up, meta.uid, meta.gid).attempt(w).bind(
                    |u: (), w: World| Action::CopyXattrs(low, up).run(w),
                ),
        );
    faithful_duplicating(which, meta);
    assert forall|u: ()| super::faithful(#[trigger] super::going_on(g, u)) by {
        let f2 = |w: World| Action::SetTimes(up, TimeSet::At(meta.atime), TimeSet::At(meta.mtime)).attempt(
            w,
        );
        let g2 = |u: (), w: World|
            Action::SetOwner(up, meta.uid, meta.gid).attempt(w).bind(
                |u: (), w: World| Action::CopyXattrs(low, up).run(w),
            );
        super::faithful_attempt(Action::SetTimes(up, TimeSet::At(meta.atime), TimeSet::At(meta.mtime)));
        assert forall|u: ()| super::faithful(#[trigger] super::going_on(g2, u)) by {
            let f3 = |w: World| Action::SetOwner(up, meta.uid, meta.gid).attempt(w);
            let g3 = |u: (), w: World| Action::CopyXattrs(low, up).run(w);
            super::faithful_attempt(Action::SetOwner(up, meta.uid, meta.gid));
            assert forall|u: ()| super::faithful(#[trigger] super::going_on(g3, u)) by {
                super::faithful_run(Action::CopyXattrs(low, up));
                assert(super::going_on(g3, u) =~= |w: World| Action::CopyXattrs(low, up).run(w));
            }
            super::faithful_bind(f3, g3, super::going_on(g2, u));
        }
        super::faithful_bind(f2, g2, super::going_on(g, u));
    }
    super::faithful_bind(f, g, h);
}

/// [`LayerManager::promoting`] does over a record what it does on a disk.
pub proof fn faithful_promoting(place: Place, which: Which)
    ensures
        super::faithful(|w: World| LayerManager::promoting(place, which, w)),
{
    let h = |w: World| LayerManager::promoting(place, which, w);
    let up = Spot::upper(which);
    let low = Spot::lower(which);
    let f = |w: World| LayerManager::resolving(place, which, w);
    let g = |at: Option<Layer>, w: World|
        match at {
            None => Flow::Fail(ENOENT, w),
            Some(Layer::Upper) => Flow::Got((), w),
            Some(Layer::Lower) => Action::MakeParents(up).run(w).bind(
                |u: (), w: World|
                    Action::Lstat(low).meta(w).bind(
                        |meta: Meta, w: World| LayerManager::carrying(which, meta, w),
                    ),
            ),
        };
    faithful_resolving(place, which);
    assert forall|at: Option<Layer>| super::faithful(#[trigger] super::going_on(g, at)) by {
        match at {
            None => {
                super::faithful_fail::<()>(ENOENT);
                assert(super::going_on(g, at) =~= |w: World| Flow::Fail(ENOENT, w));
            },
            Some(Layer::Upper) => {
                super::faithful_got(());
                assert(super::going_on(g, at) =~= |w: World| Flow::Got((), w));
            },
            Some(Layer::Lower) => {
                let f2 = |w: World| Action::MakeParents(up).run(w);
                let g2 = |u: (), w: World|
                    Action::Lstat(low).meta(w).bind(
                        |meta: Meta, w: World| LayerManager::carrying(which, meta, w),
                    );
                super::faithful_run(Action::MakeParents(up));
                assert forall|u: ()| super::faithful(#[trigger] super::going_on(g2, u)) by {
                    let f3 = |w: World| Action::Lstat(low).meta(w);
                    let g3 = |meta: Meta, w: World| LayerManager::carrying(which, meta, w);
                    super::faithful_meta(Action::Lstat(low));
                    assert forall|meta: Meta| super::faithful(
                        #[trigger] super::going_on(g3, meta),
                    ) by {
                        faithful_carrying(which, meta);
                        assert(super::going_on(g3, meta) =~= |w: World|
                            LayerManager::carrying(which, meta, w));
                    }
                    super::faithful_bind(f3, g3, super::going_on(g2, u));
                }
                super::faithful_bind(f2, g2, super::going_on(g, at));
            },
        }
    }
    super::faithful_bind(f, g, h);
}

/// [`LayerManager::covering`] does over a record what it does on a disk.
pub proof fn faithful_covering(which: Which, k: nat, n: nat)
    ensures
        super::faithful(|w: World| LayerManager::covering(which, k, n, w)),
    decreases n - k,
{
    let h = |w: World| LayerManager::covering(which, k, n, w);
    if k >= n {
        super::faithful_got(false);
        assert(h =~= |w: World| Flow::Got(false, w));
    } else {
        let s = Spot::above(which, k as usize);
        let f = |w: World| crate::xattr::sealed(s, w);
        let g = |yes: bool, w: World|
            if yes {
                Flow::Got(true, w)
            } else {
                LayerManager::covering(which, k + 1, n, w)
            };
        super::attributes::faithful_sealed(s);
        assert forall|yes: bool| super::faithful(#[trigger] super::going_on(g, yes)) by {
            if yes {
                super::faithful_got(true);
                assert(super::going_on(g, yes) =~= |w: World| Flow::Got(true, w));
            } else {
                faithful_covering(which, k + 1, n);
                assert(super::going_on(g, yes) =~= |w: World|
                    LayerManager::covering(which, k + 1, n, w));
            }
        }
        super::faithful_bind(f, g, h);
    }
}

} // verus!
