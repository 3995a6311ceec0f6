//! Mounting, unmounting and closing over a record.

use crate::overlay::OverlayAction;
use crate::protocol::{Action, Answer, Flow, Site, World};
use vstd::prelude::*;

verus! {

/// [`crate::overlay::locating`] does over a record what it does on a disk.
pub proof fn faithful_locating(site: Site)
    ensures
        super::faithful(|w: World| crate::overlay::locating(site, w)),
{
    let h = |w: World| crate::overlay::locating(site, w);
    let f = |w: World| Action::Device(site).ask(w);
    let g = |r: Answer, w: World|
        match r {
            Answer::Count(n) => Flow::Got(Some(n), w),
            _ => Flow::Got(None, w),
        };
    super::faithful_ask(Action::Device(site));
    assert forall|r: Answer| super::faithful(#[trigger] super::going_on(g, r)) by {
        match r {
            Answer::Count(n) => {
                super::faithful_got(Some(n));
                assert(super::going_on(g, r) =~= |w: World| Flow::Got(Some(n), w));
            },
            _ => {
                super::faithful_got::<Option<i64>>(None);
                assert(super::going_on(g, r) =~= |w: World| Flow::Got(None, w));
            },
        }
    }
    super::faithful_bind(f, g, h);
}

/// [`crate::overlay::checking`] does over a record what it does on a disk.
pub proof fn faithful_checking(at_root: bool)
    ensures
        super::faithful(|w: World| crate::overlay::checking(at_root, w)),
{
    let h = |w: World| crate::overlay::checking(at_root, w);
    if at_root {
        super::faithful_got(true);
        assert(h =~= |w: World| Flow::Got(true, w));
    } else {
        let f = |w: World| crate::overlay::locating(Site::MountPoint, w);
        let g = |here: Option<i64>, w: World|
            match here {
                None => Flow::Got(false, w),
                Some(a) => crate::overlay::locating(Site::MountParent, w).bind(
                    |there: Option<i64>, w: World|
                        match there {
                            None => Flow::Got(true, w),
                            Some(b) => Flow::Got(a != b, w),
                        },
                ),
            };
        faithful_locating(Site::MountPoint);
        assert forall|here: Option<i64>| super::faithful(#[trigger] super::going_on(g, here)) by {
            match here {
                None => {
                    super::faithful_got(false);
                    assert(super::going_on(g, here) =~= |w: World| Flow::Got(false, w));
                },
                Some(a) => {
                    let f2 = |w: World| crate::overlay::locating(Site::MountParent, w);
                    let g2 = |there: Option<i64>, w: World|
                        match there {
                            None => Flow::Got(true, w),
                            Some(b) => Flow::Got(a != b, w),
                        };
                    faithful_locating(Site::MountParent);
                    assert forall|there: Option<i64>| super::faithful(
                        #[trigger] super::going_on(g2, there),
                    ) by {
                        match there {
                            None => {
                                super::faithful_got(true);
                                assert(super::going_on(g2, there) =~= |w: World|
                                    Flow::Got(true, w));
                            },
                            Some(b) => {
                                super::faithful_got(a != b);
                                assert(super::going_on(g2, there) =~= |w: World|
                                    Flow::Got(a != b, w));
                            },
                        }
                    }
                    super::faithful_bind(f2, g2, super::going_on(g, here));
                },
            }
        }
        super::faithful_bind(f, g, h);
    }
}

/// [`crate::overlay::providing`] does over a record what it does on a disk.
pub proof fn faithful_providing(site: Site)
    ensures
        super::faithful(|w: World| crate::overlay::providing(site, w)),
{
    let h = |w: World| crate::overlay::providing(site, w);
    let f = |w: World| Action::Exists(site).test(w);
    let g = |there: bool, w: World|
        if there {
            Flow::Got((), w)
        } else {
            Action::MakeSite(site).run(w)
        };
    super::faithful_test(Action::Exists(site));
    assert forall|there: bool| super::faithful(#[trigger] super::going_on(g, there)) by {
        if there {
            super::faithful_got(());
            assert(super::going_on(g, there) =~= |w: World| Flow::Got((), w));
        } else {
            super::faithful_run(Action::MakeSite(site));
            assert(super::going_on(g, there) =~= |w: World| Action::MakeSite(site).run(w));
        }
    }
    super::faithful_bind(f, g, h);
}

/// [`crate::overlay::mounting`] does over a record what it does on a disk.
pub proof fn faithful_mounting()
    ensures
        super::faithful(|w: World| crate::overlay::mounting(w)),
{
    let h = |w: World| crate::overlay::mounting(w);
    let f = |w: World| crate::overlay::providing(Site::MountPoint, w);
    let g = |u: (), w: World|
        crate::overlay::providing(Site::Upper, w).bind(|u: (), w: World| Action::Spawn.run(w));
    faithful_providing(Site::MountPoint);
    assert forall|u: ()| super::faithful(#[trigger] super::going_on(g, u)) by {
        let f2 = |w: World| crate::overlay::providing(Site::Upper, w);
        let g2 = |u: (), w: World| Action::Spawn.run(w);
        faithful_providing(Site::Upper);
        assert forall|u: ()| super::faithful(#[trigger] super::going_on(g2, u)) by {
            super::faithful_run(Action::Spawn);
            assert(super::going_on(g2, u) =~= |w: World| Action::Spawn.run(w));
        }
        super::faithful_bind(f2, g2, super::going_on(g, u));
    }
    super::faithful_bind(f, g, h);
}

/// [`crate::overlay::ending`] does over a record what it does on a disk.
pub proof fn faithful_ending(serving: bool, at_root: bool)
    ensures
        super::faithful(|w: World| crate::overlay::ending(serving, at_root, w)),
{
    let h = |w: World| crate::overlay::ending(serving, at_root, w);
    if serving {
        let f = |w: World| Action::EndSession.attempt(w);
        let g = |u: (), w: World| crate::overlay::waiting(at_root, crate::overlay::WAITS as nat, w);
        super::faithful_attempt(Action::EndSession);
        assert forall|u: ()| super::faithful(#[trigger] super::going_on(g, u)) by {
            faithful_waiting(at_root, crate::overlay::WAITS as nat);
            assert(super::going_on(g, u) =~= |w: World|
                crate::overlay::waiting(at_root, crate::overlay::WAITS as nat, w));
        }
        super::faithful_bind(f, g, h);
    } else {
        super::faithful_got(());
        assert(h =~= |w: World| Flow::Got((), w));
    }
}

/// [`crate::overlay::forcing`] does over a record what it does on a disk.
pub proof fn faithful_forcing(at_root: bool)
    ensures
        super::faithful(|w: World| crate::overlay::forcing(at_root, w)),
{
    let h = |w: World| crate::overlay::forcing(at_root, w);
    let f = |w: World| crate::overlay::checking(at_root, w);
    let g = |mounted: bool, w: World|
        if !mounted {
            Flow::Got((), w)
        } else {
            Action::Unmount(false).attempt(w).bind(
                |u: (), w: World|
                    crate::overlay::checking(at_root, w).bind(
                        |mounted: bool, w: World|
                            if !mounted {
                                Flow::Got((), w)
                            } else {
                                Action::Unmount(true).attempt(w)
                            },
                    ),
            )
        };
    faithful_checking(at_root);
    assert forall|mounted: bool| super::faithful(#[trigger] super::going_on(g, mounted)) by {
        if !mounted {
            super::faithful_got(());
            assert(super::going_on(g, mounted) =~= |w: World| Flow::Got((), w));
        } else {
            let f2 = |w: World| Action::Unmount(false).attempt(w);
            let g2 = |u: (), w: World|
                crate::overlay::checking(at_root, w).bind(
                    |mounted: bool, w: World|
                        if !mounted {
                            Flow::Got((), w)
                        } else {
                            Action::Unmount(true).attempt(w)
                        },
                );
            super::faithful_attempt(Action::Unmount(false));
            assert forall|u: ()| super::faithful(#[trigger] super::going_on(g2, u)) by {
                let f3 = |w: World| crate::overlay::checking(at_root, w);
                let g3 = |mounted: bool, w: World|
                    if !mounted {
                        Flow::Got((), w)
                    } else {
                        Action::Unmount(true).attempt(w)
                    };
                faithful_checking(at_root);
                assert forall|mounted: bool| super::faithful(
                    #[trigger] super::going_on(g3, mounted),
                ) by {
                    if !mounted {
                        super::faithful_got(());
                        assert(super::going_on(g3, mounted) =~= |w: World| Flow::Got((), w));
                    } else {
                        super::faithful_attempt(Action::Unmount(true));
                        assert(super::going_on(g3, mounted) =~= |w: World|
                            Action::Unmount(true).attempt(w));
                    }
                }
                super::faithful_bind(f3, g3, super::going_on(g2, u));
            }
            super::faithful_bind(f2, g2, super::going_on(g, mounted));
        }
    }
    super::faithful_bind(f, g, h);
}

/// [`crate::overlay::tidying`] does over a record what it does on a disk.
pub proof fn faithful_tidying()
    ensures
        super::faithful(|w: World| crate::overlay::tidying(w)),
{
    let h = |w: World| crate::overlay::tidying(w);
    let f = |w: World| Action::Exists(Site::MountPoint).test(w);
    let g = |there: bool, w: World|
        if there {
            Action::RemoveSite(Site::MountPoint).attempt(w)
        } else {
            Flow::Got((), w)
        };
    super::faithful_test(Action::Exists(Site::MountPoint));
    assert forall|there: bool| super::faithful(#[trigger] super::going_on(g, there)) by {
        if there {
            super::faithful_attempt(Action::RemoveSite(Site::MountPoint));
            assert(super::going_on(g, there) =~= |w: World|
                Action::RemoveSite(Site::MountPoint).attempt(w));
        } else {
            super::faithful_got(());
            assert(super::going_on(g, there) =~= |w: World| Flow::Got((), w));
        }
    }
    super::faithful_bind(f, g, h);
}

/// [`crate::overlay::unmounting`] does over a record what it does on a disk.
pub proof fn faithful_unmounting(serving: bool, at_root: bool)
    ensures
        super::faithful(|w: World| crate::overlay::unmounting(serving, at_root, w)),
{
    let h = |w: World| crate::overlay::unmounting(serving, at_root, w);
    let f = |w: World| crate::overlay::ending(serving, at_root, w);
    let g = |u: (), w: World|
        crate::overlay::forcing(at_root, w).bind(|u: (), w: World| crate::overlay::tidying(w));
    faithful_ending(serving, at_root);
    assert forall|u: ()| super::faithful(#[trigger] super::going_on(g, u)) by {
        let f2 = |w: World| crate::overlay::forcing(at_root, w);
        let g2 = |u: (), w: World| crate::overlay::tidying(w);
        faithful_forcing(at_root);
        assert forall|u: ()| super::faithful(#[trigger] super::going_on(g2, u)) by {
            faithful_tidying();
            assert(super::going_on(g2, u) =~= |w: World| crate::overlay::tidying(w));
        }
        super::faithful_bind(f2, g2, super::going_on(g, u));
    }
    super::faithful_bind(f, g, h);
}

/// [`crate::overlay::committing_changes`] does over a record what it does on a disk.
pub proof fn faithful_committing_changes()
    ensures
        super::faithful(|w: World| crate::overlay::committing_changes(w)),
{
    let h = |w: World| crate::overlay::committing_changes(w);
    let f = |w: World| Action::Exists(Site::Upper).test(w);
    let g = |there: bool, w: World|
        if !there {
            Flow::Got((), w)
        } else {
            Action::Merge(Site::Lower).run(w).bind(
                |u: (), w: World| Action::SyncSite(Site::Lower).run(w),
            )
        };
    super::faithful_test(Action::Exists(Site::Upper));
    assert forall|there: bool| super::faithful(#[trigger] super::going_on(g, there)) by {
        if !there {
            super::faithful_got(());
            assert(super::going_on(g, there) =~= |w: World| Flow::Got((), w));
        } else {
            let f2 = |w: World| Action::Merge(Site::Lower).run(w);
            let g2 = |u: (), w: World| Action::SyncSite(Site::Lower).run(w);
            super::faithful_run(Action::Merge(Site::Lower));
            assert forall|u: ()| super::faithful(#[trigger] super::going_on(g2, u)) by {
                super::faithful_run(Action::SyncSite(Site::Lower));
                assert(super::going_on(g2, u) =~= |w: World| Action::SyncSite(Site::Lower).run(w));
            }
            super::faithful_bind(f2, g2, super::going_on(g, there));
        }
    }
    super::faithful_bind(f, g, h);
}

/// [`crate::overlay::clearing_site`] does over a record what it does on a disk.
pub proof fn faithful_clearing_site(site: Site)
    ensures
        super::faithful(|w: World| crate::overlay::clearing_site(site, w)),
{
    let h = |w: World| crate::overlay::clearing_site(site, w);
    let f = |w: World| Action::Exists(site).test(w);
    let g = |there: bool, w: World|
        if there {
            Action::Obliterate(site).attempt(w)
        } else {
            Flow::Got((), w)
        };
    super::faithful_test(Action::Exists(site));
    assert forall|there: bool| super::faithful(#[trigger] super::going_on(g, there)) by {
        if there {
            super::faithful_attempt(Action::Obliterate(site));
            assert(super::going_on(g, there) =~= |w: World| Action::Obliterate(site).attempt(w));
        } else {
            super::faithful_got(());
            assert(super::going_on(g, there) =~= |w: World| Flow::Got((), w));
        }
    }
    super::faithful_bind(f, g, h);
}

/// [`crate::overlay::preparing`] does over a record what it does on a disk.
pub proof fn faithful_preparing()
    ensures
        super::faithful(|w: World| crate::overlay::preparing(w)),
{
    let h = |w: World| crate::overlay::preparing(w);
    let f = |w: World| Action::CloneSite(Site::Lower, Site::NewLower).run(w);
    let g = |u: (), w: World|
        Action::Merge(Site::NewLower).run(w).settle(
            |r: Result<(), i32>, w: World|
                match r {
                    Ok(_) => Action::SyncSite(Site::NewLower).run(w),
                    Err(c) => Action::Obliterate(Site::NewLower).attempt(w).bind(
                        |u: (), w: World| Flow::Fail(c, w),
                    ),
                },
        );
    super::faithful_run(Action::CloneSite(Site::Lower, Site::NewLower));
    assert forall|u: ()| super::faithful(#[trigger] super::going_on(g, u)) by {
        let f2 = |w: World| Action::Merge(Site::NewLower).run(w);
        let g2 = |r: Result<(), i32>, w: World|
            match r {
                Ok(_) => Action::SyncSite(Site::NewLower).run(w),
                Err(c) => Action::Obliterate(Site::NewLower).attempt(w).bind(
                    |u: (), w: World| Flow::Fail(c, w),
                ),
            };
        super::faithful_run(Action::Merge(Site::NewLower));
        assert forall|r: Result<(), i32>| super::faithful(#[trigger] super::going_on(g2, r)) by {
            match r {
                Ok(_) => {
                    super::faithful_run(Action::SyncSite(Site::NewLower));
                    assert(super::going_on(g2, r) =~= |w: World|
                        Action::SyncSite(Site::NewLower).run(w));
                },
                Err(c) => {
                    let f3 = |w: World| Action::Obliterate(Site::NewLower).attempt(w);
                    let g3 = |u: (), w: World| Flow::Fail(c, w);
                    super::faithful_attempt(Action::Obliterate(Site::NewLower));
                    assert forall|u: ()| super::faithful(#[trigger] super::going_on(g3, u)) by {
                        super::faithful_fail::<()>(c);
                        assert(super::going_on(g3, u) =~= |w: World| Flow::Fail(c, w));
                    }
                    super::faithful_bind(f3, g3, super::going_on(g2, r));
                },
            }
        }
        super::faithful_settle(f2, g2, super::going_on(g, u));
    }
    super::faithful_bind(f, g, h);
}

/// [`crate::overlay::swapping`] does over a record what it does on a disk.
pub proof fn faithful_swapping()
    ensures
        super::faithful(|w: World| crate::overlay::swapping(w)),
{
    let h = |w: World| crate::overlay::swapping(w);
    let f = |w: World| Action::MoveSite(Site::Lower, Site::Backup).run(w);
    let g = |u: (), w: World|
        Action::MoveSite(Site::NewLower, Site::Lower).run(w).settle(
            |r: Result<(), i32>, w: World|
                match r {
                    Ok(_) => Action::Obliterate(Site::Backup).attempt(w),
                    Err(c) => Action::MoveSite(Site::Backup, Site::Lower).attempt(w).bind(
                        |u: (), w: World| Flow::Fail(c, w),
                    ),
                },
        );
    super::faithful_run(Action::MoveSite(Site::Lower, Site::Backup));
    assert forall|u: ()| super::faithful(#[trigger] super::going_on(g, u)) by {
        let f2 = |w: World| Action::MoveSite(Site::NewLower, Site::Lower).run(w);
        let g2 = |r: Result<(), i32>, w: World|
            match r {
                Ok(_) => Action::Obliterate(Site::Backup).attempt(w),
                Err(c) => Action::MoveSite(Site::Backup, Site::Lower).attempt(w).bind(
                    |u: (), w: World| Flow::Fail(c, w),
                ),
            };
        super::faithful_run(Action::MoveSite(Site::NewLower, Site::Lower));
        assert forall|r: Result<(), i32>| super::faithful(#[trigger] super::going_on(g2, r)) by {
            match r {
                Ok(_) => {
                    super::faithful_attempt(Action::Obliterate(Site::Backup));
                    assert(super::going_on(g2, r) =~= |w: World|
                        Action::Obliterate(Site::Backup).attempt(w));
                },
                Err(c) => {
                    let f3 = |w: World| Action::MoveSite(Site::Backup, Site::Lower).attempt(w);
                    let g3 = |u: (), w: World| Flow::Fail(c, w);
                    super::faithful_attempt(Action::MoveSite(Site::Backup, Site::Lower));
                    assert forall|u: ()| super::faithful(#[trigger] super::going_on(g3, u)) by {
                        super::faithful_fail::<()>(c);
                        assert(super::going_on(g3, u) =~= |w: World| Flow::Fail(c, w));
                    }
                    super::faithful_bind(f3, g3, super::going_on(g2, r));
                },
            }
        }
        super::faithful_settle(f2, g2, super::going_on(g, u));
    }
    super::faithful_bind(f, g, h);
}

/// [`crate::overlay::committing_atomic`] does over a record what it does on a disk.
pub proof fn faithful_committing_atomic()
    ensures
        super::faithful(|w: World| crate::overlay::committing_atomic(w)),
{
    let h = |w: World| crate::overlay::committing_atomic(w);
    let f = |w: World| Action::Exists(Site::Upper).test(w);
    let g = |there: bool, w: World|
        if !there {
            Flow::Got((), w)
        } else {
            crate::overlay::clearing_site(Site::NewLower, w).bind(
                |u: (), w: World|
                    crate::overlay::clearing_site(Site::Backup, w).bind(
                        |u: (), w: World|
                            crate::overlay::preparing(w).bind(|u: (), w: World| crate::overlay::swapping(w)),
                    ),
            )
        };
    super::faithful_test(Action::Exists(Site::Upper));
    assert forall|there: bool| super::faithful(#[trigger] super::going_on(g, there)) by {
        if !there {
            super::faithful_got(());
            assert(super::going_on(g, there) =~= |w: World| Flow::Got((), w));
        } else {
            let f2 = |w: World| crate::overlay::clearing_site(Site::NewLower, w);
            let g2 = |u: (), w: World|
                crate::overlay::clearing_site(Site::Backup, w).bind(
                    |u: (), w: World|
                        crate::overlay::preparing(w).bind(|u: (), w: World| crate::overlay::swapping(w)),
                );
            faithful_clearing_site(Site::NewLower);
            assert forall|u: ()| super::faithful(#[trigger] super::going_on(g2, u)) by {
                let f3 = |w: World| crate::overlay::clearing_site(Site::Backup, w);
                let g3 = |u: (), w: World|
                    crate::overlay::preparing(w).bind(|u: (), w: World| crate::overlay::swapping(w));
                faithful_clearing_site(Site::Backup);
                assert forall|u: ()| super::faithful(#[trigger] super::going_on(g3, u)) by {
                    let f4 = |w: World| crate::overlay::preparing(w);
                    let g4 = |u: (), w: World| crate::overlay::swapping(w);
                    faithful_preparing();
                    assert forall|u: ()| super::faithful(#[trigger] super::going_on(g4, u)) by {
                        faithful_swapping();
                        assert(super::going_on(g4, u) =~= |w: World| crate::overlay::swapping(w));
                    }
                    super::faithful_bind(f4, g4, super::going_on(g3, u));
                }
                super::faithful_bind(f3, g3, super::going_on(g2, u));
            }
            super::faithful_bind(f2, g2, super::going_on(g, there));
        }
    }
    super::faithful_bind(f, g, h);
}

/// [`crate::overlay::closing`] does over a record what it does on a disk.
pub proof fn faithful_closing(serving: bool, at_root: bool, action: OverlayAction)
    ensures
        super::faithful(|w: World| crate::overlay::closing(serving, at_root, action, w)),
{
    let h = |w: World| crate::overlay::closing(serving, at_root, action, w);
    if serving {
        let f = |w: World| crate::overlay::unmounting(true, at_root, w);
        let g = |u: (), w: World| crate::overlay::finishing(action, w);
        faithful_unmounting(true, at_root);
        assert forall|u: ()| super::faithful(#[trigger] super::going_on(g, u)) by {
            faithful_finishing(action);
            assert(super::going_on(g, u) =~= |w: World| crate::overlay::finishing(action, w));
        }
        super::faithful_bind(f, g, h);
    } else {
        faithful_finishing(action);
        assert(h =~= |w: World| crate::overlay::finishing(action, w));
    }
}

/// [`crate::overlay::waiting`] does over a record what it does on a disk.
pub proof fn faithful_waiting(at_root: bool, n: nat)
    ensures
        super::faithful(|w: World| crate::overlay::waiting(at_root, n, w)),
    decreases n,
{
    let h = |w: World| crate::overlay::waiting(at_root, n, w);
    if n == 0 {
        super::faithful_got(());
        assert(h =~= |w: World| Flow::Got((), w));
    } else {
        let m = (n - 1) as nat;
        let f = |w: World| crate::overlay::checking(at_root, w);
        let g = |mounted: bool, w: World|
            if !mounted {
                Flow::Got((), w)
            } else {
                Action::Pause.attempt(w).bind(
                    |u: (), w: World| crate::overlay::waiting(at_root, m, w),
                )
            };
        faithful_checking(at_root);
        assert forall|mounted: bool| super::faithful(#[trigger] super::going_on(g, mounted)) by {
            if !mounted {
                super::faithful_got(());
                assert(super::going_on(g, mounted) =~= |w: World| Flow::Got((), w));
            } else {
                let f2 = |w: World| Action::Pause.attempt(w);
                let g2 = |u: (), w: World| crate::overlay::waiting(at_root, m, w);
                super::faithful_attempt(Action::Pause);
                assert forall|u: ()| super::faithful(#[trigger] super::going_on(g2, u)) by {
                    faithful_waiting(at_root, m);
                    assert(super::going_on(g2, u) =~= |w: World|
                        crate::overlay::waiting(at_root, m, w));
                }
                super::faithful_bind(f2, g2, super::going_on(g, mounted));
            }
        }
        super::faithful_bind(f, g, h);
    }
}

/// [`crate::overlay::concluding`] does over a record what it does on a disk, if the commit does.
pub proof fn faithful_concluding(f: spec_fn(World) -> Flow<()>)
    requires
        super::faithful(f),
    ensures
        super::faithful(|w: World| crate::overlay::concluding(f(w))),
{
    let h = |w: World| crate::overlay::concluding(f(w));
    let g = |r: Result<(), i32>, w: World|
        match r {
            Ok(_) => Action::Obliterate(Site::Upper).attempt(w),
            Err(_) => Action::Report.attempt(w),
        };
    assert forall|r: Result<(), i32>| super::faithful(#[trigger] super::going_on(g, r)) by {
        let a = match r {
            Ok(_) => Action::Obliterate(Site::Upper),
            Err(_) => Action::Report,
        };
        super::faithful_attempt(a);
        assert(super::going_on(g, r) =~= |w: World| a.attempt(w));
    }
    super::faithful_settle(f, g, h);
}

/// [`crate::overlay::finishing`] does over a record what it does on a disk.
pub proof fn faithful_finishing(action: OverlayAction)
    ensures
        super::faithful(|w: World| crate::overlay::finishing(action, w)),
{
    let h = |w: World| crate::overlay::finishing(action, w);
    match action {
        OverlayAction::Preserve => {
            super::faithful_got(());
            assert(h =~= |w: World| Flow::Got((), w));
        },
        OverlayAction::Discard => {
            super::faithful_attempt(Action::Obliterate(Site::Upper));
            assert(h =~= |w: World| Action::Obliterate(Site::Upper).attempt(w));
        },
        OverlayAction::Commit => {
            let f = |w: World| crate::overlay::committing_changes(w);
            faithful_committing_changes();
            faithful_concluding(f);
            assert(h =~= |w: World| crate::overlay::concluding(f(w)));
        },
        OverlayAction::CommitAtomic => {
            let f = |w: World| crate::overlay::committing_atomic(w);
            faithful_committing_atomic();
            faithful_concluding(f);
            assert(h =~= |w: World| crate::overlay::concluding(f(w)));
        },
    }
}

} // verus!
