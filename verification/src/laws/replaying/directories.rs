//! Directories over a record.

use crate::errno::ENOTEMPTY;
use crate::fuse_ops::OverlayOps;
use crate::layers::{LayerManager, Place};
use crate::listing::Shown;
use crate::protocol::{Action, Flow, Named, Spot, Which, World};
use vstd::prelude::*;

verus! {

/// [`crate::listing::closed_off`] does over a record what it does on a disk.
pub proof fn faithful_closed_off(depth: nat)
    ensures
        super::faithful(|w: World| crate::listing::closed_off(depth, w)),
{
    let h = |w: World| crate::listing::closed_off(depth, w);
    let f = |w: World| crate::xattr::sealed(Spot::upper(Which::First), w);
    let g = |opaque: bool, w: World|
        if opaque {
            Flow::Got(true, w)
        } else {
            LayerManager::covering(Which::First, 0, depth, w)
        };
    super::attributes::faithful_sealed(Spot::upper(Which::First));
    assert forall|opaque: bool| super::faithful(#[trigger] super::going_on(g, opaque)) by {
        if opaque {
            super::faithful_got(true);
            assert(super::going_on(g, opaque) =~= |w: World| Flow::Got(true, w));
        } else {
            super::layers::faithful_covering(Which::First, 0, depth);
            assert(super::going_on(g, opaque) =~= |w: World|
                LayerManager::covering(Which::First, 0, depth, w));
        }
    }
    super::faithful_bind(f, g, h);
}

/// [`crate::listing::listing`] does over a record what it does on a disk.
pub proof fn faithful_listing(depth: nat)
    ensures
        super::faithful(|w: World| crate::listing::listing(depth, w)),
{
    let h = |w: World| crate::listing::listing(depth, w);
    let f = |w: World| Action::ReadDir(Spot::upper(Which::First)).names(w);
    let g = |upper: Seq<Named>, w: World|
        crate::listing::closed_off(depth, w).bind(
            |opaque: bool, w: World|
                if opaque {
                    Flow::Got(crate::listing::merged_listing(upper, Seq::empty()), w)
                } else {
                    Action::ReadDir(Spot::lower(Which::First)).names(w).bind(
                        |lower: Seq<Named>, w: World|
                            Flow::Got(crate::listing::merged_listing(upper, lower), w),
                    )
                },
        );
    super::faithful_names(Action::ReadDir(Spot::upper(Which::First)));
    assert forall|upper: Seq<Named>| super::faithful(#[trigger] super::going_on(g, upper)) by {
        let f2 = |w: World| crate::listing::closed_off(depth, w);
        let g2 = |opaque: bool, w: World|
            if opaque {
                Flow::Got(crate::listing::merged_listing(upper, Seq::empty()), w)
            } else {
                Action::ReadDir(Spot::lower(Which::First)).names(w).bind(
                    |lower: Seq<Named>, w: World|
                        Flow::Got(crate::listing::merged_listing(upper, lower), w),
                )
            };
        faithful_closed_off(depth);
        assert forall|opaque: bool| super::faithful(#[trigger] super::going_on(g2, opaque)) by {
            if opaque {
                super::faithful_got::<Seq<Shown>>(crate::listing::merged_listing(upper, Seq::empty()));
                assert(super::going_on(g2, opaque) =~= |w: World|
                    Flow::Got(crate::listing::merged_listing(upper, Seq::empty()), w));
            } else {
                let f3 = |w: World| Action::ReadDir(Spot::lower(Which::First)).names(w);
                let g3 = |lower: Seq<Named>, w: World|
                    Flow::Got(crate::listing::merged_listing(upper, lower), w);
                super::faithful_names(Action::ReadDir(Spot::lower(Which::First)));
                assert forall|lower: Seq<Named>| super::faithful(
                    #[trigger] super::going_on(g3, lower),
                ) by {
                    super::faithful_got(crate::listing::merged_listing(upper, lower));
                    assert(super::going_on(g3, lower) =~= |w: World|
                        Flow::Got(crate::listing::merged_listing(upper, lower), w));
                }
                super::faithful_bind(f3, g3, super::going_on(g2, opaque));
            }
        }
        super::faithful_bind(f2, g2, super::going_on(g, upper));
    }
    super::faithful_bind(f, g, h);
}

/// [`OverlayOps::removing_dir`] does over a record what it does on a disk.
pub proof fn faithful_removing_dir(place: Place)
    ensures
        super::faithful(|w: World| OverlayOps::removing_dir(place, w)),
{
    let h = |w: World| OverlayOps::removing_dir(place, w);
    let f = |w: World| crate::listing::listing(place.depth, w);
    let g = |list: Seq<Shown>, w: World|
        if list.len() > 0 {
            Flow::Fail(ENOTEMPTY, w)
        } else {
            OverlayOps::dropping(Action::RemoveTree(Spot::upper(Which::First)), w).bind(
                |u: (), w: World|
                    OverlayOps::covering(place, w).settle(
                        |r: Result<(), i32>, w: World| Flow::Got((), w),
                    ),
            )
        };
    faithful_listing(place.depth);
    assert forall|list: Seq<Shown>| super::faithful(#[trigger] super::going_on(g, list)) by {
        if list.len() > 0 {
            super::faithful_fail::<()>(ENOTEMPTY);
            assert(super::going_on(g, list) =~= |w: World| Flow::Fail(ENOTEMPTY, w));
        } else {
            let f2 = |w: World|
                OverlayOps::dropping(Action::RemoveTree(Spot::upper(Which::First)), w);
            let g2 = |u: (), w: World|
                OverlayOps::covering(place, w).settle(
                    |r: Result<(), i32>, w: World| Flow::Got((), w),
                );
            super::entries::faithful_dropping(Action::RemoveTree(Spot::upper(Which::First)));
            assert forall|u: ()| super::faithful(#[trigger] super::going_on(g2, u)) by {
                let f3 = |w: World| OverlayOps::covering(place, w);
                let g3 = |r: Result<(), i32>, w: World| Flow::Got((), w);
                super::entries::faithful_covering(place);
                assert forall|r: Result<(), i32>| super::faithful(
                    #[trigger] super::going_on(g3, r),
                ) by {
                    super::faithful_got(());
                    assert(super::going_on(g3, r) =~= |w: World| Flow::Got((), w));
                }
                super::faithful_settle(f3, g3, super::going_on(g2, u));
            }
            super::faithful_bind(f2, g2, super::going_on(g, list));
        }
    }
    super::faithful_bind(f, g, h);
}

} // verus!
