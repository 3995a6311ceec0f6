//! Moving entries and giving them a second path.

use crate::errno::{EEXIST, ENOENT, ENOTSUP};
use crate::fuse_ops::{OverlayOps, RENAME_EXCHANGE, RENAME_NOREPLACE};
use crate::layers::{LayerManager, Place};
use crate::model::{Disk, Node};
use crate::protocol::{Action, Flow, Layer, Spot, Which, World};
use vstd::prelude::*;

verus! {

/// The first entry is a directory of both layers in which what the lower one holds is seen.
pub open spec fn is_merged(d: Disk, place: Place) -> bool {
    &&& d.at(Spot::upper(Which::First)) matches Some(up) && up.is_dir()
    &&& d.at(Spot::lower(Which::First)) matches Some(low) && low.is_dir()
    &&& !crate::laws::directories::shut(d, place.depth)
}

/// The node is what is found under the first path, or what that is brought up as: a
/// directory comes with all that is seen in it, anything else with its extended attributes
/// and, where nothing fails, with its times and its owner.
pub open spec fn is_first(d: Disk, place: Place, n: Node) -> bool {
    match crate::laws::layering::seen(d, place, Which::First) {
        None => false,
        Some(Layer::Upper) => {
            let up = d.at(Spot::upper(Which::First))->0;
            n == if is_merged(d, place) {
                Node {
                    items: crate::listing::joined(
                        up.items,
                        d.at(Spot::lower(Which::First))->0.items,
                    ),
                    ..up
                }
            } else {
                up
            }
        },
        Some(Layer::Lower) => {
            let low = d.at(Spot::lower(Which::First))->0;
            if low.is_dir() {
                n == low
            } else {
                &&& crate::laws::layering::copied(low, n)
                &&& n.xattrs == low.xattrs
                &&& crate::model::never_faults(d) ==> crate::laws::layering::kept_from(low, n)
            }
        },
    }
}

/// Asking whether a directory is merged tells the truth and changes nothing.
proof fn lemma_open(d: Disk, place: Place)
    ensures
        OverlayOps::is_open(place, World::Disk(d)) matches Flow::Got(yes, World::Disk(e)) && yes
            == is_merged(d, place) && crate::model::only_later(d, e),
{
    let up = Spot::upper(Which::First);
    let low = Spot::lower(Which::First);
    crate::model::step_lstat(d, up);
    let d1 = d.after(Action::Lstat(up));
    crate::model::step_lstat(d1, low);
    let d2 = d1.after(Action::Lstat(low));
    crate::laws::layering::law_opaque(d2, up);
    if let Flow::Got(_, World::Disk(d3)) = crate::xattr::sealed(up, World::Disk(d2)) {
        crate::laws::layering::law_covering(d3, Which::First, 0, place.depth);
        crate::laws::layering::lemma_covered_same(d, d3, Which::First, 0, place.depth);
    }
}

/// An entry of a directory that is brought up with all that is seen in it: one that is seen
/// in the lower layer is in the upper layer then, one that is seen in the upper layer or not
/// at all stays as it is. The entries of a directory follow if they are seen. The lower layer
/// is as it was. Where nothing fails, this succeeds, and it does not fail over times or an
/// owner that could not be set.
pub proof fn law_copy_tree_entry(d: Disk, place: Place)
    ensures
        match OverlayOps::copying_entry(place, World::Disk(d)) {
            Flow::Got(go, World::Disk(e)) => {
                let up = Spot::upper(Which::First);
                match crate::laws::layering::seen(d, place, Which::First) {
                    None => !go && crate::model::only_later(d, e),
                    Some(Layer::Upper) => go == is_merged(d, place) && crate::model::only_later(
                        d,
                        e,
                    ),
                    Some(Layer::Lower) => {
                        let low = d.at(Spot::lower(Which::First))->0;
                        &&& go == low.is_dir()
                        &&& crate::laws::layering::seen(e, place, Which::First) == Some(
                            Layer::Upper,
                        )
                        &&& crate::laws::layering::copied(low, e.at(up)->0)
                        &&& e.at(up)->0.xattrs == low.xattrs
                        &&& crate::model::never_faults(d) ==> crate::laws::layering::kept_from(
                            low,
                            e.at(up)->0,
                        )
                        &&& crate::model::lower_kept(d, e)
                        &&& crate::model::all_but(d, e, up)
                    },
                }
            },
            Flow::Fail(c, World::Disk(e)) => {
                &&& crate::model::all_but(d, e, Spot::upper(Which::First))
                &&& !crate::model::never_faults(d)
                &&& crate::model::blames(e, c)
                &&& !crate::laws::layering::trifling(e)
            },
            _ => false,
        },
{
    crate::laws::layering::law_resolve(d, place, Which::First);
    if let Flow::Got(at, World::Disk(d1)) = LayerManager::resolving(
        place,
        Which::First,
        World::Disk(d),
    ) {
        if at == Some(Layer::Upper) {
            lemma_open(d1, place);
            crate::laws::layering::lemma_covered_same(d, d1, Which::First, 0, place.depth);
        }
        if at == Some(Layer::Lower) {
            let low = Spot::lower(Which::First);
            crate::model::step_lstat(d1, low);
            let d2 = d1.after(Action::Lstat(low));
            crate::laws::layering::lemma_carrying(d2, Which::First);
        }
    }
}

proof fn lemma_fetching(d: Disk, place: Place)
    ensures
        match OverlayOps::fetching(place, World::Disk(d)) {
            Flow::Got(_, World::Disk(e)) => {
                let up = Spot::upper(Which::First);
                &&& crate::model::all_but(d, e, up)
                &&& e.at(up) is Some && is_first(d, place, e.at(up)->0)
            },
            Flow::Fail(c, World::Disk(e)) => {
                &&& crate::model::all_but(d, e, Spot::upper(Which::First))
                &&& crate::laws::layering::seen(d, place, Which::First) is None ==> c == ENOENT
                    && crate::model::only_later(d, e)
                &&& crate::laws::layering::seen(d, place, Which::First) is Some
                    ==> crate::model::blames(e, c) && !crate::laws::layering::trifling(e)
                &&& crate::model::never_faults(d) ==> crate::laws::layering::seen(
                    d,
                    place,
                    Which::First,
                ) is None
            },
            _ => false,
        },
{
    let up = Spot::upper(Which::First);
    let low = Spot::lower(Which::First);
    crate::laws::layering::law_resolve(d, place, Which::First);
    if crate::laws::layering::seen(d, place, Which::First) == Some(Layer::Lower) {
        if let Flow::Got(_, World::Disk(d1)) = LayerManager::resolving(
            place,
            Which::First,
            World::Disk(d),
        ) {
            crate::model::step_lstat(d1, low);
            let d2 = d1.after(Action::Lstat(low));
            crate::laws::layering::lemma_seen_same(d, d2, place, Which::First);
            if d.at(low)->0.is_dir() {
                let copy = Action::CopyTree(low, up);
                crate::model::step_change(d2, copy);
                crate::model::step_frame(d2, copy);
                reveal(Disk::changed);
                reveal(Disk::possible);
            } else {
                crate::laws::layering::law_promotion(d2, place, Which::First);
                crate::laws::layering::law_promotion_frame(d2, place, Which::First);
                if crate::model::never_faults(d) {
                    crate::laws::layering::law_promotion_succeeds(d2, place, Which::First);
                }
            }
        }
    } else if crate::laws::layering::seen(d, place, Which::First) == Some(Layer::Upper) {
        if let Flow::Got(_, World::Disk(d1)) = LayerManager::resolving(
            place,
            Which::First,
            World::Disk(d),
        ) {
            crate::laws::layering::lemma_covered_same(d, d1, Which::First, 0, place.depth);
            lemma_open(d1, place);
            if let Flow::Got(_, World::Disk(d2)) = OverlayOps::is_open(place, World::Disk(d1)) {
                let copy = Action::CopyTree(low, up);
                crate::model::step_change(d2, copy);
                crate::model::step_frame(d2, copy);
                reveal(Disk::changed);
                reveal(Disk::possible);
            }
        }
    }
}

proof fn lemma_refusing_taken(d: Disk, flags: u32, place: Place)
    ensures
        if flags & RENAME_NOREPLACE != 0 && crate::laws::layering::seen(
            d,
            place,
            Which::Second,
        ) is Some {
            OverlayOps::refusing_taken(flags, place, World::Disk(d)) matches Flow::Fail(
                c,
                World::Disk(e),
            ) && c == EEXIST && crate::model::only_later(d, e)
        } else {
            OverlayOps::refusing_taken(flags, place, World::Disk(d)) matches Flow::Got(
                _,
                World::Disk(e),
            ) && crate::model::only_later(d, e)
        },
{
    crate::laws::layering::law_resolve(d, place, Which::Second);
}

/// An existing entry is not replaced where that is forbidden: the answer is `EEXIST`, and
/// nothing has changed.
pub proof fn law_rename_noreplace(d: Disk, flags: u32, place: Place, place_new: Place)
    requires
        flags & RENAME_NOREPLACE != 0,
        crate::laws::layering::seen(d, place_new, Which::Second) is Some,
    ensures
        OverlayOps::renaming(flags, place, place_new, World::Disk(d)) matches Flow::Fail(
            c,
            World::Disk(e),
        ) && c == EEXIST && crate::model::only_later(d, e),
{
    lemma_refusing_taken(d, flags, place_new);
}

/// Entries are not swapped: the answer is `ENOTSUP`, and nothing has changed.
pub proof fn law_rename_exchange(d: Disk, flags: u32, place: Place, place_new: Place)
    requires
        flags & RENAME_EXCHANGE != 0,
        flags & RENAME_NOREPLACE == 0,
    ensures
        OverlayOps::renaming(flags, place, place_new, World::Disk(d)) matches Flow::Fail(
            c,
            World::Disk(e),
        ) && c == ENOTSUP && crate::model::only_later(d, e),
{
    lemma_refusing_taken(d, flags, place_new);
}

/// What is found nowhere is not moved: the answer is `ENOENT`, and nothing has changed.
pub proof fn law_rename_needs_entry(d: Disk, place: Place, place_new: Place)
    requires
        crate::laws::layering::seen(d, place, Which::First) is None,
    ensures
        OverlayOps::renaming(0, place, place_new, World::Disk(d)) matches Flow::Fail(
            c,
            World::Disk(e),
        ) && c == ENOENT && crate::model::only_later(d, e),
{
    assert(0u32 & RENAME_NOREPLACE == 0 && 0u32 & RENAME_EXCHANGE == 0) by (bit_vector);
    lemma_refusing_taken(d, 0, place_new);
    if let Flow::Got(_, World::Disk(d1)) = OverlayOps::refusing_taken(
        0,
        place_new,
        World::Disk(d),
    ) {
        lemma_fetching(d1, place);
    }
}

/// The last steps of moving an entry.
pub open spec fn settling(place: Place, place_new: Place, w: World) -> Flow<()> {
    OverlayOps::covering(place, w).settle(
        |r: Result<(), i32>, w: World| LayerManager::clearing(place_new.named, Which::Second, w),
    )
}

proof fn lemma_settling(d: Disk, place: Place, place_new: Place)
    ensures
        settling(place, place_new, World::Disk(d)) matches Flow::Got(_, World::Disk(e)) && {
            let wh1 = Spot::whiteout(Which::First);
            let wh2 = Spot::whiteout(Which::Second);
            &&& forall|s: Spot| s != wh1 && s != wh2 ==> #[trigger] e.at(s) == d.at(s)
            &&& crate::model::rest_kept(d, e)
            &&& crate::model::never_faults(d) && place.named && d.at(wh1) is None && d.at(
                Spot::lower(Which::First),
            ) is Some ==> e.at(wh1) is Some
            &&& crate::model::never_faults(d) && place_new.named
                && crate::laws::entries::plain_marker(d, Which::Second) ==> e.at(wh2) is None
            &&& d.at(Spot::lower(Which::First)) is None ==> e.at(wh1) == d.at(wh1)
            &&& d.at(wh2) is None ==> e.at(wh2) is None
        },
{
    let wh1 = Spot::whiteout(Which::First);
    let wh2 = Spot::whiteout(Which::Second);
    crate::laws::entries::lemma_covering(d, place);
    let d1 = match OverlayOps::covering(place, World::Disk(d)) {
        Flow::Got(_, World::Disk(e)) => e,
        Flow::Fail(_, World::Disk(e)) => e,
        _ => d,
    };
    crate::laws::entries::lemma_clearing(d1, place_new, Which::Second);
    assert(d1.at(wh2) == d.at(wh2));
    if let Flow::Got(_, World::Disk(e)) = LayerManager::clearing(
        place_new.named,
        Which::Second,
        World::Disk(d1),
    ) {
        assert(e.at(wh1) == d1.at(wh1));
        assert forall|s: Spot| s != wh1 && s != wh2 implies #[trigger] e.at(s) == d.at(s) by {
            assert(e.at(s) == d1.at(s));
        }
    }
}

/// A moved entry is in the upper layer under its new path, with all that it had: kind,
/// content, target, permissions and extended attributes, and where nothing fails its times and
/// its owner. Its upper entry under the old path is gone; nothing else has changed but the
/// markers of the two paths, and without a lower entry the old path gets none. Where nothing
/// fails, the old path is found nowhere and the new one in the upper layer. A move that fails
/// leaves everything as it was, but that the entry may have been brought up.
pub proof fn law_rename(d: Disk, flags: u32, place: Place, place_new: Place)
    ensures
        match OverlayOps::renaming(flags, place, place_new, World::Disk(d)) {
            Flow::Got(_, _) => true,
            Flow::Fail(c, World::Disk(e)) => {
                let taken = flags & RENAME_NOREPLACE != 0 && crate::laws::layering::seen(
                    d,
                    place_new,
                    Which::Second,
                ) is Some;
                let found = crate::laws::layering::seen(d, place, Which::First) is Some;
                &&& crate::model::all_but(d, e, Spot::upper(Which::First))
                &&& taken ==> c == EEXIST
                &&& !taken && flags & RENAME_EXCHANGE != 0 ==> c == ENOTSUP
                &&& !taken && flags & RENAME_EXCHANGE == 0 && !found ==> c == ENOENT
                &&& !taken && flags & RENAME_EXCHANGE == 0 && found ==> crate::model::blames(e, c)
                    && !crate::laws::layering::trifling(e)
            },
            _ => false,
        },
        OverlayOps::renaming(flags, place, place_new, World::Disk(d)) matches Flow::Got(
            _,
            World::Disk(e),
        ) ==> {
            let from = Spot::upper(Which::First);
            let to = Spot::upper(Which::Second);
            let wh1 = Spot::whiteout(Which::First);
            let wh2 = Spot::whiteout(Which::Second);
            &&& crate::laws::layering::seen(d, place, Which::First) is Some
            &&& e.at(to) is Some && is_first(d, place, e.at(to)->0)
            &&& e.at(from) is None
            &&& crate::model::lower_kept(d, e)
            &&& forall|s: Spot|
                s != from && s != to && s != wh1 && s != wh2 ==> #[trigger] e.at(s) == d.at(s)
            &&& d.at(Spot::lower(Which::First)) is None ==> e.at(wh1) == d.at(wh1)
            &&& d.at(wh2) is None ==> e.at(wh2) is None
            &&& crate::model::rest_kept(d, e)
            &&& crate::model::never_faults(d) && place.named ==> crate::laws::layering::seen(
                e,
                place,
                Which::First,
            ) is None
            &&& crate::model::never_faults(d) && crate::laws::entries::plain_marker(
                d,
                Which::Second,
            ) ==> crate::laws::layering::seen(e, place_new, Which::Second) == Some(Layer::Upper)
        },
{
    let from = Spot::upper(Which::First);
    let to = Spot::upper(Which::Second);
    let wh1 = Spot::whiteout(Which::First);
    let wh2 = Spot::whiteout(Which::Second);
    lemma_refusing_taken(d, flags, place_new);
    if let Flow::Got(_, World::Disk(d1)) = OverlayOps::refusing_taken(
        flags,
        place_new,
        World::Disk(d),
    ) {
        crate::laws::layering::lemma_seen_same(d, d1, place, Which::First);
        crate::laws::layering::lemma_covered_same(d, d1, Which::First, 0, place.depth);
        lemma_fetching(d1, place);
        if let Flow::Got(_, World::Disk(d2)) = OverlayOps::fetching(place, World::Disk(d1)) {
            crate::model::step_parents(d2, to);
            let d3 = d2.after(Action::MakeParents(to));
            let go = Action::Rename(from, to);
            crate::model::step_change(d3, go);
            crate::model::step_frame(d3, go);
            let d4 = d3.after(go);
            assert(d3.works(go) ==> d4.at(to) == d3.at(from) && d4.at(from) is None) by {
                reveal(Disk::changed);
                reveal(Disk::possible);
            }
            lemma_settling(d4, place, place_new);
            assert(d4.at(wh1) == d3.at(wh1));
            assert(d4.at(wh2) == d3.at(wh2));
            assert(d4.at(Spot::lower(Which::First)) == d3.at(Spot::lower(Which::First)));
        }
    }
}

/// A moved entry that came from the lower layer and is no directory keeps its times and its
/// owner, besides its kind, content, target, permissions and extended attributes, where nothing
/// fails.
pub proof fn law_rename_keeps_metadata(d: Disk, flags: u32, place: Place, place_new: Place)
    requires
        crate::model::never_faults(d),
        crate::laws::layering::seen(d, place, Which::First) == Some(Layer::Lower),
        !d.at(Spot::lower(Which::First))->0.is_dir(),
    ensures
        OverlayOps::renaming(flags, place, place_new, World::Disk(d)) matches Flow::Got(
            _,
            World::Disk(e),
        ) ==> {
            let low = d.at(Spot::lower(Which::First))->0;
            let now = e.at(Spot::upper(Which::Second))->0;
            &&& now.meta.atime == low.meta.atime
            &&& now.meta.mtime == low.meta.mtime
            &&& low.meta.uid != u32::MAX ==> now.meta.uid == low.meta.uid
            &&& low.meta.gid != u32::MAX ==> now.meta.gid == low.meta.gid
            &&& low.is_symlink() ==> now.is_symlink() && now.target == low.target
            &&& !low.is_symlink() ==> now.is_file() && now.data == low.data && now.meta.mode
                & 0o7777 == low.meta.mode & 0o7777
            &&& now.xattrs == low.xattrs
        },
{
    law_rename(d, flags, place, place_new);
}

/// Where nothing fails, an entry that is found can be moved, unless the two are to be swapped
/// or the new path is found and must not be replaced.
pub proof fn law_rename_by_flags_succeeds(d: Disk, flags: u32, place: Place, place_new: Place)
    requires
        crate::model::never_faults(d),
        crate::laws::layering::seen(d, place, Which::First) is Some,
        flags & RENAME_EXCHANGE == 0,
        flags & RENAME_NOREPLACE != 0 ==> crate::laws::layering::seen(
            d,
            place_new,
            Which::Second,
        ) is None,
    ensures
        OverlayOps::renaming(flags, place, place_new, World::Disk(d)) is Got,
{
    let from = Spot::upper(Which::First);
    let to = Spot::upper(Which::Second);
    lemma_refusing_taken(d, flags, place_new);
    if let Flow::Got(_, World::Disk(d1)) = OverlayOps::refusing_taken(
        flags,
        place_new,
        World::Disk(d),
    ) {
        crate::laws::layering::lemma_seen_same(d, d1, place, Which::First);
        lemma_fetching(d1, place);
        if let Flow::Got(_, World::Disk(d2)) = OverlayOps::fetching(place, World::Disk(d1)) {
            crate::model::step_parents(d2, to);
            let d3 = d2.after(Action::MakeParents(to));
            let go = Action::Rename(from, to);
            crate::model::step_change(d3, go);
            assert(d3.works(go)) by {
                assert(d3.at(from) == d2.at(from));
                reveal(Disk::possible);
            }
            lemma_settling(d3.after(go), place, place_new);
        }
    }
}

/// Where nothing fails, an entry that is found can be moved.
pub proof fn law_rename_succeeds(d: Disk, place: Place, place_new: Place)
    requires
        crate::model::never_faults(d),
        crate::laws::layering::seen(d, place, Which::First) is Some,
    ensures
        OverlayOps::renaming(0, place, place_new, World::Disk(d)) is Got,
{
    assert(0u32 & RENAME_NOREPLACE == 0 && 0u32 & RENAME_EXCHANGE == 0) by (bit_vector);
    law_rename_by_flags_succeeds(d, 0, place, place_new);
}

/// An entry with a second path is in the upper layer under both, the same in all, and it is
/// what was found under the first path; nothing else has changed but the marker of the second
/// path. Where nothing fails, an entry that is found can be given any path that has no upper
/// entry, and the new path is then found in the upper layer.
pub proof fn law_link(d: Disk, place: Place, place_new: Place)
    ensures
        match OverlayOps::linking(place, place_new, World::Disk(d)) {
            Flow::Got(meta, World::Disk(e)) => {
                let from = Spot::upper(Which::First);
                let to = Spot::upper(Which::Second);
                let wh2 = Spot::whiteout(Which::Second);
                &&& e.at(to) is Some && e.at(from) == e.at(to) && meta == e.at(to)->0.meta
                &&& crate::laws::layering::brought_up(d, place, Which::First, e.at(to)->0)
                &&& crate::laws::layering::seen(e, place, Which::First) == Some(Layer::Upper)
                &&& crate::model::lower_kept(d, e)
                &&& forall|s: Spot|
                    s != from && s != to && s != wh2 ==> #[trigger] e.at(s) == d.at(s)
                &&& d.at(to) is None
                &&& d.at(wh2) is None ==> e.at(wh2) is None
                &&& crate::model::rest_kept(d, e)
                &&& crate::model::never_faults(d) && crate::laws::entries::plain_marker(
                    d,
                    Which::Second,
                ) ==> crate::laws::layering::seen(e, place_new, Which::Second) == Some(
                    Layer::Upper,
                )
            },
            Flow::Fail(c, World::Disk(e)) => {
                &&& crate::model::all_but(d, e, Spot::upper(Which::First))
                &&& crate::laws::layering::seen(d, place, Which::First) is Some
                    ==> crate::model::blames(e, c)
                &&& crate::model::never_faults(d) ==> crate::laws::layering::seen(
                    d,
                    place,
                    Which::First,
                ) is None || d.at(Spot::upper(Which::Second)) is Some
            },
            _ => false,
        },
{
    let from = Spot::upper(Which::First);
    let to = Spot::upper(Which::Second);
    let wh2 = Spot::whiteout(Which::Second);
    crate::laws::layering::law_promotion(d, place, Which::First);
    crate::laws::layering::law_promotion_frame(d, place, Which::First);
    if crate::model::never_faults(d) && crate::laws::layering::seen(
        d,
        place,
        Which::First,
    ) is Some {
        crate::laws::layering::law_promotion_succeeds(d, place, Which::First);
    }
    if let Flow::Got(_, World::Disk(d1)) = LayerManager::promoting(
        place,
        Which::First,
        World::Disk(d),
    ) {
        crate::model::step_parents(d1, to);
        let d2 = d1.after(Action::MakeParents(to));
        let go = Action::HardLink(from, to);
        crate::model::step_change(d2, go);
        crate::model::step_frame(d2, go);
        let d3 = d2.after(go);
        assert(d2.possible(go) == (d2.at(from) is Some && d2.at(to) is None)) by {
            reveal(Disk::possible);
        }
        assert(d2.at(to) == d.at(to));
        assert(d2.works(go) ==> d3.at(to) == d2.at(from)) by {
            reveal(Disk::changed);
        }
        crate::laws::entries::lemma_clearing(d3, place_new, Which::Second);
        assert(d3.at(wh2) == d2.at(wh2));
        assert(d3.at(from) == d2.at(from));
        assert(d3.at(Spot::whiteout(Which::First)) == d2.at(Spot::whiteout(Which::First)));
        if let Flow::Got(_, World::Disk(d4)) = LayerManager::clearing(
            place_new.named,
            Which::Second,
            World::Disk(d3),
        ) {
            crate::model::step_lstat(d4, to);
        }
    }
}

} // verus!
