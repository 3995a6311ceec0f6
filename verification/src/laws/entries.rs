//! Looking up, creating and removing entries.

use crate::attr::FileAttr;
use crate::errno::{EISDIR, ENOENT};
use crate::fuse_ops::OverlayOps;
use crate::inode::Inodes;
use crate::layers::{LayerManager, Place};
use crate::model::{Disk, Node};
use crate::protocol::{Action, Answer, Flow, Layer, Meta, Spot, Stop, Which, World};
use vstd::prelude::*;

verus! {

/// The marker for a path, if it is there, is no directory.
pub open spec fn plain_marker(d: Disk, which: Which) -> bool {
    d.at(Spot::whiteout(which)) matches Some(n) ==> !n.is_dir()
}

/// Looking up an entry yields the metadata of the one that is found, or `ENOENT` if it is
/// hidden or not there; it changes nothing.
pub proof fn law_lookup(d: Disk, place: Place)
    ensures
        match crate::laws::layering::seen(d, place, Which::First) {
            Some(layer) => OverlayOps::inspecting(place, World::Disk(d)) matches Flow::Got(
                meta,
                World::Disk(e),
            ) && meta == d.at(Spot::entry(layer, Which::First))->0.meta
                && crate::model::only_later(d, e),
            None => OverlayOps::inspecting(place, World::Disk(d)) matches Flow::Fail(
                c,
                World::Disk(e),
            ) && c == ENOENT && crate::model::only_later(d, e),
        },
{
    crate::laws::layering::law_resolve(d, place, Which::First);
    if let Flow::Got(Some(layer), World::Disk(e)) = LayerManager::resolving(
        place,
        Which::First,
        World::Disk(d),
    ) {
        crate::model::step_lstat(e, Spot::entry(layer, Which::First));
    }
}

/// Reading the link under a path yields the target of the entry that is found there, if that
/// is a link; it changes nothing. What is no link is no answer, and what is not found is told
/// to be missing.
pub proof fn law_readlink(d: Disk, place: Place)
    ensures
        ({
            let flow = OverlayOps::reading_link(place, World::Disk(d));
            &&& match crate::laws::layering::seen(d, place, Which::First) {
                None => flow matches Flow::Fail(c, _) && c == ENOENT,
                Some(layer) => {
                    let n = d.at(Spot::entry(layer, Which::First))->0;
                    if n.is_symlink() {
                        flow matches Flow::Got(target, _) && target == n.target
                    } else {
                        flow is Fail
                    }
                },
            }
            &&& match flow {
                Flow::Got(_, World::Disk(e)) => {
                    &&& forall|s: Spot| #[trigger] e.at(s) == d.at(s)
                    &&& crate::model::rest_kept(d, e)
                },
                Flow::Fail(_, World::Disk(e)) => {
                    &&& forall|s: Spot| #[trigger] e.at(s) == d.at(s)
                    &&& crate::model::rest_kept(d, e)
                },
                _ => false,
            }
        }),
{
    crate::laws::layering::law_resolve(d, place, Which::First);
    if let Flow::Got(Some(layer), World::Disk(e)) = LayerManager::resolving(
        place,
        Which::First,
        World::Disk(d),
    ) {
        crate::model::step_readlink(e, Spot::entry(layer, Which::First));
    }
}

/// A link that was created is read back with the target that went out with the request, even
/// where it takes the place of a lower link.
pub proof fn law_symlink_round_trip(d: Disk, place: Place)
    requires
        d.hand is None,
        plain_marker(d, Which::First),
        crate::model::never_faults(d),
    ensures
        OverlayOps::making_link(place, World::Disk(d)) matches Flow::Got(_, w) ==> (
        OverlayOps::reading_link(place, w) matches Flow::Got(target, _) && target
            == d.load.target),
{
    law_symlink(d, place);
    if let Flow::Got(_, World::Disk(e)) = OverlayOps::making_link(place, World::Disk(d)) {
        law_readlink(e, place);
    }
}

/// The attributes of a number are made of the metadata of the entry that is found under its
/// path, and tell that number. A number without a path, and a path that is not found, are told
/// to be missing. Nothing is changed.
pub proof fn law_getattr(o: OverlayOps, ino: u64, d: Disk)
    ensures
        ({
            let flow = o.getting(ino, World::Disk(d));
            let found = match o.inodes@.path_of(ino) {
                None => None,
                Some(path) => crate::laws::content::found(d, LayerManager::place(path)),
            };
            match found {
                None => flow matches Flow::Fail(c, World::Disk(e)) && c == ENOENT
                    && crate::model::only_later(d, e),
                Some(n) => flow matches Flow::Got(attr, World::Disk(e)) && attr.ino == ino
                    && crate::attr::tells(attr, n.meta) && crate::model::only_later(d, e),
            }
        }),
{
    if let Some(path) = o.inodes@.path_of(ino) {
        law_lookup(d, LayerManager::place(path));
        if let Some(n) = crate::laws::content::found(d, LayerManager::place(path)) {
            crate::attr::law_attributes(ino, n.meta);
        }
    }
}

pub(crate) proof fn lemma_clearing(d: Disk, place: Place, which: Which)
    ensures
        LayerManager::clearing(place.named, which, World::Disk(d)) matches Flow::Got(
            _,
            World::Disk(e),
        ) && {
            &&& crate::model::all_but(d, e, Spot::whiteout(which))
            &&& d.at(Spot::whiteout(which)) is None ==> e.at(Spot::whiteout(which)) is None
            &&& place.named && crate::model::never_faults(d) && plain_marker(d, which) ==> e.at(
                Spot::whiteout(which),
            ) is None
        },
{
    let a = Action::RemoveFile(Spot::whiteout(which));
    crate::model::step_change(d, a);
    crate::model::step_frame(d, a);
    reveal(Disk::changed);
    reveal(Disk::possible);
}

pub(crate) proof fn lemma_unhiding(d: Disk, place: Place, which: Which)
    ensures
        match LayerManager::unhiding(place.named, which, World::Disk(d)) {
            Flow::Got(_, World::Disk(e)) => {
                &&& crate::model::all_but(d, e, Spot::whiteout(which))
                &&& place.named && (crate::model::never_faults(d) || d.at(Spot::whiteout(which)) is None)
                    && plain_marker(d, which) ==> e.at(Spot::whiteout(which)) is None
                &&& place.named && plain_marker(d, which) ==> e.at(Spot::whiteout(which)) is None
                    || (d.oracle.fault)(d.clock) == Some(Some(ENOENT))
            },
            Flow::Fail(c, World::Disk(e)) => {
                &&& crate::model::all_but(d, e, Spot::whiteout(which))
                &&& crate::model::blames(e, c)
                &&& crate::model::asked_last(e, Action::RemoveFile(Spot::whiteout(which)))
            },
            _ => false,
        },
{
    let a = Action::RemoveFile(Spot::whiteout(which));
    crate::model::step_change(d, a);
    crate::model::step_frame(d, a);
    assert(d.possible(a) && (d.oracle.fault)(d.clock) is Some ==> d.reply(a) == Answer::Failed(
        (d.oracle.fault)(d.clock)->0,
    )) by {
        reveal(Disk::reply);
    }
    reveal(Disk::changed);
    reveal(Disk::possible);
}

proof fn lemma_new_mode(d: Disk, mode: Option<u32>)
    requires
        d.at(Spot::upper(Which::First)) is Some,
    ensures
        OverlayOps::set_new_mode(mode, World::Disk(d)) matches Flow::Got(_, World::Disk(e)) && {
            let up = Spot::upper(Which::First);
            &&& crate::model::all_but(d, e, up)
            &&& e.at(up) is Some
            &&& e.at(up)->0.meta.kind == d.at(up)->0.meta.kind
            &&& e.at(up)->0.data == d.at(up)->0.data
            &&& e.at(up)->0.target == d.at(up)->0.target
            &&& e.at(up)->0.items == d.at(up)->0.items
            &&& e.at(up)->0.xattrs == d.at(up)->0.xattrs
            &&& e.at(up)->0.meta == (Meta { mode: e.at(up)->0.meta.mode, ..d.at(up)->0.meta })
            &&& mode is None ==> e.at(up) == d.at(up)
            &&& mode matches Some(m) ==> (crate::model::never_faults(d) && !(d.at(
                up,
            )->0.is_symlink()) ==> e.at(up)->0.meta.mode & 0o7777 == m & 0o7777)
        },
{
    if let Some(m) = mode {
        let a = Action::SetMode(Spot::upper(Which::First), m);
        crate::model::step_change(d, a);
        crate::model::step_frame(d, a);
        crate::laws::layering::lemma_mode_kept(
            d.at(Spot::upper(Which::First))->0.meta.mode,
            m,
        );
        reveal(Disk::changed);
        reveal(Disk::possible);
    }
}

/// A file that was just created or emptied: it is empty, has the permissions that were asked
/// for where nothing fails, and has no extended attributes but those of a file that was there.
/// Its owner and its times are those of that file, else those that the system gave it.
pub open spec fn made_file(d: Disk, mode: Option<u32>, n: Node) -> bool {
    let was = d.at(Spot::upper(Which::First));
    &&& n.is_file() && n.data.len() == 0 && n.meta.size == 0
    &&& mode matches Some(m) ==> (crate::model::never_faults(d) ==> n.meta.mode & 0o7777 == m
        & 0o7777)
    &&& n.xattrs == match was {
        Some(w) => w.xattrs,
        None => Map::empty(),
    }
    &&& match was {
        Some(w) => crate::model::owned_alike(n.meta, w.meta),
        None => crate::model::as_born(d, n.meta),
    }
}

/// A link that was just created: it leads where it should and has no extended attributes.
pub open spec fn made_link(d: Disk, n: Node) -> bool {
    &&& d.at(Spot::upper(Which::First)) is None
    &&& n.is_symlink() && n.target == d.link_target()
    &&& n.xattrs == Map::<Seq<u8>, Seq<u8>>::empty()
    &&& crate::model::as_born(d, n.meta)
}

/// A node that was just created: it has the mode and the device number that were asked for,
/// no content and no extended attributes.
pub open spec fn made_node(d: Disk, mode: u32, rdev: u32, n: Node) -> bool {
    &&& d.at(Spot::upper(Which::First)) is None
    &&& n.meta.mode == mode && n.meta.rdev == rdev
    &&& n.data.len() == 0 && n.meta.size == 0
    &&& n.xattrs == Map::<Seq<u8>, Seq<u8>>::empty()
    &&& crate::model::as_born(d, n.meta)
}

/// Creating something: what comes out of `making` is an upper entry made by `make`.
proof fn lemma_making(d: Disk, place: Place, make: Action, mode: Option<u32>)
    requires
        make == Action::CreateFile(Spot::upper(Which::First)) || make == Action::MakeLink(
            Spot::upper(Which::First),
        ) || make is MakeNode && make->MakeNode_0 == Spot::upper(Which::First),
    ensures
        match OverlayOps::making(place, make, mode, World::Disk(d)) {
            Flow::Got(_, World::Disk(e)) => {
                let up = Spot::upper(Which::First);
                &&& forall|s: Spot|
                    s != up && s != Spot::whiteout(Which::First) ==> #[trigger] e.at(s) == d.at(s)
                &&& crate::model::rest_kept(d, e)
                &&& e.at(up) is Some
                &&& make is CreateFile ==> made_file(d, mode, e.at(up)->0)
                &&& make is MakeLink && mode is None ==> made_link(d, e.at(up)->0)
                &&& make matches Action::MakeNode(_, m, r) ==> (mode is None ==> made_node(
                    d,
                    m,
                    r,
                    e.at(up)->0,
                ))
                &&& !place.named ==> e.at(Spot::whiteout(Which::First)) == d.at(
                    Spot::whiteout(Which::First),
                )
                &&& d.at(Spot::whiteout(Which::First)) is None ==> e.at(
                    Spot::whiteout(Which::First),
                ) is None
                &&& place.named && crate::model::never_faults(d) && plain_marker(d, Which::First)
                    ==> e.at(Spot::whiteout(Which::First)) is None
            },
            Flow::Fail(c, World::Disk(e)) => {
                &&& crate::model::lower_kept(d, e)
                &&& crate::model::blames(e, c)
                &&& forall|s: Spot| #[trigger] e.at(s) == d.at(s)
                &&& crate::model::never_faults(d) ==> !d.possible(make)
            },
            _ => false,
        },
{
    let up = Spot::upper(Which::First);
    crate::model::step_parents(d, up);
    let d1 = d.after(Action::MakeParents(up));
    crate::model::step_change(d1, make);
    crate::model::step_frame(d1, make);
    let d2 = d1.after(make);
    assert(d1.possible(make) == d.possible(make)) by {
        reveal(Disk::possible);
    }
    if d1.works(make) {
        assert(d2.at(up) is Some && (make is CreateFile ==> made_file(d, None, d2.at(up)->0)) && (
        make is MakeLink ==> made_link(d, d2.at(up)->0)) && (make matches Action::MakeNode(_, m, r)
            ==> made_node(d, m, r, d2.at(up)->0))) by {
            reveal(Disk::changed);
            reveal(Disk::possible);
            assert(d1.oracle == d.oracle);
            assert(d1.at(up) == d.at(up));
            assert(d.at(up) is None ==> crate::model::owned_alike(
                d2.at(up)->0.meta,
                (d.oracle.born)(d1.clock),
            ));
        }
        lemma_new_mode(d2, mode);
        if let Flow::Got(_, World::Disk(d3)) = OverlayOps::set_new_mode(mode, World::Disk(d2)) {
            assert(crate::model::owned_alike(d3.at(up)->0.meta, d2.at(up)->0.meta));
            if crate::model::as_born(d, d2.at(up)->0.meta) {
                let t = choose|t: nat|
                    crate::model::owned_alike(
                        d2.at(up)->0.meta,
                        #[trigger] (d.oracle.born)(t),
                    );
                assert(crate::model::owned_alike(d3.at(up)->0.meta, (d.oracle.born)(t)));
            }
            lemma_clearing(d3, place, Which::First);
            assert(d3.at(Spot::whiteout(Which::First)) == d2.at(Spot::whiteout(Which::First)));
            assert(d2.at(Spot::whiteout(Which::First)) == d1.at(Spot::whiteout(Which::First)));
        }
    }
}

/// A new file is empty and, where nothing fails, has the permissions that were asked for.
/// Where its marker, if it had one, could be removed, it is found in the upper layer. Nothing
/// else has changed, and nothing at all if it fails.
pub proof fn law_create(d: Disk, place: Place, mode: u32)
    ensures
        match OverlayOps::making_file(place, mode, World::Disk(d)) {
            Flow::Got(_, World::Disk(_)) => true,
            Flow::Fail(c, World::Disk(e)) => {
                &&& forall|s: Spot| #[trigger] e.at(s) == d.at(s)
                &&& crate::model::blames(e, c)
            },
            _ => false,
        },
        OverlayOps::making_file(place, mode, World::Disk(d)) matches Flow::Got(
            meta,
            World::Disk(e),
        ) ==> {
            let up = Spot::upper(Which::First);
            &&& e.at(up) is Some && e.at(up)->0.is_file() && e.at(up)->0.data.len() == 0
            &&& made_file(d, Some(mode), e.at(up)->0)
            &&& crate::model::rest_kept(d, e)
            &&& meta == e.at(up)->0.meta
            &&& e.at(Spot::whiteout(Which::First)) is None || !place.named
                ==> crate::laws::layering::seen(e, place, Which::First) == Some(Layer::Upper)
            &&& forall|s: Spot|
                s != up && s != Spot::whiteout(Which::First) ==> #[trigger] e.at(s) == d.at(s)
        },
{
    let up = Spot::upper(Which::First);
    let make = Action::CreateFile(up);
    lemma_making(d, place, make, Some(mode));
    if let Flow::Got(_, World::Disk(d1)) = OverlayOps::making(
        place,
        make,
        Some(mode),
        World::Disk(d),
    ) {
        crate::model::step_stat(d1, up);
    }
}

/// Where nothing fails, a file can be created under any path that has no upper entry of
/// another kind, and is then found in the upper layer.
pub proof fn law_create_succeeds(d: Disk, place: Place, mode: u32)
    requires
        crate::model::never_faults(d),
        plain_marker(d, Which::First),
        d.at(Spot::upper(Which::First)) matches Some(n) ==> n.is_file(),
    ensures
        OverlayOps::making_file(place, mode, World::Disk(d)) matches Flow::Got(_, World::Disk(e))
            && crate::laws::layering::seen(e, place, Which::First) == Some(Layer::Upper),
{
    let up = Spot::upper(Which::First);
    let make = Action::CreateFile(up);
    lemma_making(d, place, make, Some(mode));
    assert(d.possible(make)) by {
        reveal(Disk::possible);
    }
    if let Flow::Got(_, World::Disk(d1)) = OverlayOps::making(
        place,
        make,
        Some(mode),
        World::Disk(d),
    ) {
        crate::model::step_stat(d1, up);
    }
}

/// A new link has the target that goes out with the request, is not followed, and nothing
/// else has changed, and nothing at all if it fails. Where nothing fails, it can be created
/// under any path that has no upper entry, and is then found in the upper layer.
pub proof fn law_symlink(d: Disk, place: Place)
    ensures
        match OverlayOps::making_link(place, World::Disk(d)) {
            Flow::Got(_, World::Disk(_)) => true,
            Flow::Fail(c, World::Disk(e)) => {
                &&& forall|s: Spot| #[trigger] e.at(s) == d.at(s)
                &&& crate::model::blames(e, c)
            },
            _ => false,
        },
        OverlayOps::making_link(place, World::Disk(d)) matches Flow::Got(meta, World::Disk(e)) ==> {
            let up = Spot::upper(Which::First);
            &&& e.at(up) is Some && e.at(up)->0.is_symlink()
            &&& d.hand is None ==> e.at(up)->0.target == d.load.target
            &&& made_link(d, e.at(up)->0)
            &&& crate::model::rest_kept(d, e)
            &&& meta == e.at(up)->0.meta
            &&& forall|s: Spot|
                s != up && s != Spot::whiteout(Which::First) ==> #[trigger] e.at(s) == d.at(s)
        },
        crate::model::never_faults(d) && plain_marker(d, Which::First) && d.at(
            Spot::upper(Which::First),
        ) is None ==> (OverlayOps::making_link(place, World::Disk(d)) matches Flow::Got(
            _,
            World::Disk(e),
        ) && crate::laws::layering::seen(e, place, Which::First) == Some(Layer::Upper)),
{
    let up = Spot::upper(Which::First);
    let make = Action::MakeLink(up);
    lemma_making(d, place, make, None);
    assert(d.at(up) is None ==> d.possible(make)) by {
        reveal(Disk::possible);
    }
    if let Flow::Got(_, World::Disk(d1)) = OverlayOps::making(
        place,
        make,
        None,
        World::Disk(d),
    ) {
        crate::model::step_lstat(d1, up);
    }
}

/// A new node is in the upper layer, with the mode and the device number that were asked
/// for, and nothing else has changed, nor anything at all if it fails. Where nothing fails, it
/// can be created under any path that has no upper entry, and is then found there.
pub proof fn law_mknod(d: Disk, place: Place, mode: u32, rdev: u32)
    ensures
        match OverlayOps::making_node(place, mode, rdev, World::Disk(d)) {
            Flow::Got(_, World::Disk(_)) => true,
            Flow::Fail(c, World::Disk(e)) => {
                &&& forall|s: Spot| #[trigger] e.at(s) == d.at(s)
                &&& crate::model::blames(e, c)
            },
            _ => false,
        },
        OverlayOps::making_node(place, mode, rdev, World::Disk(d)) matches Flow::Got(
            meta,
            World::Disk(e),
        ) ==> {
            let up = Spot::upper(Which::First);
            &&& e.at(up) is Some && meta == e.at(up)->0.meta
            &&& made_node(d, mode, rdev, e.at(up)->0)
            &&& crate::model::rest_kept(d, e)
            &&& forall|s: Spot|
                s != up && s != Spot::whiteout(Which::First) ==> #[trigger] e.at(s) == d.at(s)
        },
        crate::model::never_faults(d) && plain_marker(d, Which::First) && d.at(
            Spot::upper(Which::First),
        ) is None ==> (OverlayOps::making_node(place, mode, rdev, World::Disk(d)) matches Flow::Got(
            _,
            World::Disk(e),
        ) && crate::laws::layering::seen(e, place, Which::First) == Some(Layer::Upper)),
{
    let up = Spot::upper(Which::First);
    let make = Action::MakeNode(up, mode, rdev);
    lemma_making(d, place, make, None);
    assert(d.at(up) is None ==> d.possible(make)) by {
        reveal(Disk::possible);
    }
    if let Flow::Got(_, World::Disk(d1)) = OverlayOps::making(
        place,
        make,
        None,
        World::Disk(d),
    ) {
        crate::model::step_lstat(d1, up);
    }
}

pub(crate) proof fn lemma_refusing(d: Disk, place: Place, code: i32)
    ensures
        ({
            let at = crate::laws::layering::seen(d, place, Which::First);
            if at is Some && d.at(Spot::entry(at->0, Which::First))->0.is_dir() {
                OverlayOps::refusing_dir(place, code, World::Disk(d)) matches Flow::Fail(
                    c,
                    World::Disk(e),
                ) && c == code && crate::model::only_later(d, e)
            } else {
                OverlayOps::refusing_dir(place, code, World::Disk(d)) matches Flow::Got(
                    _,
                    World::Disk(e),
                ) && crate::model::only_later(d, e)
            }
        }),
{
    crate::laws::layering::law_resolve(d, place, Which::First);
    if let Flow::Got(Some(layer), World::Disk(e)) = LayerManager::resolving(
        place,
        Which::First,
        World::Disk(d),
    ) {
        crate::model::step_lstat(e, Spot::entry(layer, Which::First));
    }
}

pub(crate) proof fn lemma_dropping(d: Disk, remove: Action)
    requires
        remove == Action::RemoveFile(Spot::upper(Which::First)) || remove == Action::RemoveTree(
            Spot::upper(Which::First),
        ),
    ensures
        match OverlayOps::dropping(remove, World::Disk(d)) {
            Flow::Got(_, World::Disk(e)) => {
                &&& crate::model::all_but(d, e, Spot::upper(Which::First))
                &&& e.at(Spot::upper(Which::First)) is None
            },
            Flow::Fail(c, World::Disk(e)) => {
                &&& crate::model::only_later(d, e)
                &&& crate::model::blames(e, c)
                &&& crate::model::asked_last(e, remove)
                &&& crate::model::never_faults(d) ==> !d.possible(remove)
            },
            _ => false,
        },
{
    let up = Spot::upper(Which::First);
    crate::model::step_lstat(d, up);
    let d1 = d.after(Action::Lstat(up));
    crate::model::step_change(d1, remove);
    crate::model::step_frame(d1, remove);
    reveal(Disk::changed);
    reveal(Disk::possible);
}

proof fn lemma_whiting_out(d: Disk, place: Place)
    ensures
        match LayerManager::whiting_out(place.named, Which::First, World::Disk(d)) {
            Flow::Got(_, World::Disk(e)) => {
                &&& crate::model::all_but(d, e, Spot::whiteout(Which::First))
                &&& place.named ==> e.at(Spot::whiteout(Which::First)) is Some
            },
            Flow::Fail(c, World::Disk(e)) => {
                &&& crate::model::all_but(d, e, Spot::whiteout(Which::First))
                &&& crate::model::blames(e, c)
                &&& crate::model::never_faults(d) ==> !(d.at(Spot::whiteout(Which::First)) matches
                    Some(n) ==> n.is_file())
                &&& e.at(Spot::whiteout(Which::First)) == d.at(Spot::whiteout(Which::First))
            },
            _ => false,
        },
{
    let wh = Spot::whiteout(Which::First);
    crate::model::step_parents(d, wh);
    let d1 = d.after(Action::MakeParents(wh));
    crate::model::step_change(d1, Action::CreateFile(wh));
    crate::model::step_frame(d1, Action::CreateFile(wh));
    reveal(Disk::changed);
    reveal(Disk::possible);
}

pub(crate) proof fn lemma_covering(d: Disk, place: Place)
    ensures
        match OverlayOps::covering(place, World::Disk(d)) {
            Flow::Got(_, World::Disk(e)) => {
                &&& crate::model::all_but(d, e, Spot::whiteout(Which::First))
                &&& place.named && d.at(Spot::lower(Which::First)) is Some ==> e.at(
                    Spot::whiteout(Which::First),
                ) is Some
                &&& d.at(Spot::lower(Which::First)) is None ==> crate::model::only_later(d, e)
            },
            Flow::Fail(c, World::Disk(e)) => {
                &&& crate::model::all_but(d, e, Spot::whiteout(Which::First))
                &&& crate::model::blames(e, c)
                &&& crate::model::never_faults(d) ==> !(d.at(Spot::whiteout(Which::First)) matches
                    Some(n) ==> n.is_file())
                &&& e.at(Spot::whiteout(Which::First)) == d.at(Spot::whiteout(Which::First))
            },
            _ => false,
        },
{
    let low = Spot::lower(Which::First);
    crate::model::step_lstat(d, low);
    let d1 = d.after(Action::Lstat(low));
    lemma_whiting_out(d1, place);
}

/// A marker that was not there before is a plain file.
pub(crate) proof fn lemma_covering_plain(d: Disk, place: Place)
    requires
        d.at(Spot::whiteout(Which::First)) is None,
    ensures
        match OverlayOps::covering(place, World::Disk(d)) {
            Flow::Got(_, World::Disk(e)) => plain_marker(e, Which::First),
            Flow::Fail(_, World::Disk(e)) => plain_marker(e, Which::First),
            _ => true,
        },
{
    let low = Spot::lower(Which::First);
    let wh = Spot::whiteout(Which::First);
    crate::model::step_lstat(d, low);
    let d1 = d.after(Action::Lstat(low));
    crate::model::step_parents(d1, wh);
    let d2 = d1.after(Action::MakeParents(wh));
    crate::model::step_change(d2, Action::CreateFile(wh));
    assert(d2.at(wh) == d1.at(wh));
    reveal(Disk::changed);
}

/// A removed entry is found nowhere: its upper entry is gone, and if there is a lower one,
/// it is hidden. Nothing else has changed, the lower layer least of all. Where the lower
/// layer has no such entry, no marker is made. If it fails, nothing has changed but that the
/// upper entry may be gone; where nothing fails, it fails only on a directory.
pub proof fn law_unlink(d: Disk, place: Place)
    ensures
        match OverlayOps::unlinking(place, World::Disk(d)) {
            Flow::Got(_, World::Disk(_)) => true,
            Flow::Fail(c, World::Disk(e)) => {
                &&& forall|s: Spot|
                    s != Spot::upper(Which::First) ==> #[trigger] e.at(s) == d.at(s)
                &&& !(crate::laws::content::found(d, place) matches Some(n) && n.is_dir())
                    ==> crate::model::blames(e, c)
                &&& crate::model::never_faults(d) && c != EISDIR ==> (d.at(
                    Spot::upper(Which::First),
                ) matches Some(n) && n.is_dir()) || (d.at(Spot::whiteout(Which::First)) matches
                    Some(n) && !n.is_file())
            },
            _ => false,
        },
        OverlayOps::unlinking(place, World::Disk(d)) matches Flow::Got(_, World::Disk(e)) ==> {
            let up = Spot::upper(Which::First);
            let wh = Spot::whiteout(Which::First);
            &&& place.named ==> crate::laws::layering::seen(e, place, Which::First) is None
            &&& e.at(up) is None
            &&& d.at(Spot::lower(Which::First)) is None ==> e.at(wh) == d.at(wh)
            &&& d.at(wh) is None ==> plain_marker(e, Which::First)
            &&& crate::model::lower_kept(d, e)
            &&& crate::model::rest_kept(d, e)
            &&& forall|s: Spot| s != up && s != wh ==> #[trigger] e.at(s) == d.at(s)
        },
{
    lemma_refusing(d, place, EISDIR);
    if let Flow::Got(_, World::Disk(d1)) = OverlayOps::refusing_dir(
        place,
        EISDIR,
        World::Disk(d),
    ) {
        let remove = Action::RemoveFile(Spot::upper(Which::First));
        lemma_dropping(d1, remove);
        assert(d1.possible(remove) == (d1.at(Spot::upper(Which::First)) matches Some(n)
            && !n.is_dir())) by {
            reveal(Disk::possible);
        }
        crate::model::step_lstat(d1, Spot::upper(Which::First));
        if d.at(Spot::whiteout(Which::First)) is None {
            if let Flow::Got(_, World::Disk(d2)) = OverlayOps::dropping(remove, World::Disk(d1)) {
                assert(d2.at(Spot::whiteout(Which::First)) == d1.at(
                    Spot::whiteout(Which::First),
                ));
                lemma_covering_plain(d2, place);
            }
        }
        if let Flow::Got(_, World::Disk(d2)) = OverlayOps::dropping(remove, World::Disk(d1)) {
            lemma_covering(d2, place);
        }
    }
}

/// A directory is not removed in this way, and nothing has changed.
pub proof fn law_unlink_refuses_directory(d: Disk, place: Place)
    requires
        crate::laws::layering::seen(d, place, Which::First) is Some,
        d.at(
            Spot::entry(crate::laws::layering::seen(d, place, Which::First)->0, Which::First),
        )->0.is_dir(),
    ensures
        OverlayOps::unlinking(place, World::Disk(d)) matches Flow::Fail(c, World::Disk(e)) && c
            == EISDIR && crate::model::only_later(d, e),
{
    lemma_refusing(d, place, EISDIR);
}

/// Where nothing fails, an entry that is found and is no directory can be removed.
pub proof fn law_unlink_succeeds(d: Disk, place: Place)
    requires
        crate::model::never_faults(d),
        d.at(Spot::upper(Which::First)) matches Some(n) ==> !n.is_dir(),
        d.at(Spot::whiteout(Which::First)) is None,
        crate::laws::layering::seen(d, place, Which::First) is Some,
        !d.at(
            Spot::entry(crate::laws::layering::seen(d, place, Which::First)->0, Which::First),
        )->0.is_dir(),
    ensures
        OverlayOps::unlinking(place, World::Disk(d)) is Got,
{
    lemma_refusing(d, place, EISDIR);
    if let Flow::Got(_, World::Disk(d1)) = OverlayOps::refusing_dir(
        place,
        EISDIR,
        World::Disk(d),
    ) {
        let remove = Action::RemoveFile(Spot::upper(Which::First));
        lemma_dropping(d1, remove);
        assert(d1.at(Spot::upper(Which::First)) is Some ==> d1.possible(remove)) by {
            reveal(Disk::possible);
        }
        crate::model::step_lstat(d1, Spot::upper(Which::First));
        if let Flow::Got(_, World::Disk(d2)) = OverlayOps::dropping(remove, World::Disk(d1)) {
            lemma_covering(d2, place);
        }
    }
}

/// An operation that hands the kernel an entry answers with a number that leads to the path of
/// the entry from then on, and with the attributes that its metadata make; the kernel holds the
/// number once more. If it fails, the table is as it was, and the code is that of the
/// operation.
pub proof fn law_entry_handed_out(
    pre: OverlayOps,
    post: OverlayOps,
    rel: Seq<u8>,
    flow: Flow<Meta>,
    r: Result<FileAttr, Stop>,
    w: World,
)
    requires
        pre.inodes@.coherent(),
        OverlayOps::entered(pre, post, rel, flow, r, w),
    ensures
        match r {
            Ok(attr) => {
                &&& flow matches Flow::Got(meta, v) && v == w && crate::attr::tells(attr, meta)
                &&& post.inodes@.path_of(attr.ino) matches Some(p) && crate::path::components(p)
                    == crate::path::components(rel)
                &&& post.inodes@.knows(rel) && post.inodes@.ino_of(rel) == attr.ino
                &&& !pre.inodes@.knows(rel) ==> post.inodes@.map[attr.ino].count == 1
                &&& pre.inodes@.knows(rel) ==> pre.inodes@.ino_of(rel) == attr.ino && (
                pre.inodes@.map[attr.ino].count < u64::MAX ==> post.inodes@.map[attr.ino].count
                    == pre.inodes@.map[attr.ino].count + 1)
            },
            Err(Stop::Fail(c)) => flow == Flow::<Meta>::Fail(c, w) && post.inodes@ == pre.inodes@,
            Err(Stop::Ask(a)) => flow == Flow::<Meta>::Ask(a) && post.inodes@ == pre.inodes@,
        },
        post.layers == pre.layers,
{
    if let Ok(attr) = r {
        let meta = flow->Got_0;
        crate::attr::law_attributes(pre.inodes@.ino_of(rel), meta);
        crate::inode::law_lookup_counts(pre.inodes@, rel, 0);
        crate::inode::law_number_leads_back(pre.inodes@, rel);
        crate::inode::law_number_is_stable(pre.inodes@, rel, rel);
    }
}

/// An operation that makes numbers invalid does so exactly if it succeeds, and fails with the
/// code of what it does.
pub proof fn law_numbers_dropped(
    pre: OverlayOps,
    post: OverlayOps,
    left: Inodes,
    flow: Flow<()>,
    r: Result<(), Stop>,
    w: World,
)
    requires
        OverlayOps::cleaned(pre, post, left, flow, r, w),
    ensures
        match r {
            Ok(_) => flow == Flow::Got((), w) && post.inodes@ == left,
            Err(Stop::Fail(c)) => flow == Flow::<()>::Fail(c, w) && post.inodes@ == pre.inodes@,
            Err(Stop::Ask(a)) => flow == Flow::<()>::Ask(a) && post.inodes@ == pre.inodes@,
        },
        post.layers == pre.layers,
{
}

} // verus!
