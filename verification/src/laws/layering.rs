//! Finding, hiding and bringing up an entry.

use crate::errno::ENOENT;
use crate::layers::{LayerManager, Place};
use crate::model::{Disk, Node};
use crate::protocol::{Action, Flow, Layer, Mark, Spot, TimeSet, Which, World};
use vstd::prelude::*;

verus! {

/// A directory bears a mark.
pub open spec fn bears(d: Disk, s: Spot, mark: Mark) -> bool {
    d.at(s) matches Some(n) && n.xattrs.contains_key(crate::model::mark_name(mark))
        && n.xattrs[crate::model::mark_name(mark)] == crate::model::mark_value()
}

/// A directory of the upper layer replaces its counterpart below.
pub open spec fn opaque_at(d: Disk, s: Spot) -> bool {
    bears(d, s, Mark::Trusted) || bears(d, s, Mark::User)
}

/// One of the directories of the upper layer above a path, from the `k`-th of `n` on,
/// replaces its counterpart below.
pub open spec fn covered_from(d: Disk, which: Which, k: nat, n: nat) -> bool
    decreases n - k,
{
    k < n && (opaque_at(d, Spot::above(which, k as usize)) || covered_from(d, which, k + 1, n))
}

/// Nothing of the lower layer is found under a path, since a directory of the upper layer
/// above it replaces its counterpart.
pub open spec fn covered(d: Disk, place: Place, which: Which) -> bool {
    covered_from(d, which, 0, place.depth)
}

/// Where an entry is found: nowhere if its marker is there, else in the upper layer if
/// that has it, else in the lower, unless a directory above it replaces its counterpart.
pub open spec fn seen(d: Disk, place: Place, which: Which) -> Option<Layer> {
    if place.named && d.at(Spot::whiteout(which)) is Some {
        None
    } else if d.at(Spot::upper(which)) is Some {
        Some(Layer::Upper)
    } else if d.at(Spot::lower(which)) is Some && !covered(d, place, which) {
        Some(Layer::Lower)
    } else {
        None
    }
}

proof fn lemma_marked(d: Disk, s: Spot, mark: Mark)
    ensures
        crate::xattr::marked(s, mark, World::Disk(d)) matches Flow::Got(yes, World::Disk(e)) && yes
            == bears(d, s, mark) && crate::model::only_later(d, e),
{
    crate::model::step_readmark(d, s, mark);
    assert(crate::model::mark_value().len() == 1);
}

/// Asking whether a directory replaces its counterpart tells the truth and changes nothing.
pub proof fn law_opaque(d: Disk, s: Spot)
    ensures
        crate::xattr::sealed(s, World::Disk(d)) matches Flow::Got(yes, World::Disk(e)) && yes
            == opaque_at(d, s) && crate::model::only_later(d, e),
{
    lemma_marked(d, s, Mark::Trusted);
    if let Flow::Got(_, World::Disk(d1)) = crate::xattr::marked(
        s,
        Mark::Trusted,
        World::Disk(d),
    ) {
        lemma_marked(d1, s, Mark::User);
    }
}

/// Directories above a path that are the same cover it in the same way.
pub proof fn lemma_covered_same(d: Disk, e: Disk, which: Which, k: nat, n: nat)
    requires
        forall|i: usize| #[trigger] e.at(Spot::above(which, i)) == d.at(Spot::above(which, i)),
    ensures
        covered_from(e, which, k, n) == covered_from(d, which, k, n),
    decreases n - k,
{
    if k < n {
        assert(e.at(Spot::above(which, k as usize)) == d.at(Spot::above(which, k as usize)));
        lemma_covered_same(d, e, which, k + 1, n);
    }
}

/// Asking whether a path is covered tells the truth and changes nothing.
pub proof fn law_covering(d: Disk, which: Which, k: nat, n: nat)
    ensures
        LayerManager::covering(which, k, n, World::Disk(d)) matches Flow::Got(yes, World::Disk(e))
            && yes == covered_from(d, which, k, n) && crate::model::only_later(d, e),
    decreases n - k,
{
    if k < n {
        let s = Spot::above(which, k as usize);
        law_opaque(d, s);
        if let Flow::Got(_, World::Disk(d1)) = crate::xattr::sealed(s, World::Disk(d)) {
            law_covering(d1, which, k + 1, n);
            lemma_covered_same(d, d1, which, k + 1, n);
        }
    }
}

/// Looking for an entry finds it where it is, and changes nothing.
pub proof fn law_resolve(d: Disk, place: Place, which: Which)
    ensures
        LayerManager::resolving(place, which, World::Disk(d)) matches Flow::Got(
            at,
            World::Disk(e),
        ) && at == seen(d, place, which) && crate::model::only_later(d, e),
{
    let d1 = if place.named {
        d.after(Action::Lstat(Spot::whiteout(which)))
    } else {
        d
    };
    crate::model::step_lstat(d, Spot::whiteout(which));
    crate::model::step_lstat(d1, Spot::upper(which));
    let d2 = d1.after(Action::Lstat(Spot::upper(which)));
    crate::model::step_lstat(d2, Spot::lower(which));
    let d3 = d2.after(Action::Lstat(Spot::lower(which)));
    law_covering(d3, which, 0, place.depth);
    lemma_covered_same(d, d3, which, 0, place.depth);
}

/// What is found is the same where the places that it depends on are.
pub proof fn lemma_seen_same(d: Disk, e: Disk, place: Place, which: Which)
    requires
        e.at(Spot::whiteout(which)) == d.at(Spot::whiteout(which)),
        e.at(Spot::upper(which)) == d.at(Spot::upper(which)),
        e.at(Spot::lower(which)) == d.at(Spot::lower(which)),
        forall|i: usize| #[trigger] e.at(Spot::above(which, i)) == d.at(Spot::above(which, i)),
    ensures
        seen(e, place, which) == seen(d, place, which),
{
    lemma_covered_same(d, e, which, 0, place.depth);
}

/// Nothing of the lower layer is found below a directory that replaces its counterpart.
pub proof fn law_opaque_covers(d: Disk, place: Place, which: Which, k: nat)
    requires
        k < place.depth,
        opaque_at(d, Spot::above(which, k as usize)),
    ensures
        covered(d, place, which),
        seen(d, place, which) != Some(Layer::Lower),
{
    lemma_covered_at(d, which, 0, k, place.depth);
}

proof fn lemma_covered_at(d: Disk, which: Which, j: nat, k: nat, n: nat)
    requires
        j <= k < n,
        opaque_at(d, Spot::above(which, k as usize)),
    ensures
        covered_from(d, which, j, n),
    decreases k - j,
{
    if j < k {
        lemma_covered_at(d, which, j + 1, k, n);
    }
}

/// An entry in the upper layer takes the place of the one below it.
pub proof fn law_upper_wins(d: Disk, place: Place, which: Which)
    requires
        d.at(Spot::upper(which)) is Some,
        place.named ==> d.at(Spot::whiteout(which)) is None,
    ensures
        seen(d, place, which) == Some(Layer::Upper),
{
}

/// A path whose marker was created is found nowhere, and nothing else has changed.
pub proof fn law_whiteout_hides(d: Disk, place: Place, which: Which)
    requires
        place.named,
    ensures
        LayerManager::whiting_out(true, which, World::Disk(d)) matches Flow::Got(_, World::Disk(e))
            ==> {
            &&& seen(e, place, which) is None
            &&& forall|s: Spot| s != Spot::whiteout(which) ==> #[trigger] e.at(s) == d.at(s)
            &&& e.at(Spot::whiteout(which)) matches Some(n) && n.is_file() && n.data.len() == 0
        },
{
    let parents = Action::MakeParents(Spot::whiteout(which));
    let create = Action::CreateFile(Spot::whiteout(which));
    crate::model::step_change(d, parents);
    crate::model::step_change(d.after(parents), create);
    reveal(Disk::changed);
    reveal(Disk::possible);
}

/// What has no name of its own, such as the root of the layer, has no marker: nothing is
/// asked for to hide it or to show it again.
pub proof fn law_unnamed_has_no_marker(which: Which, w: World)
    ensures
        LayerManager::whiting_out(false, which, w) == Flow::Got((), w),
        LayerManager::clearing(false, which, w) == Flow::Got((), w),
        LayerManager::unhiding(false, which, w) == Flow::Got((), w),
        LayerManager::hiding(false, which, w) == Flow::Got(false, w),
{
}

/// A path whose marker could be removed, or never had one, is found where its entry is,
/// and nothing else has changed.
pub proof fn law_clearing_reveals(d: Disk, place: Place, which: Which)
    requires
        place.named,
        d.at(Spot::whiteout(which)) is Some ==> d.works(
            Action::RemoveFile(Spot::whiteout(which)),
        ),
    ensures
        LayerManager::clearing(true, which, World::Disk(d)) matches Flow::Got(_, World::Disk(e)) && {
            &&& e.at(Spot::whiteout(which)) is None
            &&& seen(e, place, which) == seen(d, Place { named: false, ..place }, which)
            &&& forall|s: Spot| s != Spot::whiteout(which) ==> #[trigger] e.at(s) == d.at(s)
        },
{
    let remove = Action::RemoveFile(Spot::whiteout(which));
    crate::model::step_change(d, remove);
    reveal(Disk::changed);
    lemma_covered_same(d, d.after(remove), which, 0, place.depth);
}

/// Hiding an entry and clearing its marker leaves it where it was found before.
pub proof fn law_clearing_undoes_whiteout(d: Disk, place: Place, which: Which)
    requires
        place.named,
        crate::model::never_faults(d),
        d.at(Spot::whiteout(which)) is None,
    ensures
        LayerManager::whiting_out(true, which, World::Disk(d)).bind(
            |u: (), w: World| LayerManager::clearing(true, which, w),
        ) matches Flow::Got(_, World::Disk(e)) && seen(e, place, which) == seen(d, place, which),
{
    let parents = Action::MakeParents(Spot::whiteout(which));
    let create = Action::CreateFile(Spot::whiteout(which));
    let remove = Action::RemoveFile(Spot::whiteout(which));
    crate::model::step_change(d, parents);
    crate::model::step_change(d.after(parents), create);
    crate::model::step_change(d.after(parents).after(create), remove);
    reveal(Disk::changed);
    reveal(Disk::possible);
    lemma_covered_same(
        d,
        d.after(parents).after(create).after(remove),
        which,
        0,
        place.depth,
    );
}

pub(crate) proof fn lemma_mode_kept(a: u32, m: u32)
    ensures
        crate::model::with_mode(a, m) & 0o7777 == m & 0o7777,
{
    assert(((a & !0o7777u32) | (m & 0o7777u32)) & 0o7777 == m & 0o7777) by (bit_vector);
}


/// What an entry brought up has in common with the one below.
pub open spec fn copied(low: Node, up: Node) -> bool {
    &&& low.is_symlink() ==> up.is_symlink() && up.target == low.target
    &&& low.is_dir() ==> up.is_dir() && up.items.len() == 0
    &&& !low.is_symlink() && !low.is_dir() ==> up.is_file() && up.data == low.data
        && up.meta.size == low.data.len() as u64
    &&& !low.is_symlink() ==> up.meta.mode & 0o7777 == low.meta.mode & 0o7777
}

/// An entry brought up has the times and the owner of the one below. The highest number
/// stands for no owner.
pub open spec fn kept_from(low: Node, up: Node) -> bool {
    &&& up.meta.atime == low.meta.atime
    &&& up.meta.mtime == low.meta.mtime
    &&& low.meta.uid != u32::MAX ==> up.meta.uid == low.meta.uid
    &&& low.meta.gid != u32::MAX ==> up.meta.gid == low.meta.gid
}

/// The node is what is found under a path, as the upper layer has it: the upper entry
/// itself, or a copy of the lower one with its extended attributes and, where nothing fails,
/// its times and its owner.
pub open spec fn brought_up(d: Disk, place: Place, which: Which, n: Node) -> bool {
    match seen(d, place, which) {
        None => false,
        Some(Layer::Upper) => d.at(Spot::upper(which)) == Some(n),
        Some(Layer::Lower) => {
            let low = d.at(Spot::lower(which))->0;
            &&& copied(low, n)
            &&& n.xattrs == low.xattrs
            &&& crate::model::never_faults(d) ==> kept_from(low, n)
        },
    }
}

/// Permissions and extended attributes of an entry that was brought up and not altered since
/// are those of the entry that was found before, whichever layer that was in; so are the owner
/// and the times, where nothing fails.
pub open spec fn as_found(d: Disk, was: Node, now: Node) -> bool {
    &&& !was.is_symlink() ==> now.meta.mode & 0o7777 == was.meta.mode & 0o7777
    &&& now.xattrs == was.xattrs
    &&& crate::model::never_faults(d) ==> kept_from(was, now)
}

proof fn lemma_duplicating(d: Disk, which: Which)
    requires
        d.at(Spot::lower(which)) is Some,
        d.at(Spot::upper(which)) is None,
    ensures
        match LayerManager::duplicating(
            which,
            d.at(Spot::lower(which))->0.meta,
            World::Disk(d),
        ) {
            Flow::Got(_, World::Disk(e)) => {
                &&& crate::model::all_but(d, e, Spot::upper(which))
                &&& e.at(Spot::upper(which)) matches Some(up) && copied(
                    d.at(Spot::lower(which))->0,
                    up,
                ) && up.xattrs == Map::<Seq<u8>, Seq<u8>>::empty()
            },
            Flow::Fail(c, World::Disk(e)) => {
                &&& crate::model::all_but(d, e, Spot::upper(which))
                &&& crate::model::blames(e, c)
                &&& !trifling(e)
            },
            _ => false,
        },
        crate::model::never_faults(d) ==> LayerManager::duplicating(
            which,
            d.at(Spot::lower(which))->0.meta,
            World::Disk(d),
        ) is Got,
{
    let up = Spot::upper(which);
    let low = Spot::lower(which);
    let n = d.at(low)->0;
    let mode = n.meta.mode;
    let set = Action::SetMode(up, mode);
    if n.is_symlink() {
        crate::model::step_readlink(d, low);
        let d1 = d.after(Action::ReadLink(low));
        crate::model::step_change(d1, Action::MakeLink(up));
        crate::model::step_frame(d1, Action::MakeLink(up));
        assert(d1.at(up) is None);
    } else if n.is_dir() {
        crate::model::step_change(d, Action::MakeDirs(up));
        crate::model::step_frame(d, Action::MakeDirs(up));
        let d1 = d.after(Action::MakeDirs(up));
        crate::model::step_change(d1, set);
        crate::model::step_frame(d1, set);
        lemma_mode_kept(d1.at(up)->0.meta.mode, mode);
    } else {
        crate::model::step_change(d, Action::CopyFile(low, up));
        crate::model::step_frame(d, Action::CopyFile(low, up));
        let d1 = d.after(Action::CopyFile(low, up));
        crate::model::step_change(d1, set);
        crate::model::step_frame(d1, set);
        lemma_mode_kept(d1.at(up)->0.meta.mode, mode);
    }
    reveal(Disk::changed);
    reveal(Disk::possible);
}

/// Creating the upper entry after the lower one.
pub proof fn lemma_carrying(d: Disk, which: Which)
    requires
        d.at(Spot::lower(which)) is Some,
        d.at(Spot::upper(which)) is None,
    ensures
        match LayerManager::carrying(which, d.at(Spot::lower(which))->0.meta, World::Disk(d)) {
            Flow::Got(_, World::Disk(e)) => {
                let low = d.at(Spot::lower(which))->0;
                &&& crate::model::all_but(d, e, Spot::upper(which))
                &&& e.at(Spot::upper(which)) matches Some(up) && copied(low, up) && up.xattrs
                    == low.xattrs
                &&& crate::model::never_faults(d) ==> {
                    let up = e.at(Spot::upper(which))->0;
                    &&& up.meta.atime == low.meta.atime
                    &&& up.meta.mtime == low.meta.mtime
                    &&& low.meta.uid != u32::MAX ==> up.meta.uid == low.meta.uid
                    &&& low.meta.gid != u32::MAX ==> up.meta.gid == low.meta.gid
                }
            },
            Flow::Fail(c, World::Disk(e)) => {
                &&& crate::model::all_but(d, e, Spot::upper(which))
                &&& !crate::model::never_faults(d)
                &&& crate::model::blames(e, c)
                &&& !trifling(e)
            },
            _ => false,
        },
{
    let n = d.at(Spot::lower(which))->0;
    lemma_duplicating(d, which);
    match LayerManager::duplicating(which, n.meta, World::Disk(d)) {
        Flow::Got(_, World::Disk(d1)) => {
            lemma_finishing(d1, which, n);
        },
        _ => {},
    }
}

proof fn lemma_promoting(d: Disk, place: Place, which: Which)
    requires
        seen(d, place, which) == Some(Layer::Lower),
    ensures
        match LayerManager::promoting(place, which, World::Disk(d)) {
            Flow::Got(_, World::Disk(e)) => {
                let low = d.at(Spot::lower(which))->0;
                &&& crate::model::all_but(d, e, Spot::upper(which))
                &&& e.at(Spot::upper(which)) matches Some(up) && copied(low, up) && up.xattrs
                    == low.xattrs
                &&& crate::model::never_faults(d) ==> {
                    let up = e.at(Spot::upper(which))->0;
                    &&& up.meta.atime == low.meta.atime
                    &&& up.meta.mtime == low.meta.mtime
                    &&& low.meta.uid != u32::MAX ==> up.meta.uid == low.meta.uid
                    &&& low.meta.gid != u32::MAX ==> up.meta.gid == low.meta.gid
                }
            },
            Flow::Fail(c, World::Disk(e)) => {
                &&& crate::model::all_but(d, e, Spot::upper(which))
                &&& !crate::model::never_faults(d)
                &&& crate::model::blames(e, c)
                &&& !trifling(e)
            },
            _ => false,
        },
{
    let up = Spot::upper(which);
    let low = Spot::lower(which);
    law_resolve(d, place, which);
    let d1 = match LayerManager::resolving(place, which, World::Disk(d)) {
        Flow::Got(_, World::Disk(e)) => e,
        _ => d,
    };
    crate::model::step_parents(d1, up);
    let d2 = d1.after(Action::MakeParents(up));
    crate::model::step_lstat(d2, low);
    lemma_carrying(d2.after(Action::Lstat(low)), which);
}

/// The last steps of bringing up an entry.
proof fn lemma_finishing(d: Disk, which: Which, n: Node)
    requires
        d.at(Spot::lower(which)) == Some(n),
        d.at(Spot::upper(which)) is Some,
        d.at(Spot::upper(which))->0.xattrs == Map::<Seq<u8>, Seq<u8>>::empty(),
        copied(n, d.at(Spot::upper(which))->0),
    ensures
        ({
            let up = Spot::upper(which);
            let low = Spot::lower(which);
            let a = Action::SetTimes(up, TimeSet::At(n.meta.atime), TimeSet::At(n.meta.mtime));
            let b = Action::SetOwner(up, n.meta.uid, n.meta.gid);
            let c = Action::CopyXattrs(low, up);
            let d1 = d.after(a);
            let d2 = d1.after(b);
            let d3 = d2.after(c);
            &&& crate::model::all_but(d, d3, up)
            &&& d2.reply(c) is Done || d2.reply(c) is Failed
            &&& d2.reply(c) is Failed ==> !crate::model::never_faults(d)
            &&& d2.reply(c) is Failed ==> crate::model::blames(d3, d2.reply(c).code()) && !trifling(
                d3,
            )
            &&& d2.reply(c) is Done ==> {
                &&& d3.at(up) matches Some(u) && copied(n, u) && u.xattrs == n.xattrs
                &&& crate::model::never_faults(d) ==> {
                    let u = d3.at(up)->0;
                    &&& u.meta.atime == n.meta.atime
                    &&& u.meta.mtime == n.meta.mtime
                    &&& n.meta.uid != u32::MAX ==> u.meta.uid == n.meta.uid
                    &&& n.meta.gid != u32::MAX ==> u.meta.gid == n.meta.gid
                }
            }
        }),
{
    let up = Spot::upper(which);
    let low = Spot::lower(which);
    let a = Action::SetTimes(up, TimeSet::At(n.meta.atime), TimeSet::At(n.meta.mtime));
    let b = Action::SetOwner(up, n.meta.uid, n.meta.gid);
    let c = Action::CopyXattrs(low, up);
    let d1 = d.after(a);
    let d2 = d1.after(b);
    let d3 = d2.after(c);
    crate::model::step_change(d, a);
    crate::model::step_frame(d, a);
    crate::model::step_change(d1, b);
    crate::model::step_frame(d1, b);
    crate::model::step_change(d2, c);
    crate::model::step_frame(d2, c);
    reveal(Disk::changed);
    reveal(Disk::possible);
    let e = Map::<Seq<u8>, Seq<u8>>::empty();
    assert(e.union_prefer_right(n.xattrs) =~= n.xattrs);
}

/// What came last was setting times or an owner, of which a failure is of no account.
pub open spec fn trifling(e: Disk) -> bool {
    e.log.len() > 0 && (e.log.last() is SetTimes || e.log.last() is SetOwner)
}

/// Bringing up an entry: if it succeeds, the entry is found in the upper layer, and the
/// lower layer is as it was. A file that came from below has the content that it has
/// there, a link the target, a directory holds nothing yet; permissions and extended
/// attributes are those below, and so are the times and the owner where nothing fails.
pub proof fn law_promotion(d: Disk, place: Place, which: Which)
    ensures
        LayerManager::promoting(place, which, World::Disk(d)) matches Flow::Got(_, World::Disk(e))
            ==> {
            &&& seen(e, place, which) == Some(Layer::Upper)
            &&& crate::model::lower_kept(d, e)
            &&& crate::model::all_but(d, e, Spot::upper(which))
            &&& seen(d, place, which) == Some(Layer::Upper) ==> crate::model::only_later(d, e)
            &&& seen(d, place, which) == Some(Layer::Lower) ==> copied(
                d.at(Spot::lower(which))->0,
                e.at(Spot::upper(which))->0,
            ) && e.at(Spot::upper(which))->0.xattrs == d.at(Spot::lower(which))->0.xattrs
            &&& e.at(Spot::upper(which)) is Some
            &&& brought_up(d, place, which, e.at(Spot::upper(which))->0)
        },
{
    law_resolve(d, place, which);
    if seen(d, place, which) == Some(Layer::Lower) {
        lemma_promoting(d, place, which);
    }
}

/// Where nothing fails, an entry that is found can be brought up, and it keeps its owner
/// and its times.
pub proof fn law_promotion_succeeds(d: Disk, place: Place, which: Which)
    requires
        crate::model::never_faults(d),
        seen(d, place, which) is Some,
    ensures
        LayerManager::promoting(place, which, World::Disk(d)) matches Flow::Got(_, World::Disk(e))
            && (seen(d, place, which) == Some(Layer::Lower) ==> {
            let low = d.at(Spot::lower(which))->0;
            let up = e.at(Spot::upper(which))->0;
            &&& up.meta.atime == low.meta.atime
            &&& up.meta.mtime == low.meta.mtime
            &&& low.meta.uid != u32::MAX ==> up.meta.uid == low.meta.uid
            &&& low.meta.gid != u32::MAX ==> up.meta.gid == low.meta.gid
        }),
{
    law_resolve(d, place, which);
    if seen(d, place, which) == Some(Layer::Lower) {
        lemma_promoting(d, place, which);
    }
}

/// What is found nowhere cannot be brought up.
pub proof fn law_promotion_needs_entry(d: Disk, place: Place, which: Which)
    requires
        seen(d, place, which) is None,
    ensures
        LayerManager::promoting(place, which, World::Disk(d)) matches Flow::Fail(c, World::Disk(e))
            && c == ENOENT && crate::model::only_later(d, e),
{
    law_resolve(d, place, which);
}

/// Whatever comes of it, bringing up an entry changes nothing but its upper entry. If an entry
/// that is found cannot be brought up, the code is that of the request that failed, and that
/// was not for its times or its owner.
pub proof fn law_promotion_frame(d: Disk, place: Place, which: Which)
    ensures
        match LayerManager::promoting(place, which, World::Disk(d)) {
            Flow::Got(_, World::Disk(e)) => crate::model::all_but(d, e, Spot::upper(which)),
            Flow::Fail(c, World::Disk(e)) => {
                &&& crate::model::all_but(d, e, Spot::upper(which))
                &&& seen(d, place, which) is Some ==> crate::model::blames(e, c) && !trifling(e)
                &&& seen(d, place, which) is None ==> c == ENOENT
            },
            _ => false,
        },
{
    law_resolve(d, place, which);
    if seen(d, place, which) == Some(Layer::Lower) {
        lemma_promoting(d, place, which);
    }
}

/// A name is that of a marker exactly if it starts with the four bytes `.wh.`, and what it
/// hides is what follows them.
pub proof fn law_marker_prefix(text: Seq<u8>)
    ensures
        crate::listing::is_marker(text) <==> text.len() >= 4 && text[0] == 46 && text[1] == 119
            && text[2] == 104 && text[3] == 46,
        crate::listing::hidden_name(text) == text.skip(4),
{
    reveal_strlit(".wh.");
    vstd::utf8::is_ascii_chars_encode_utf8(".wh."@);
    let p = crate::layers::wh_prefix();
    assert(p =~= seq![46u8, 119, 104, 46]) by {
        assert(".wh."@[0] == '.' && ".wh."@[1] == 'w' && ".wh."@[2] == 'h' && ".wh."@[3] == '.');
    }
    if text.len() >= 4 {
        let t = text.subrange(0, 4);
        assert(t[0] == text[0] && t[1] == text[1] && t[2] == text[2] && t[3] == text[3]);
        if text[0] == 46 && text[1] == 119 && text[2] == 104 && text[3] == 46 {
            assert(t =~= p);
        }
    }
}

/// The marker for a path lies in the directory of the upper layer that mirrors the path's
/// own, and its name is one that hides the path's name and no other.
pub proof fn law_marker_name(upper: Seq<u8>, rel: Seq<u8>, other: Seq<u8>)
    requires
        LayerManager::named(rel),
    ensures
        ({
            let text = crate::text::lossy(crate::path::file_name(rel)->0);
            let name = crate::layers::wh_prefix() + text;
            &&& LayerManager::whiteout_at(upper, rel) == Some(
                crate::path::join(crate::path::join(upper, crate::path::parent(rel)->0), name),
            )
            &&& crate::listing::is_marker(name)
            &&& crate::listing::hidden_name(name) == text
            &&& name == crate::layers::wh_prefix() + other ==> other == text
        }),
{
    crate::path::lemma_parent(rel);
    let prefix = crate::layers::wh_prefix();
    let text = crate::text::lossy(crate::path::file_name(rel)->0);
    assert((prefix + text).take(prefix.len() as int) =~= prefix);
    assert((prefix + text).skip(prefix.len() as int) =~= text);
    assert((prefix + other).skip(prefix.len() as int) =~= other);
}

/// As many directories lie above a path, the root of the layer among them, as the path has
/// components, however many these are; and a marker can hide it exactly if its last component
/// is a name.
pub proof fn law_place(rel: Seq<u8>, name: Seq<u8>)
    ensures
        LayerManager::place(rel).depth == crate::path::components(rel).len(),
        LayerManager::place(rel).named <==> crate::path::components(rel).len() > 0
            && crate::path::is_normal(crate::path::components(rel).last()),
        crate::path::is_segment(name) && crate::path::is_normal(name) ==> {
            let place = LayerManager::place(crate::path::join(rel, name));
            place.named && place.depth == LayerManager::place(rel).depth + 1
        },
{
    if crate::path::is_segment(name) && crate::path::is_normal(name) {
        crate::path::lemma_join_segment(rel, name);
    }
}

/// An entry of a layer lies under its path in the directory of that layer. Its marker lies
/// beside the upper one, under the name of the entry with a prefix. A directory above it is the
/// one of the upper layer that the leading components of its path name.
pub proof fn law_spot_paths(
    layers: LayerManager,
    which: Which,
    first: Seq<u8>,
    second: Seq<u8>,
    k: usize,
)
    ensures
        ({
            let rel = if which is First {
                first
            } else {
                second
            };
            let upper = layers.backend.upper@;
            let lower = layers.backend.lower@;
            let above = layers.spot_at(Spot::above(which, k), first, second);
            &&& layers.spot_at(Spot::upper(which), first, second) == Some(
                crate::path::join(upper, rel),
            )
            &&& layers.spot_at(Spot::lower(which), first, second) == Some(
                crate::path::join(lower, rel),
            )
            &&& match (crate::path::parent(rel), crate::path::file_name(rel)) {
                (Some(dir), Some(name)) => layers.spot_at(
                    Spot::whiteout(which),
                    first,
                    second,
                ) == Some(
                    crate::path::join(
                        crate::path::join(upper, dir),
                        crate::layers::wh_prefix() + crate::text::lossy(name),
                    ),
                ),
                _ => layers.spot_at(Spot::whiteout(which), first, second) is None,
            }
            &&& !crate::path::is_absolute(rel) && k < crate::path::components(rel).len()
                ==> exists|dir: Seq<u8>|
                above == Some(#[trigger] crate::path::join(upper, dir))
                    && crate::path::components(dir) == crate::path::components(rel).take(
                    crate::path::components(rel).len() - k - 1,
                )
        }),
{
    let rel = if which is First {
        first
    } else {
        second
    };
    if !crate::path::is_absolute(rel) && k < crate::path::components(rel).len() {
        crate::path::lemma_ancestor(rel, (k + 1) as nat);
        let dir = crate::path::ancestor(rel, (k + 1) as nat);
        assert(layers.spot_at(Spot::above(which, k), first, second) == Some(
            crate::path::join(layers.backend.upper@, dir),
        ));
    }
}

} // verus!
