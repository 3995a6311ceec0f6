//! Reading, writing and setting attributes.

use crate::errno::{EINVAL, ENODATA, ENOENT, ERANGE};
use crate::fuse_ops::{OverlayOps, SetAttr, O_TRUNC};
use crate::layers::{LayerManager, Place};
use crate::model::{Disk, Node};
use crate::protocol::{Action, Flow, Layer, Meta, Spot, Stamp, TimeSet, Which, World};
use crate::xattr::XattrAnswer;
use vstd::prelude::*;

verus! {

/// The entry found under the first path.
pub open spec fn found(d: Disk, place: Place) -> Option<Node> {
    match crate::laws::layering::seen(d, place, Which::First) {
        Some(layer) => d.at(Spot::entry(layer, Which::First)),
        None => None,
    }
}

/// A file whose metadata tells its true length.
pub open spec fn sound_file(n: Node) -> bool {
    n.is_file() && n.meta.size == n.data.len()
}

/// Reading yields the bytes that the file has from the position on, at most so many; it
/// changes nothing. Where nothing fails, a file that is found can be read.
pub proof fn law_read(d: Disk, place: Place, offset: u64, size: u32)
    requires
        found(d, place) is Some,
        sound_file(found(d, place)->0),
    ensures
        match OverlayOps::reading(place, offset, size, World::Disk(d)) {
            Flow::Got(b, World::Disk(e)) => {
                &&& b == crate::model::piece(found(d, place)->0.data, offset as nat, size as nat)
                &&& forall|s: Spot| #[trigger] e.at(s) == d.at(s)
            },
            Flow::Fail(c, World::Disk(e)) => {
                &&& forall|s: Spot| #[trigger] e.at(s) == d.at(s)
                &&& !crate::model::never_faults(d)
                &&& crate::model::blames(e, c)
            },
            _ => false,
        },
{
    crate::laws::layering::law_resolve(d, place, Which::First);
    if let Flow::Got(Some(layer), World::Disk(d1)) = LayerManager::resolving(
        place,
        Which::First,
        World::Disk(d),
    ) {
        let s = Spot::entry(layer, Which::First);
        crate::model::step_stat(d1, s);
        let d2 = d1.after(Action::Stat(s));
        crate::model::step_open_read(d2, s);
        let d3 = d2.after(Action::OpenRead(s));
        crate::model::step_seek(d3, offset);
        let d4 = d3.after(Action::SeekTo(offset));
        assert(d4.at(s) == d3.at(s) && d3.at(s) == d2.at(s) && d2.at(s) == d1.at(s));
        if d4.reading == Some(s) {
            crate::model::step_read_some(d4, s, size);
        }
        let data = found(d, place)->0.data;
        if offset >= data.len() {
            assert(crate::model::piece(data, offset as nat, size as nat) =~= Seq::empty());
        }
    }
}

/// What is found nowhere cannot be read.
pub proof fn law_read_needs_entry(d: Disk, place: Place, offset: u64, size: u32)
    requires
        found(d, place) is None,
    ensures
        OverlayOps::reading(place, offset, size, World::Disk(d)) matches Flow::Fail(
            c,
            World::Disk(e),
        ) && c == ENOENT && crate::model::only_later(d, e),
{
    crate::laws::layering::law_resolve(d, place, Which::First);
}

/// The content and type of the upper entry after an entry was brought up.
proof fn lemma_promoted_file(d: Disk, place: Place)
    requires
        found(d, place) is Some,
        found(d, place)->0.is_file(),
    ensures
        LayerManager::promoting(place, Which::First, World::Disk(d)) matches Flow::Got(
            _,
            World::Disk(e),
        ) ==> {
            let up = e.at(Spot::upper(Which::First));
            &&& up is Some && up->0.is_file() && up->0.data == found(d, place)->0.data
            &&& crate::laws::layering::as_found(d, found(d, place)->0, up->0)
            &&& crate::laws::layering::seen(d, place, Which::First) == Some(Layer::Upper)
                ==> up == found(d, place)
            &&& crate::laws::layering::seen(e, place, Which::First) == Some(Layer::Upper)
            &&& crate::model::all_but(d, e, Spot::upper(Which::First))
        },
        crate::model::never_faults(d) ==> LayerManager::promoting(
            place,
            Which::First,
            World::Disk(d),
        ) is Got,
{
    crate::laws::layering::law_promotion(d, place, Which::First);
    if crate::model::never_faults(d) {
        crate::laws::layering::law_promotion_succeeds(d, place, Which::First);
    }
}

/// Writing puts the data of the request, as far as the system wrote it, at the position, and
/// leaves the rest of the content as it was found, be it above or below. The file is then
/// found in the upper layer, with the permissions and the extended attributes that it had,
/// and where nothing fails with its owner and its times; nothing but that file has changed.
/// Where nothing fails, a file that is found can be written.
pub proof fn law_write(d: Disk, place: Place, offset: u64)
    requires
        found(d, place) is Some,
        found(d, place)->0.is_file(),
        d.load.data.len() <= u32::MAX,
    ensures
        match OverlayOps::writing(place, offset, World::Disk(d)) {
            Flow::Got(n, World::Disk(e)) => {
                &&& n <= d.load.data.len()
                &&& n == crate::model::moved_last(e, d.load.data.len())
                &&& crate::model::asked_last(e, Action::WriteData)
                &&& crate::model::worked(e)
                &&& crate::laws::layering::seen(e, place, Which::First) == Some(Layer::Upper)
                &&& found(e, place) is Some && found(e, place)->0.is_file()
                &&& found(e, place)->0.data == crate::model::spliced(
                    found(d, place)->0.data,
                    offset as nat,
                    d.load.data.take(n as int),
                )
                &&& found(e, place)->0.meta.size == found(e, place)->0.data.len() as u64
                &&& crate::laws::layering::as_found(d, found(d, place)->0, found(e, place)->0)
                &&& crate::laws::layering::seen(d, place, Which::First) == Some(Layer::Upper)
                    ==> found(e, place)->0 == found(d, place)->0.with_data(
                    found(e, place)->0.data,
                )
                &&& crate::model::all_but(d, e, Spot::upper(Which::First))
                &&& crate::model::lower_kept(d, e)
                &&& crate::model::rest_kept(d, e)
            },
            Flow::Fail(c, World::Disk(e)) => {
                &&& crate::model::lower_kept(d, e)
                &&& crate::model::all_but(d, e, Spot::upper(Which::First))
                &&& !crate::model::never_faults(d)
                &&& crate::model::blames(e, c)
            },
            _ => false,
        },
{
    let up = Spot::upper(Which::First);
    lemma_promoted_file(d, place);
    crate::laws::layering::law_promotion_frame(d, place, Which::First);
    if let Flow::Got(_, World::Disk(d1)) = LayerManager::promoting(
        place,
        Which::First,
        World::Disk(d),
    ) {
        crate::model::step_open_write(d1, up);
        let d2 = d1.after(Action::OpenWrite(up));
        crate::model::step_seek(d2, offset);
        let d3 = d2.after(Action::SeekTo(offset));
        assert(d3.at(up) == d2.at(up) && d2.at(up) == d1.at(up));
        if d3.writing == Some(up) {
            crate::model::step_write_data(d3, up);
            let d4 = d3.after(Action::WriteData);
            crate::model::step_log(d3, Action::WriteData);
            assert(d4.at(Spot::whiteout(Which::First)) == d3.at(Spot::whiteout(Which::First)));
            let k = d3.moves(d3.load.data.len());
            assert((k as i64) as u32 == k);
        }
    }
}

/// A read gives back what a write wrote.
pub proof fn law_read_after_write(d: Disk, place: Place, offset: u64, e: Disk, n: u32)
    requires
        found(d, place) is Some,
        found(d, place)->0.is_file(),
        d.load.data.len() <= u32::MAX,
        found(d, place)->0.data.len() <= u64::MAX,
        offset + d.load.data.len() <= u64::MAX,
        OverlayOps::writing(place, offset, World::Disk(d)) == Flow::Got(n, World::Disk(e)),
    ensures
        OverlayOps::reading(place, offset, n, World::Disk(e)) matches Flow::Got(b, _) ==> b
            == d.load.data.take(n as int),
        crate::model::never_faults(d) ==> OverlayOps::reading(
            place,
            offset,
            n,
            World::Disk(e),
        ) is Got,
{
    law_write(d, place, offset);
    let data = found(e, place)->0.data;
    law_read(e, place, offset, n);
    assert(crate::model::piece(data, offset as nat, n as nat) =~= d.load.data.take(n as int));
}

/// A write leaves every byte outside of the range it writes as it was.
pub proof fn law_write_is_local(d: Disk, place: Place, offset: u64, e: Disk, n: u32, i: int)
    requires
        found(d, place) is Some,
        found(d, place)->0.is_file(),
        d.load.data.len() <= u32::MAX,
        OverlayOps::writing(place, offset, World::Disk(d)) == Flow::Got(n, World::Disk(e)),
        0 <= i < found(d, place)->0.data.len(),
        i < offset || i >= offset + n,
    ensures
        i < found(e, place)->0.data.len(),
        found(e, place)->0.data[i] == found(d, place)->0.data[i],
{
    law_write(d, place, offset);
}

/// Opening a file for writing: it is then found in the upper layer, empty if that was
/// asked for, and with the content it had otherwise, with the permissions and the extended
/// attributes that it had, and where nothing fails with its owner and its times. Nothing but
/// that file has changed. Where nothing fails, a file that is found can be opened.
pub proof fn law_open(d: Disk, place: Place, flags: i32)
    requires
        found(d, place) is Some,
        found(d, place)->0.is_file(),
    ensures
        match OverlayOps::opening(place, flags, World::Disk(d)) {
            Flow::Got(_, World::Disk(e)) => {
                &&& crate::laws::layering::seen(e, place, Which::First) == Some(Layer::Upper)
                &&& found(e, place) is Some
                &&& flags & O_TRUNC != 0 ==> found(e, place)->0.data.len() == 0
                &&& flags & O_TRUNC == 0 ==> found(e, place)->0.data == found(d, place)->0.data
                &&& found(e, place)->0.is_file()
                &&& flags & O_TRUNC != 0 ==> found(e, place)->0.meta.size == 0
                &&& crate::laws::layering::as_found(d, found(d, place)->0, found(e, place)->0)
                &&& crate::laws::layering::seen(d, place, Which::First) == Some(Layer::Upper)
                    && flags & O_TRUNC == 0 ==> found(e, place) == found(d, place)
                &&& crate::model::all_but(d, e, Spot::upper(Which::First))
                &&& crate::model::lower_kept(d, e)
            },
            Flow::Fail(c, World::Disk(e)) => {
                &&& crate::model::lower_kept(d, e)
                &&& crate::model::all_but(d, e, Spot::upper(Which::First))
                &&& !crate::model::never_faults(d)
                &&& crate::model::blames(e, c)
            },
            _ => false,
        },
{
    let up = Spot::upper(Which::First);
    lemma_promoted_file(d, place);
    crate::laws::layering::law_promotion_frame(d, place, Which::First);
    if let Flow::Got(_, World::Disk(d1)) = LayerManager::promoting(
        place,
        Which::First,
        World::Disk(d),
    ) {
        crate::model::step_truncate(d1, up);
        let d2 = d1.after(Action::Truncate(up));
        assert(d2.at(Spot::whiteout(Which::First)) == d1.at(Spot::whiteout(Which::First)));
    }
}

/// The change that setting a length makes.
pub open spec fn sized(n: Node, size: Option<u64>) -> Node {
    match size {
        Some(len) => n.with_data(crate::model::resized(n.data, len as nat)),
        None => n,
    }
}

/// The change that setting permissions makes.
pub open spec fn moded(n: Node, mode: Option<u32>) -> Node {
    match mode {
        Some(m) if !n.is_symlink() => n.with_meta(
            Meta { mode: crate::model::with_mode(n.meta.mode, m), ..n.meta },
        ),
        _ => n,
    }
}

/// The change that setting user and group makes. The largest number stands for none.
pub open spec fn owned(n: Node, uid: Option<u32>, gid: Option<u32>) -> Node {
    n.with_meta(
        Meta {
            uid: match uid {
                Some(u) if u != u32::MAX => u,
                _ => n.meta.uid,
            },
            gid: match gid {
                Some(g) if g != u32::MAX => g,
                _ => n.meta.gid,
            },
            ..n.meta
        },
    )
}

/// The time that an entry has after a setting: the one it had, if none is given; the moment
/// of the operation, if that is asked for; else the given one, but none before the epoch.
pub open spec fn settled(d: Disk, t: Option<TimeSet>, was: Stamp) -> Stamp {
    match t {
        None => was,
        Some(TimeSet::Keep) => was,
        Some(TimeSet::Now) => d.oracle.now,
        Some(TimeSet::At(s)) => if s.secs >= 0 {
            s
        } else {
            Stamp { secs: 0, nanos: 0 }
        },
    }
}

/// The change that setting times makes. One that is not given stays as it is.
pub open spec fn timed(d: Disk, n: Node, atime: Option<TimeSet>, mtime: Option<TimeSet>) -> Node {
    if atime is Some || mtime is Some {
        n.with_meta(
            Meta {
                atime: settled(d, atime, n.meta.atime),
                mtime: settled(d, mtime, n.meta.mtime),
                ..n.meta
            },
        )
    } else {
        n
    }
}

/// All the changes that setting attributes makes.
pub open spec fn altered(d: Disk, n: Node, set: SetAttr) -> Node {
    timed(d, owned(moded(sized(n, set.size), set.mode), set.uid, set.gid), set.atime, set.mtime)
}

/// A step changes the upper entry in the given way, or fails and changes nothing else.
pub open spec fn turns(d: Disk, flow: Flow<()>, n: Node) -> bool {
    match flow {
        Flow::Got(_, World::Disk(e)) => {
            &&& crate::model::all_but(d, e, Spot::upper(Which::First))
            &&& e.at(Spot::upper(Which::First)) == Some(n)
        },
        Flow::Fail(c, World::Disk(e)) => {
            &&& crate::model::all_but(d, e, Spot::upper(Which::First))
            &&& crate::model::blames(e, c)
        },
        _ => false,
    }
}

proof fn lemma_settings(d: Disk, set: SetAttr)
    requires
        d.at(Spot::upper(Which::First)) is Some,
    ensures
        ({
            let n = d.at(Spot::upper(Which::First))->0;
            let link = n.is_symlink();
            &&& !(link && set.size is Some) ==> turns(
                d,
                OverlayOps::setting_size(set.size, link, World::Disk(d)),
                sized(n, set.size),
            )
            &&& turns(d, OverlayOps::setting_mode(set.mode, link, World::Disk(d)), moded(n, set.mode))
            &&& turns(
                d,
                OverlayOps::setting_owner(set.uid, set.gid, World::Disk(d)),
                owned(n, set.uid, set.gid),
            )
            &&& turns(
                d,
                OverlayOps::setting_times(set.atime, set.mtime, World::Disk(d)),
                timed(d, n, set.atime, set.mtime),
            )
            &&& link && set.size is Some ==> OverlayOps::setting_size(
                set.size,
                link,
                World::Disk(d),
            ) == Flow::<()>::Fail(EINVAL, World::Disk(d))
            &&& crate::model::never_faults(d) ==> {
                &&& (set.size is Some ==> n.is_file()) ==> OverlayOps::setting_size(
                    set.size,
                    link,
                    World::Disk(d),
                ) is Got
                &&& OverlayOps::setting_mode(set.mode, link, World::Disk(d)) is Got
                &&& OverlayOps::setting_owner(set.uid, set.gid, World::Disk(d)) is Got
                &&& OverlayOps::setting_times(set.atime, set.mtime, World::Disk(d)) is Got
            }
        }),
{
    let up = Spot::upper(Which::First);
    let n = d.at(up)->0;
    reveal(Disk::possible);
    if let Some(len) = set.size {
        let a = Action::SetLen(up, len);
        crate::model::step_change(d, a);
        crate::model::step_frame(d, a);
        assert(d.works(a) ==> d.after(a).at(up) == Some(sized(n, set.size))) by {
            reveal(Disk::changed);
        }
    }
    if let Some(m) = set.mode {
        let a = Action::SetMode(up, m);
        crate::model::step_change(d, a);
        crate::model::step_frame(d, a);
        assert(d.works(a) ==> d.after(a).at(up) == Some(moded(n, set.mode))) by {
            reveal(Disk::changed);
        }
    }
    if set.uid is Some || set.gid is Some {
        let a = Action::SetOwner(
            up,
            match set.uid {
                Some(u) => u,
                None => u32::MAX,
            },
            match set.gid {
                Some(g) => g,
                None => u32::MAX,
            },
        );
        crate::model::step_change(d, a);
        crate::model::step_frame(d, a);
        assert(d.works(a) ==> d.after(a).at(up) == Some(owned(n, set.uid, set.gid))) by {
            reveal(Disk::changed);
        }
    }
    if set.atime is Some || set.mtime is Some {
        let a = Action::SetTimes(
            up,
            OverlayOps::time_to_set(set.atime),
            OverlayOps::time_to_set(set.mtime),
        );
        crate::model::step_change(d, a);
        crate::model::step_frame(d, a);
        assert(d.works(a) ==> d.after(a).at(up) == Some(timed(d, n, set.atime, set.mtime))) by {
            reveal(Disk::changed);
        }
    }
}

/// Setting attributes brings up the entry and changes in its upper entry what was asked,
/// and nothing else; the lower layer is as it was. Where nothing fails, it succeeds for every
/// entry that is found, if no length is asked for of anything but a file.
pub proof fn law_setattr(d: Disk, place: Place, set: SetAttr)
    ensures
        match OverlayOps::altering(place, set, World::Disk(d)) {
            Flow::Got(_, World::Disk(e)) => {
                &&& crate::laws::layering::seen(e, place, Which::First) == Some(Layer::Upper)
                &&& crate::model::all_but(d, e, Spot::upper(Which::First))
                &&& LayerManager::promoting(place, Which::First, World::Disk(d)) matches Flow::Got(
                    _,
                    World::Disk(p),
                ) && e.at(Spot::upper(Which::First)) == Some(
                    altered(d, p.at(Spot::upper(Which::First))->0, set),
                )
            },
            Flow::Fail(c, World::Disk(e)) => {
                &&& crate::model::all_but(d, e, Spot::upper(Which::First))
                &&& found(d, place) is Some && !(set.size is Some && found(
                    d,
                    place,
                )->0.is_symlink()) ==> crate::model::blames(e, c)
                &&& !(crate::model::never_faults(d) && found(d, place) is Some && (
                set.size is Some ==> found(d, place)->0.is_file()))
            },
            _ => false,
        },
{
    let up = Spot::upper(Which::First);
    crate::laws::layering::law_promotion(d, place, Which::First);
    crate::laws::layering::law_promotion_frame(d, place, Which::First);
    if crate::model::never_faults(d) && found(d, place) is Some {
        crate::laws::layering::law_promotion_succeeds(d, place, Which::First);
    }
    if let Flow::Got(_, World::Disk(p)) = LayerManager::promoting(
        place,
        Which::First,
        World::Disk(d),
    ) {
        crate::model::step_lstat(p, up);
        let d1 = p.after(Action::Lstat(up));
        let n = d1.at(up)->0;
        let link = n.is_symlink();
        lemma_settings(d1, set);
        if let Flow::Got(_, World::Disk(d2)) = OverlayOps::setting_size(
            set.size,
            link,
            World::Disk(d1),
        ) {
            lemma_settings(d2, set);
            assert(d2.at(up)->0.is_symlink() == link);
            if let Flow::Got(_, World::Disk(d3)) = OverlayOps::setting_mode(
                set.mode,
                link,
                World::Disk(d2),
            ) {
                lemma_settings(d3, set);
                if let Flow::Got(_, World::Disk(d4)) = OverlayOps::setting_owner(
                    set.uid,
                    set.gid,
                    World::Disk(d3),
                ) {
                    lemma_settings(d4, set);
                    if let Flow::Got(_, World::Disk(d5)) = OverlayOps::setting_times(
                        set.atime,
                        set.mtime,
                        World::Disk(d4),
                    ) {
                        assert(d5.at(Spot::whiteout(Which::First)) == d.at(
                            Spot::whiteout(Which::First),
                        ));
                    }
                }
            }
        }
    }
}

/// The length of a link cannot be set.
pub proof fn law_setattr_refuses_link_size(d: Disk, place: Place, set: SetAttr)
    requires
        found(d, place) is Some,
        found(d, place)->0.is_symlink(),
        set.size is Some,
    ensures
        OverlayOps::altering(place, set, World::Disk(d)) is Fail,
        crate::model::never_faults(d) ==> (OverlayOps::altering(
            place,
            set,
            World::Disk(d),
        ) matches Flow::Fail(c, _) && c == EINVAL),
{
    let up = Spot::upper(Which::First);
    crate::laws::layering::law_promotion(d, place, Which::First);
    crate::laws::layering::law_promotion_frame(d, place, Which::First);
    if crate::model::never_faults(d) {
        crate::laws::layering::law_promotion_succeeds(d, place, Which::First);
    }
    if let Flow::Got(_, World::Disk(p)) = LayerManager::promoting(
        place,
        Which::First,
        World::Disk(d),
    ) {
        crate::model::step_lstat(p, up);
        lemma_settings(p.after(Action::Lstat(up)), set);
    }
}

/// The extended attributes of the entry that is found, and of it when it is brought up.
proof fn lemma_promoted_xattrs(d: Disk, place: Place)
    requires
        found(d, place) is Some,
    ensures
        LayerManager::promoting(place, Which::First, World::Disk(d)) matches Flow::Got(
            _,
            World::Disk(e),
        ) ==> {
            let up = e.at(Spot::upper(Which::First));
            &&& up is Some && up->0.xattrs == found(d, place)->0.xattrs
            &&& crate::laws::layering::brought_up(d, place, Which::First, up->0)
            &&& crate::laws::layering::seen(e, place, Which::First) == Some(Layer::Upper)
            &&& crate::model::all_but(d, e, Spot::upper(Which::First))
        },
        crate::model::never_faults(d) ==> LayerManager::promoting(
            place,
            Which::First,
            World::Disk(d),
        ) is Got,
{
    crate::laws::layering::law_promotion(d, place, Which::First);
    if crate::model::never_faults(d) {
        crate::laws::layering::law_promotion_succeeds(d, place, Which::First);
    }
}

/// An entry is what was found, brought up if it was in the lower layer, in all but its
/// extended attributes.
pub open spec fn same_but_xattrs(d: Disk, place: Place, now: Node) -> bool {
    match crate::laws::layering::seen(d, place, Which::First) {
        None => false,
        Some(Layer::Upper) => now == (Node { xattrs: now.xattrs, ..found(d, place)->0 }),
        Some(Layer::Lower) => {
            &&& crate::laws::layering::copied(found(d, place)->0, now)
            &&& crate::model::never_faults(d) ==> crate::laws::layering::kept_from(
                found(d, place)->0,
                now,
            )
        },
    }
}

/// Setting an extended attribute sets that one alone, in the upper layer; nothing else of
/// the entry differs, nor does anything else. Where nothing fails, it succeeds.
pub proof fn law_setxattr(d: Disk, place: Place)
    requires
        found(d, place) is Some,
    ensures
        match OverlayOps::setting_xattr(place, World::Disk(d)) {
            Flow::Got(_, World::Disk(e)) => {
                &&& crate::laws::layering::seen(e, place, Which::First) == Some(Layer::Upper)
                &&& found(e, place)->0.xattrs == found(d, place)->0.xattrs.insert(
                    d.load.name,
                    d.load.value,
                )
                &&& same_but_xattrs(d, place, found(e, place)->0)
                &&& crate::model::all_but(d, e, Spot::upper(Which::First))
            },
            Flow::Fail(c, World::Disk(e)) => {
                &&& crate::model::all_but(d, e, Spot::upper(Which::First))
                &&& !crate::model::never_faults(d)
                &&& crate::model::blames(e, c)
            },
            _ => false,
        },
{
    let up = Spot::upper(Which::First);
    lemma_promoted_xattrs(d, place);
    crate::laws::layering::law_promotion_frame(d, place, Which::First);
    if let Flow::Got(_, World::Disk(d1)) = LayerManager::promoting(
        place,
        Which::First,
        World::Disk(d),
    ) {
        let a = Action::SetXattr(up);
        crate::model::step_change(d1, a);
        crate::model::step_frame(d1, a);
        let e = d1.after(a);
        assert(e.at(Spot::whiteout(Which::First)) == d1.at(Spot::whiteout(Which::First)));
        assert(d1.works(a) ==> e.at(up) is Some && e.at(up)->0 == (Node {
            xattrs: d1.at(up)->0.xattrs.insert(d.load.name, d.load.value),
            ..d1.at(up)->0
        })) by {
            reveal(Disk::changed);
        }
        assert(d1.possible(a)) by {
            reveal(Disk::possible);
        }
    }
}

/// Removing an extended attribute removes that one alone, in the upper layer; nothing else
/// of the entry differs, nor does anything else. Where nothing fails, it succeeds if the entry
/// that is found has the attribute, and only then.
pub proof fn law_removexattr(d: Disk, place: Place)
    requires
        found(d, place) is Some,
    ensures
        match OverlayOps::removing_xattr(place, World::Disk(d)) {
            Flow::Got(_, World::Disk(e)) => {
                &&& found(d, place)->0.xattrs.contains_key(d.load.name)
                &&& crate::laws::layering::seen(e, place, Which::First) == Some(Layer::Upper)
                &&& found(e, place)->0.xattrs == found(d, place)->0.xattrs.remove(d.load.name)
                &&& same_but_xattrs(d, place, found(e, place)->0)
                &&& crate::model::all_but(d, e, Spot::upper(Which::First))
            },
            Flow::Fail(c, World::Disk(e)) => {
                &&& crate::model::all_but(d, e, Spot::upper(Which::First))
                &&& crate::model::blames(e, c)
                &&& crate::model::never_faults(d) ==> !found(d, place)->0.xattrs.contains_key(
                    d.load.name,
                )
            },
            _ => false,
        },
{
    let up = Spot::upper(Which::First);
    lemma_promoted_xattrs(d, place);
    crate::laws::layering::law_promotion_frame(d, place, Which::First);
    if let Flow::Got(_, World::Disk(d1)) = LayerManager::promoting(
        place,
        Which::First,
        World::Disk(d),
    ) {
        let a = Action::RemoveXattr(up);
        crate::model::step_change(d1, a);
        crate::model::step_frame(d1, a);
        let e = d1.after(a);
        assert(e.at(Spot::whiteout(Which::First)) == d1.at(Spot::whiteout(Which::First)));
        assert(d1.works(a) ==> e.at(up) is Some && e.at(up)->0 == (Node {
            xattrs: d1.at(up)->0.xattrs.remove(d.load.name),
            ..d1.at(up)->0
        })) by {
            reveal(Disk::changed);
        }
        assert(d1.possible(a) == d1.at(up)->0.xattrs.contains_key(d.load.name)) by {
            reveal(Disk::possible);
        }
    }
}

/// The value of an extended attribute is that of the entry that is found: its length if no
/// room is given, `ERANGE` if the room is too small, `ENODATA` if there is no such one.
pub proof fn law_getxattr(d: Disk, place: Place, size: u32)
    requires
        found(d, place) is Some,
    ensures
        ({
            let x = found(d, place)->0.xattrs;
            let flow = OverlayOps::getting_xattr(place, size, World::Disk(d));
            &&& if !x.contains_key(d.load.name) {
                flow matches Flow::Fail(c, _) && c == ENODATA
            } else {
                let v = x[d.load.name];
                if size == 0 {
                    flow matches Flow::Got(a, _) && a == XattrAnswer::Size((v.len() as i64) as u32)
                } else if v.len() <= size {
                    flow matches Flow::Got(a, _) && a == XattrAnswer::Data(v)
                } else {
                    flow matches Flow::Fail(c, _) && c == ERANGE
                }
            }
            &&& match flow {
                Flow::Got(_, World::Disk(e)) => crate::model::only_later(d, e),
                Flow::Fail(_, World::Disk(e)) => crate::model::only_later(d, e),
                _ => false,
            }
        }),
{
    crate::laws::layering::law_resolve(d, place, Which::First);
    if let Flow::Got(Some(layer), World::Disk(d1)) = LayerManager::resolving(
        place,
        Which::First,
        World::Disk(d),
    ) {
        crate::model::step_get_xattr(d1, Spot::entry(layer, Which::First), size);
    }
}

/// A value that was set is given back, and one that was removed is not.
pub proof fn law_xattr_round_trip(d: Disk, place: Place, size: u32)
    requires
        found(d, place) is Some,
        0 < size,
        d.load.value.len() <= size,
    ensures
        OverlayOps::setting_xattr(place, World::Disk(d)) matches Flow::Got(_, w) ==> (
        OverlayOps::getting_xattr(place, size, w) matches Flow::Got(a, _) && a
            == XattrAnswer::Data(d.load.value)),
        OverlayOps::removing_xattr(place, World::Disk(d)) matches Flow::Got(_, w) ==> (
        OverlayOps::getting_xattr(place, size, w) matches Flow::Fail(c, _) && c == ENODATA),
{
    law_setxattr(d, place);
    law_removexattr(d, place);
    crate::laws::layering::law_promotion_frame(d, place, Which::First);
    if let Flow::Got(_, World::Disk(p)) = LayerManager::promoting(
        place,
        Which::First,
        World::Disk(d),
    ) {
        let up = Spot::upper(Which::First);
        let set = p.after(Action::SetXattr(up));
        let removed = p.after(Action::RemoveXattr(up));
        crate::model::step_change(p, Action::SetXattr(up));
        crate::model::step_change(p, Action::RemoveXattr(up));
        if OverlayOps::setting_xattr(place, World::Disk(d)) is Got {
            law_getxattr(set, place, size);
        }
        if OverlayOps::removing_xattr(place, World::Disk(d)) is Got {
            law_getxattr(removed, place, size);
        }
    }
}

} // verus!
