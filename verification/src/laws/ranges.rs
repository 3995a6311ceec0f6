//! Copying between files, allocating, seeking and testing for access.

use crate::errno::{EACCES, EINVAL, EIO, ENOENT};
use crate::fuse_ops::{FsStat, OverlayOps, SetAttr, SEEK_CUR, SEEK_END, SEEK_SET, X_OK};
use crate::layers::{LayerManager, Place};
use crate::model::{Disk, Node};
use crate::protocol::{Action, Answer, Flow, Layer, Space, Spot, Which, World};
use vstd::prelude::*;

verus! {

/// The entry found under one of the paths.
pub open spec fn found_at(d: Disk, place: Place, which: Which) -> Option<Node> {
    match crate::laws::layering::seen(d, place, which) {
        Some(layer) => d.at(Spot::entry(layer, which)),
        None => None,
    }
}

/// A copy between two files puts bytes of the first, as many as it says, into the second,
/// and leaves the rest of that as it was, its permissions and extended attributes too, and
/// where nothing fails its owner and its times. The second is then in the upper layer; nothing
/// else has changed. Where nothing fails, it comes about.
pub proof fn law_copy_range(
    d: Disk,
    place_in: Place,
    place_out: Place,
    offset_in: u64,
    offset_out: u64,
    len: u64,
)
    requires
        found_at(d, place_in, Which::First) is Some,
        found_at(d, place_out, Which::Second) matches Some(n) && n.is_file(),
        len <= u32::MAX,
    ensures
        match OverlayOps::ranging(
            place_in,
            place_out,
            offset_in,
            offset_out,
            len,
            World::Disk(d),
        ) {
            Flow::Got(n, World::Disk(e)) => {
                let src = found_at(d, place_in, Which::First)->0;
                let dst = found_at(d, place_out, Which::Second)->0;
                let bytes = crate::model::piece(src.data, offset_in as nat, len as nat);
                let up = e.at(Spot::upper(Which::Second));
                &&& n <= bytes.len()
                &&& n == crate::model::moved_last(e, bytes.len())
                &&& crate::model::asked_last(
                    e,
                    Action::CopyRange(offset_in, offset_out, len),
                )
                &&& crate::model::worked(e)
                &&& crate::laws::layering::seen(e, place_out, Which::Second) == Some(Layer::Upper)
                &&& up is Some && up->0.is_file()
                &&& up->0.data == crate::model::spliced(
                    dst.data,
                    offset_out as nat,
                    bytes.take(n as int),
                )
                &&& up->0.meta.size == up->0.data.len() as u64
                &&& crate::laws::layering::as_found(d, dst, up->0)
                &&& crate::laws::layering::seen(d, place_out, Which::Second) == Some(Layer::Upper)
                    ==> up->0 == dst.with_data(up->0.data)
                &&& crate::model::all_but(d, e, Spot::upper(Which::Second))
            },
            Flow::Fail(c, World::Disk(e)) => {
                &&& crate::model::all_but(d, e, Spot::upper(Which::Second))
                &&& !crate::model::never_faults(d)
                &&& crate::model::blames(e, c)
            },
            _ => false,
        },
{
    crate::laws::layering::law_resolve(d, place_in, Which::First);
    if let Flow::Got(Some(layer), World::Disk(d1)) = LayerManager::resolving(
        place_in,
        Which::First,
        World::Disk(d),
    ) {
        let src = Spot::entry(layer, Which::First);
        let dst = Spot::upper(Which::Second);
        crate::laws::layering::lemma_seen_same(d, d1, place_out, Which::Second);
        crate::laws::layering::law_promotion(d1, place_out, Which::Second);
        crate::laws::layering::law_promotion_frame(d1, place_out, Which::Second);
        if crate::model::never_faults(d1) {
            crate::laws::layering::law_promotion_succeeds(d1, place_out, Which::Second);
        }
        if let Flow::Got(_, World::Disk(d2)) = LayerManager::promoting(
            place_out,
            Which::Second,
            World::Disk(d1),
        ) {
            assert(d2.at(src) == d1.at(src));
            crate::model::step_open_read(d2, src);
            let d3 = d2.after(Action::OpenRead(src));
            assert(d3.at(dst) == d2.at(dst) && d3.at(src) == d2.at(src));
            crate::model::step_open_write(d3, dst);
            let d4 = d3.after(Action::OpenWrite(dst));
            assert(d4.at(dst) == d3.at(dst) && d4.at(src) == d3.at(src));
            if d4.reading == Some(src) && d4.writing == Some(dst) {
                crate::model::step_copy_range(d4, src, dst, offset_in, offset_out, len);
                let d5 = d4.after(Action::CopyRange(offset_in, offset_out, len));
                crate::model::step_log(d4, Action::CopyRange(offset_in, offset_out, len));
                let marker = Spot::whiteout(Which::Second);
                assert(d5.at(marker) == d4.at(marker) && d4.at(marker) == d3.at(marker)
                    && d3.at(marker) == d2.at(marker));
                let bytes = crate::model::piece(d4.at(src)->0.data, offset_in as nat, len as nat);
                let k = d4.moves(bytes.len());
                assert(bytes.len() <= len);
                assert((k as i64) as u32 == k);
            }
        }
    }
}

/// Allocating keeps the content of a file; in the plain mode the file is then at least as
/// long as the range, filled up with zero bytes. The file is then in the upper layer, with the
/// permissions and extended attributes that it had, and where nothing fails with its owner and
/// its times; nothing else has changed. Where nothing fails, it comes about.
pub proof fn law_fallocate(d: Disk, place: Place, offset: u64, length: u64, mode: i32)
    requires
        found_at(d, place, Which::First) matches Some(n) && n.is_file(),
    ensures
        match OverlayOps::allocating(place, offset, length, mode, World::Disk(d)) {
            Flow::Got(_, World::Disk(e)) => {
                let old = found_at(d, place, Which::First)->0.data;
                let up = e.at(Spot::upper(Which::First));
                &&& crate::model::worked(e)
                &&& crate::model::asked_last(e, Action::Allocate(offset, length, mode))
                &&& crate::laws::layering::seen(e, place, Which::First) == Some(Layer::Upper)
                &&& up is Some && up->0.is_file()
                &&& up->0.data == if mode == 0 && old.len() < offset + length {
                    crate::model::resized(old, (offset + length) as nat)
                } else {
                    old
                }
                &&& crate::laws::layering::as_found(
                    d,
                    found_at(d, place, Which::First)->0,
                    up->0,
                )
                &&& crate::laws::layering::seen(d, place, Which::First) == Some(Layer::Upper)
                    && up->0.data == old ==> up == found_at(d, place, Which::First)
                &&& crate::model::all_but(d, e, Spot::upper(Which::First))
            },
            Flow::Fail(c, World::Disk(e)) => {
                &&& crate::model::all_but(d, e, Spot::upper(Which::First))
                &&& !crate::model::never_faults(d)
                &&& crate::model::blames(e, c)
            },
            _ => false,
        },
{
    let up = Spot::upper(Which::First);
    crate::laws::layering::law_promotion(d, place, Which::First);
    crate::laws::layering::law_promotion_frame(d, place, Which::First);
    if crate::model::never_faults(d) {
        crate::laws::layering::law_promotion_succeeds(d, place, Which::First);
    }
    if let Flow::Got(_, World::Disk(d1)) = LayerManager::promoting(
        place,
        Which::First,
        World::Disk(d),
    ) {
        crate::model::step_open_write(d1, up);
        let d2 = d1.after(Action::OpenWrite(up));
        assert(d2.at(up) == d1.at(up));
        if d2.writing == Some(up) {
            crate::model::step_allocate(d2, up, offset, length, mode);
            let d3 = d2.after(Action::Allocate(offset, length, mode));
            crate::model::step_log(d2, Action::Allocate(offset, length, mode));
            let marker = Spot::whiteout(Which::First);
            assert(d3.at(marker) == d2.at(marker) && d2.at(marker) == d1.at(marker));
        }
    }
}

/// Seeking from the start gives the position itself, from the end that many bytes beyond
/// it, and in both cases no position before the start. Seeking from the position at hand,
/// which nobody keeps, is refused.
pub proof fn law_seek(d: Disk, s: Spot, offset: i64)
    requires
        d.at(s) is Some,
        d.at(s)->0.meta.size <= i64::MAX,
    ensures
        OverlayOps::seeking(s, offset, SEEK_SET, World::Disk(d)) == if offset >= 0 {
            Flow::Got(offset, World::Disk(d))
        } else {
            Flow::Fail(EINVAL, World::Disk(d))
        },
        ({
            let end = d.at(s)->0.meta.size + offset;
            match OverlayOps::seeking(s, offset, SEEK_END, World::Disk(d)) {
                Flow::Got(p, World::Disk(e)) => p == end && 0 <= end <= i64::MAX
                    && crate::model::only_later(d, e),
                Flow::Fail(c, World::Disk(e)) => c == EINVAL && !(0 <= end <= i64::MAX)
                    && crate::model::only_later(d, e),
                _ => false,
            }
        }),
        OverlayOps::seeking(s, offset, SEEK_CUR, World::Disk(d)) == Flow::<i64>::Fail(
            EINVAL,
            World::Disk(d),
        ),
{
    crate::model::step_lstat(d, s);
}

/// Seeking in any other way is left to the system, on the entry opened for reading: the
/// position is the one that it gives, and what it refuses fails.
pub proof fn law_seek_by_system(s: Spot, offset: i64, whence: i32, t: Seq<Answer>, p: int)
    requires
        whence != SEEK_SET && whence != SEEK_CUR && whence != SEEK_END,
        0 <= p <= t.len(),
    ensures
        ({
            let flow = OverlayOps::seeking(s, offset, whence, World::Tape(t, p));
            &&& p == t.len() ==> flow == Flow::<i64>::Ask(Action::OpenRead(s))
            &&& p < t.len() && !(t[p] is Done) ==> flow == Flow::<i64>::Fail(
                t[p].code(),
                World::Tape(t, p + 1),
            )
            &&& p + 1 == t.len() && t[p] is Done ==> flow == Flow::<i64>::Ask(
                Action::SeekBy(offset, whence),
            )
            &&& p + 1 < t.len() && t[p] is Done ==> match t[p + 1] {
                Answer::Count(n) => flow == Flow::Got(n, World::Tape(t, p + 2)),
                r => flow == Flow::<i64>::Fail(r.code(), World::Tape(t, p + 2)),
            }
        }),
{
}

/// Access is denied to the superuser alone, and only to run a file that nobody may run.
/// What is found nowhere is told to be missing. Nothing is changed.
pub proof fn law_access(d: Disk, place: Place, uid: u32, mask: i32)
    ensures
        match OverlayOps::testing(place, uid, mask, World::Disk(d)) {
            Flow::Got(_, World::Disk(e)) => {
                &&& crate::model::only_later(d, e)
                &&& found_at(d, place, Which::First) matches Some(n) && (uid != 0 || mask & X_OK
                    == 0 || n.is_dir() || n.meta.mode & 0o111 != 0 || mask == 0)
            },
            Flow::Fail(c, World::Disk(e)) => {
                &&& crate::model::only_later(d, e)
                &&& match found_at(d, place, Which::First) {
                    None => c == ENOENT,
                    Some(n) => c == EACCES && uid == 0 && mask & X_OK != 0 && !n.is_dir()
                        && n.meta.mode & 0o111 == 0,
                }
            },
            _ => false,
        },
{
    crate::laws::layering::law_resolve(d, place, Which::First);
    if let Flow::Got(Some(layer), World::Disk(d1)) = LayerManager::resolving(
        place,
        Which::First,
        World::Disk(d),
    ) {
        crate::model::step_lstat(d1, Spot::entry(layer, Which::First));
    }
}

/// An operation ends with `ENOENT`, having changed nothing.
pub open spec fn misses<T>(d: Disk, flow: Flow<T>) -> bool {
    flow matches Flow::Fail(c, World::Disk(e)) && c == ENOENT && crate::model::only_later(d, e)
}

/// Whatever is asked of a path that is not found, it is told to be missing, and nothing has
/// changed.
pub proof fn law_missing_entry(
    d: Disk,
    place: Place,
    other: Place,
    offset: u64,
    length: u64,
    size: u32,
    uid: u32,
    flags: i32,
    set: SetAttr,
)
    requires
        crate::laws::layering::seen(d, place, Which::First) is None,
    ensures
        misses(d, OverlayOps::inspecting(place, World::Disk(d))),
        misses(d, OverlayOps::altering(place, set, World::Disk(d))),
        misses(d, OverlayOps::reading_link(place, World::Disk(d))),
        misses(d, OverlayOps::linking(place, other, World::Disk(d))),
        misses(d, OverlayOps::opening(place, flags, World::Disk(d))),
        misses(d, OverlayOps::reading(place, offset, size, World::Disk(d))),
        misses(d, OverlayOps::writing(place, offset, World::Disk(d))),
        misses(d, OverlayOps::allocating(place, offset, length, flags, World::Disk(d))),
        misses(d, OverlayOps::ranging(place, other, offset, offset, length, World::Disk(d))),
        misses(d, OverlayOps::testing(place, uid, flags, World::Disk(d))),
        misses(d, OverlayOps::setting_xattr(place, World::Disk(d))),
        misses(d, OverlayOps::removing_xattr(place, World::Disk(d))),
        misses(d, OverlayOps::getting_xattr(place, size, World::Disk(d))),
        misses(d, OverlayOps::naming(place, World::Disk(d))),
{
    crate::laws::layering::law_resolve(d, place, Which::First);
    crate::laws::layering::law_promotion_needs_entry(d, place, Which::First);
}

/// Nothing is copied to a path that is not found; that is told to be missing, and nothing has
/// changed.
pub proof fn law_missing_destination(
    d: Disk,
    place_in: Place,
    place_out: Place,
    offset_in: u64,
    offset_out: u64,
    len: u64,
)
    requires
        crate::laws::layering::seen(d, place_out, Which::Second) is None,
    ensures
        misses(
            d,
            OverlayOps::ranging(
                place_in,
                place_out,
                offset_in,
                offset_out,
                len,
                World::Disk(d),
            ),
        ),
{
    crate::laws::layering::law_resolve(d, place_in, Which::First);
    if let Flow::Got(Some(layer), World::Disk(d1)) = LayerManager::resolving(
        place_in,
        Which::First,
        World::Disk(d),
    ) {
        crate::laws::layering::lemma_seen_same(d, d1, place_out, Which::Second);
        crate::laws::layering::law_promotion_needs_entry(d1, place_out, Which::Second);
    }
}

/// A flow over the path of a number is that of its path, and a number without a path is told
/// to be missing.
pub proof fn law_from_path<T>(
    o: OverlayOps,
    ino: u64,
    w: World,
    next: spec_fn(Seq<u8>, World) -> Flow<T>,
)
    ensures
        o.inodes@.map.contains_key(ino) ==> o.from_path(ino, w, next) == next(
            o.inodes@.map[ino].path,
            w,
        ),
        !o.inodes@.map.contains_key(ino) ==> o.from_path(ino, w, next) == Flow::<T>::Fail(
            ENOENT,
            w,
        ),
{
}

/// Flags ask for writing exactly if their two lowest bits say to write or to read and write.
pub proof fn law_open_for_writing(flags: i32)
    ensures
        OverlayOps::wants_write(flags) <==> flags & 3 == 1 || flags & 3 == 2,
{
}

/// Flushing changes nothing. A file of the upper layer that can be opened is synced: if that
/// fails, the answer is `EIO`, and it never is anything else. Where nothing fails, it succeeds.
pub proof fn law_flush(d: Disk)
    ensures
        ({
            let up = Spot::upper(Which::First);
            let d1 = d.after(Action::Lstat(up));
            let d2 = d1.after(Action::OpenWrite(up));
            let synced = d.at(up) is Some && d.at(up)->0.is_file() && d1.works(
                Action::OpenWrite(up),
            );
            match OverlayOps::flushing(World::Disk(d)) {
                Flow::Got(_, World::Disk(e)) => {
                    &&& forall|s: Spot| #[trigger] e.at(s) == d.at(s)
                    &&& crate::model::rest_kept(d, e)
                    &&& synced ==> d2.works(Action::SyncAll) && crate::model::asked_last(
                        e,
                        Action::SyncAll,
                    )
                },
                Flow::Fail(c, World::Disk(e)) => {
                    &&& forall|s: Spot| #[trigger] e.at(s) == d.at(s)
                    &&& crate::model::rest_kept(d, e)
                    &&& c == EIO && synced && !d2.works(Action::SyncAll)
                },
                _ => false,
            }
        }),
        crate::model::never_faults(d) ==> OverlayOps::flushing(World::Disk(d)) is Got,
{
    let up = Spot::upper(Which::First);
    crate::model::step_lstat(d, up);
    let d1 = d.after(Action::Lstat(up));
    crate::model::step_open_write(d1, up);
    let d2 = d1.after(Action::OpenWrite(up));
    crate::model::step_change(d2, Action::SyncAll);
    crate::model::step_frame(d2, Action::SyncAll);
    assert(d1.reply(Action::OpenWrite(up)) is Done <==> d1.works(Action::OpenWrite(up))) by {
        reveal(Disk::reply);
    }
    assert(d2.possible(Action::SyncAll)) by {
        reveal(Disk::possible);
    }
    crate::model::step_log(d2, Action::SyncAll);
}

/// Syncing changes nothing. A file of the upper layer is opened and synced, and if either
/// fails, so does it. Where nothing fails, it succeeds.
pub proof fn law_fsync(d: Disk, datasync: bool)
    ensures
        ({
            let up = Spot::upper(Which::First);
            let d1 = d.after(Action::Lstat(up));
            let d2 = d1.after(Action::OpenWrite(up));
            let file = d.at(up) is Some && d.at(up)->0.is_file();
            match OverlayOps::syncing(datasync, World::Disk(d)) {
                Flow::Got(_, World::Disk(e)) => {
                    &&& forall|s: Spot| #[trigger] e.at(s) == d.at(s)
                    &&& crate::model::rest_kept(d, e)
                    &&& file ==> d1.works(Action::OpenWrite(up)) && d2.works(
                        Action::Fsync(datasync),
                    ) && crate::model::asked_last(e, Action::Fsync(datasync))
                },
                Flow::Fail(c, World::Disk(e)) => {
                    &&& forall|s: Spot| #[trigger] e.at(s) == d.at(s)
                    &&& crate::model::rest_kept(d, e)
                    &&& file
                    &&& d1.works(Action::OpenWrite(up)) ==> c == d2.reply(
                        Action::Fsync(datasync),
                    ).code()
                    &&& !d1.works(Action::OpenWrite(up)) ==> c == d1.reply(
                        Action::OpenWrite(up),
                    ).code()
                },
                _ => false,
            }
        }),
        crate::model::never_faults(d) ==> OverlayOps::syncing(datasync, World::Disk(d)) is Got,
{
    let up = Spot::upper(Which::First);
    crate::model::step_lstat(d, up);
    let d1 = d.after(Action::Lstat(up));
    crate::model::step_open_write(d1, up);
    let d2 = d1.after(Action::OpenWrite(up));
    crate::model::step_change(d2, Action::Fsync(datasync));
    crate::model::step_frame(d2, Action::Fsync(datasync));
    assert(d1.reply(Action::OpenWrite(up)) is Done <==> d1.works(Action::OpenWrite(up))) by {
        reveal(Disk::reply);
    }
    assert(d2.possible(Action::Fsync(datasync))) by {
        reveal(Disk::possible);
    }
    crate::model::step_log(d2, Action::Fsync(datasync));
}

/// The overlay is told to be as large as the lower layer and to have the room of the upper
/// one.
pub open spec fn measures(r: FsStat, lower: Space, upper: Space) -> bool {
    &&& r.blocks == lower.blocks
    &&& r.files == lower.files
    &&& r.bfree == upper.bfree
    &&& r.bavail == upper.bavail
    &&& r.ffree == upper.ffree
    &&& upper.bsize <= u32::MAX ==> r.bsize == upper.bsize
    &&& upper.namemax <= u32::MAX ==> r.namelen == upper.namemax
    &&& upper.frsize <= u32::MAX ==> r.frsize == upper.frsize
}

/// The size and the fill of the overlay: that many blocks and files as the lower layer has,
/// and the room of the upper layer. Where one of the two is not known, nothing is told to be
/// there. It never fails and changes nothing.
pub proof fn law_statfs(d: Disk)
    ensures
        OverlayOps::measuring(World::Disk(d)) matches Flow::Got(r, World::Disk(e)) && {
            &&& forall|s: Spot| #[trigger] e.at(s) == d.at(s)
            &&& crate::model::rest_kept(d, e)
            &&& match ((d.oracle.space)(Layer::Lower), (d.oracle.space)(Layer::Upper)) {
                (Some(lower), Some(upper)) => measures(r, lower, upper),
                _ => {
                    &&& r.blocks == 0 && r.bfree == 0 && r.bavail == 0
                    &&& r.files == 0 && r.ffree == 0
                    &&& r.bsize == 512 && r.namelen == 255 && r.frsize == 0
                },
            }
        },
{
    reveal(Disk::reply);
    reveal(Disk::after);
    reveal(Disk::changed);
}

} // verus!
