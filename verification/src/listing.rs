//! What a directory shows: the entries of both layers, without what is hidden.

use crate::attr::{entry_file_type, make_attr, FileAttr};
use crate::errno::ENOTEMPTY;
use crate::fuse_ops::OverlayOps;
use crate::inode::{Inodes, ROOT_INO};
use crate::layers::{wh_bytes, LayerManager, Place};
use crate::path::{bytes_eq, copy_range, holds_bytes, FsPath};
use crate::protocol::{
    Action, DirItem, FileKind, Flow, Layer, Meta, Named, Spot, Stop, Tape, Which, World,
};
use crate::text::to_lossy;
use vstd::prelude::*;

verus! {

/// An entry that a directory shows.
pub struct Shown {
    /// The name as it is on disk.
    pub name: Seq<u8>,
    pub kind: FileKind,
    pub layer: Layer,
}

impl Shown {
    /// The name as it is shown.
    pub open spec fn text(self) -> Seq<u8> {
        crate::text::lossy(self.name)
    }
}

/// An entry that a directory shows.
pub struct ShownEntry {
    /// The name as it is on disk.
    pub name: Vec<u8>,
    /// The name as it is shown.
    pub text: Vec<u8>,
    pub kind: FileKind,
    pub layer: Layer,
}

impl View for ShownEntry {
    type V = Shown;

    open spec fn view(&self) -> Shown {
        Shown { name: self.name@, kind: self.kind, layer: self.layer }
    }
}

impl ShownEntry {
    /// The name is shown as it should be.
    pub open spec fn wf(self) -> bool {
        self.text@ == self@.text()
    }
}

/// The views of a listing.
pub open spec fn shown_views(list: Seq<ShownEntry>) -> Seq<Shown> {
    Seq::new(list.len(), |i: int| list[i]@)
}

/// Every name of a listing is shown as it should be.
pub open spec fn all_wf(list: Seq<ShownEntry>) -> bool {
    forall|i: int| 0 <= i < list.len() ==> (#[trigger] list[i]).wf()
}

/// The names in a listing, as they are shown.
pub open spec fn shown_texts(list: Seq<Shown>) -> Set<Seq<u8>> {
    Set::new(|x: Seq<u8>| exists|i: int| 0 <= i < list.len() && (#[trigger] list[i]).text() == x)
}

/// The name is that of a marker.
pub open spec fn is_marker(text: Seq<u8>) -> bool {
    crate::layers::wh_prefix().is_prefix_of(text)
}

/// The name that a marker hides.
pub open spec fn hidden_name(text: Seq<u8>) -> Seq<u8> {
    text.skip(crate::layers::wh_prefix().len() as int)
}

/// The name of an item, as it is shown.
pub open spec fn item_text(item: Named) -> Option<Seq<u8>> {
    match item {
        Named::Entry(name, _) => Some(crate::text::lossy(name)),
        Named::Broken(_) => None,
    }
}

/// Some item of a directory is shown under the name.
pub open spec fn has_item(items: Seq<Named>, text: Seq<u8>) -> bool {
    exists|i: int| 0 <= i < items.len() && item_text(#[trigger] items[i]) == Some(text)
}

/// An item of the lower directory is seen in the directory although the upper one does not
/// have it: no marker hides it.
pub open spec fn is_missing(upper: Seq<Named>, item: Named) -> bool {
    item_text(item) matches Some(text) && !has_item(upper, text) && !has_item(
        upper,
        crate::layers::wh_prefix() + text,
    )
}

/// The items of the upper directory, with those of the lower one that are seen in it too.
pub open spec fn joined(upper: Seq<Named>, lower: Seq<Named>) -> Seq<Named>
    decreases lower.len(),
{
    if lower.len() == 0 {
        upper
    } else {
        let rest = joined(upper, lower.drop_last());
        if is_missing(upper, lower.last()) {
            rest.push(lower.last())
        } else {
            rest
        }
    }
}

/// The names that the markers among the items of a directory hide.
pub open spec fn hidden_names(items: Seq<Named>) -> Set<Seq<u8>>
    decreases items.len(),
{
    if items.len() == 0 {
        Set::empty()
    } else {
        let rest = hidden_names(items.drop_last());
        match items.last() {
            Named::Entry(name, _) => {
                let text = crate::text::lossy(name);
                if is_marker(text) {
                    rest.insert(hidden_name(text))
                } else {
                    rest
                }
            },
            Named::Broken(_) => rest,
        }
    }
}

/// The items of a directory that are shown: those whose name is not left out, and is not
/// that of a marker where markers are told apart.
pub open spec fn shown(items: Seq<Named>, layer: Layer, out: Set<Seq<u8>>) -> Seq<Shown>
    decreases items.len(),
{
    if items.len() == 0 {
        Seq::empty()
    } else {
        let rest = shown(items.drop_last(), layer, out);
        match items.last() {
            Named::Entry(name, kind) => {
                let text = crate::text::lossy(name);
                if out.contains(text) || (layer is Upper && is_marker(text)) {
                    rest
                } else {
                    rest.push(Shown { name, kind: crate::attr::listed_kind(kind), layer })
                }
            },
            Named::Broken(_) => rest,
        }
    }
}

/// What a directory shows, given what it holds in the upper layer and, unless that one
/// replaces it, in the lower layer.
pub open spec fn merged_listing(upper: Seq<Named>, lower: Seq<Named>) -> Seq<Shown> {
    let hidden = hidden_names(upper);
    let ups = shown(upper, Layer::Upper, hidden);
    ups + shown(lower, Layer::Lower, hidden.union(shown_texts(ups)))
}

/// Whether nothing of the lower layer is seen in a directory: it replaces its counterpart,
/// or one above it does.
pub open spec fn closed_off(depth: nat, w: World) -> Flow<bool> {
    crate::xattr::sealed(Spot::upper(Which::First), w).bind(
        |opaque: bool, w: World|
            if opaque {
                Flow::Got(true, w)
            } else {
                LayerManager::covering(Which::First, 0, depth, w)
            },
    )
}

/// Reads both layers of a directory and merges them.
pub open spec fn listing(depth: nat, w: World) -> Flow<Seq<Shown>> {
    Action::ReadDir(Spot::upper(Which::First)).names(w).bind(
        |upper: Seq<Named>, w: World|
            closed_off(depth, w).bind(
                |opaque: bool, w: World|
                    if opaque {
                        Flow::Got(merged_listing(upper, Seq::empty()), w)
                    } else {
                        Action::ReadDir(Spot::lower(Which::First)).names(w).bind(
                            |lower: Seq<Named>, w: World|
                                Flow::Got(merged_listing(upper, lower), w),
                        )
                    },
            ),
    )
}

fn starts_with_bytes(text: &[u8], prefix: &[u8]) -> (r: bool)
    ensures
        r == prefix@.is_prefix_of(text@),
{
    if text.len() < prefix.len() {
        return false;
    }
    let head = copy_range(text, 0, prefix.len());
    let r = bytes_eq(head.as_slice(), prefix);
    proof {
        assert(text@.subrange(0, prefix@.len() as int) =~= head@);
    }
    r
}

/// The name of an entry that a marker hides, if the name is that of a marker.
pub fn marker_target(text: &[u8]) -> (r: Option<Vec<u8>>)
    ensures
        r is Some <==> is_marker(text@),
        r matches Some(n) ==> n@ == hidden_name(text@),
{
    let prefix = wh_bytes();
    if !starts_with_bytes(text, prefix.as_slice()) {
        return None;
    }
    let n = copy_range(text, prefix.len(), text.len());
    assert(n@ =~= hidden_name(text@));
    Some(n)
}

fn collect_hidden(items: &[DirItem]) -> (r: Vec<Vec<u8>>)
    ensures
        forall|x: Seq<u8>| #[trigger]
            crate::path::views(r@).contains(x) == hidden_names(
                crate::protocol::listed(items@),
            ).contains(x),
{
    let ghost all = crate::protocol::listed(items@);
    let mut out: Vec<Vec<u8>> = Vec::new();
    let mut i: usize = 0;
    assert(all.take(0) =~= Seq::empty());
    while i < items.len()
        invariant
            i <= items.len(),
            all == crate::protocol::listed(items@),
            forall|x: Seq<u8>| #[trigger]
                crate::path::views(out@).contains(x) == hidden_names(
                    all.take(i as int),
                ).contains(x),
        decreases items.len() - i,
    {
        let ghost next = all.take(i + 1);
        assert(next.drop_last() =~= all.take(i as int));
        assert(next.last() == items@[i as int]@);
        if let DirItem::Entry(name, _) = &items[i] {
            let text = to_lossy(name.as_slice());
            if let Some(n) = marker_target(text.as_slice()) {
                let ghost was = crate::path::views(out@);
                out.push(n);
                proof {
                    let now = crate::path::views(out@);
                    assert(now =~= was.push(n@));
                    assert forall|x: Seq<u8>| #[trigger]
                        now.contains(x) == hidden_names(next).contains(x) by {
                        if was.contains(x) {
                            let j = choose|j: int| 0 <= j < was.len() && was[j] == x;
                            assert(now[j] == x);
                        }
                        if x == n@ {
                            assert(now[was.len() as int] == x);
                        }
                        if now.contains(x) {
                            let j = choose|j: int| 0 <= j < now.len() && now[j] == x;
                            if j < was.len() {
                                assert(was[j] == x);
                            }
                        }
                    }
                }
            }
        }
        i += 1;
    }
    assert(all.take(i as int) =~= all);
    out
}

/// Adds the items of a directory that are shown to a listing.
fn add_shown(list: &mut Vec<ShownEntry>, items: &[DirItem], layer: Layer, out: &Vec<Vec<u8>>)
    requires
        all_wf(old(list)@),
    ensures
        all_wf(final(list)@),
        shown_views(final(list)@) == shown_views(old(list)@) + shown(
            crate::protocol::listed(items@),
            layer,
            crate::path::views(out@).to_set(),
        ),
{
    let ghost all = crate::protocol::listed(items@);
    let ghost was = shown_views(list@);
    let ghost skip = crate::path::views(out@).to_set();
    let mut i: usize = 0;
    assert(all.take(0) =~= Seq::empty());
    assert(was + shown(all.take(0), layer, skip) =~= was);
    while i < items.len()
        invariant
            i <= items.len(),
            all == crate::protocol::listed(items@),
            skip == crate::path::views(out@).to_set(),
            all_wf(list@),
            shown_views(list@) == was + shown(all.take(i as int), layer, skip),
        decreases items.len() - i,
    {
        let ghost next = all.take(i + 1);
        assert(next.drop_last() =~= all.take(i as int));
        assert(next.last() == items@[i as int]@);
        if let DirItem::Entry(name, kind) = &items[i] {
            let text = to_lossy(name.as_slice());
            let skipped = holds_bytes(out, text.as_slice());
            let marker = marker_target(text.as_slice()).is_some();
            if !skipped && !(layer == Layer::Upper && marker) {
                let raw = copy_range(name.as_slice(), 0, name.len());
                assert(raw@ =~= name@);
                let entry = ShownEntry { name: raw, text, kind: entry_file_type(kind), layer };
                let ghost before = list@;
                list.push(entry);
                proof {
                    assert(shown_views(list@) =~= shown_views(before).push(entry@));
                    assert(shown_views(list@) =~= was + shown(next, layer, skip));
                    assert forall|j: int| 0 <= j < list@.len() implies (
                    #[trigger] list@[j]).wf() by {
                        if j < before.len() {
                            assert(before[j].wf());
                        }
                    }
                }
            }
        }
        i += 1;
    }
    assert(all.take(i as int) =~= all);
}

/// Adds the names of a listing to the names that are left out.
fn add_texts(out: &mut Vec<Vec<u8>>, list: &Vec<ShownEntry>)
    requires
        all_wf(list@),
    ensures
        crate::path::views(final(out)@).to_set() == crate::path::views(
            old(out)@,
        ).to_set().union(shown_texts(shown_views(list@))),
{
    let ghost was = crate::path::views(out@).to_set();
    let ghost all = shown_views(list@);
    let mut i: usize = 0;
    assert(shown_texts(all.take(0)) =~= Set::empty());
    assert(was.union(shown_texts(all.take(0))) =~= was);
    while i < list.len()
        invariant
            i <= list.len(),
            all == shown_views(list@),
            all_wf(list@),
            crate::path::views(out@).to_set() == was.union(shown_texts(all.take(i as int))),
        decreases list.len() - i,
    {
        let text = copy_range(list[i].text.as_slice(), 0, list[i].text.len());
        let ghost before = crate::path::views(out@);
        assert(text@ =~= list@[i as int].text@);
        out.push(text);
        proof {
            let a = all.take(i as int);
            let b = all.take(i + 1);
            assert(crate::path::views(out@) =~= before.push(text@));
            assert(list@[i as int].wf());
            assert(b[i as int].text() == text@);
            assert forall|x: Seq<u8>|
                shown_texts(b).contains(x) == shown_texts(a).insert(text@).contains(x) by {
                if shown_texts(a).contains(x) {
                    let j = choose|j: int| 0 <= j < a.len() && (#[trigger] a[j]).text() == x;
                    assert(b[j] == a[j]);
                }
                if shown_texts(b).contains(x) {
                    let j = choose|j: int| 0 <= j < b.len() && (#[trigger] b[j]).text() == x;
                    if j < i {
                        assert(a[j] == b[j]);
                    }
                }
            }
            assert(shown_texts(b) =~= shown_texts(a).insert(text@));
            before.lemma_push_to_set_commute(text@);
            assert(crate::path::views(out@).to_set() =~= was.union(shown_texts(b)));
        }
        i += 1;
    }
    assert(all.take(i as int) =~= all);
}

/// Merges what a directory holds in the two layers.
pub fn merge_listing(upper: &[DirItem], lower: &[DirItem]) -> (r: Vec<ShownEntry>)
    ensures
        all_wf(r@),
        shown_views(r@) == merged_listing(
            crate::protocol::listed(upper@),
            crate::protocol::listed(lower@),
        ),
{
    let ghost ups = crate::protocol::listed(upper@);
    let ghost lows = crate::protocol::listed(lower@);
    let mut out = collect_hidden(upper);
    assert(crate::path::views(out@).to_set() =~= hidden_names(ups));
    let mut list: Vec<ShownEntry> = Vec::new();
    assert(shown_views(list@) =~= Seq::empty());
    add_shown(&mut list, upper, Layer::Upper, &out);
    let ghost mid = shown(ups, Layer::Upper, hidden_names(ups));
    assert(shown_views(list@) =~= mid);
    add_texts(&mut out, &list);
    add_shown(&mut list, lower, Layer::Lower, &out);
    list
}

/// An entry as the kernel is told it.
pub struct DirEntry {
    pub ino: u64,
    /// Where to go on after this entry.
    pub offset: u64,
    pub kind: FileKind,
    pub name: Vec<u8>,
}

/// An entry with its attributes as the kernel is told it.
pub struct DirEntryPlus {
    pub ino: u64,
    /// Where to go on after this entry.
    pub offset: u64,
    pub name: Vec<u8>,
    pub attr: FileAttr,
}

/// The view of an entry as the kernel is told it.
pub struct Told {
    pub ino: u64,
    pub offset: int,
    pub kind: FileKind,
    pub name: Seq<u8>,
}

/// The view of an entry with its attributes as the kernel is told it.
pub struct ToldPlus {
    pub ino: u64,
    pub offset: int,
    pub name: Seq<u8>,
    pub attr: FileAttr,
}

impl View for DirEntry {
    type V = Told;

    open spec fn view(&self) -> Told {
        Told { ino: self.ino, offset: self.offset as int, kind: self.kind, name: self.name@ }
    }
}

impl View for DirEntryPlus {
    type V = ToldPlus;

    open spec fn view(&self) -> ToldPlus {
        ToldPlus { ino: self.ino, offset: self.offset as int, name: self.name@, attr: self.attr }
    }
}

/// The table once the numbers of the listed entries of a directory have been looked at.
pub open spec fn numbered(t: Inodes, dir: Seq<u8>, list: Seq<Shown>) -> Inodes
    decreases list.len(),
{
    if list.len() == 0 {
        t
    } else {
        numbered(t, dir, list.drop_last()).peeked(crate::path::join(dir, list.last().text()))
    }
}

/// The number of a listed entry of a directory.
pub open spec fn number_at(t: Inodes, dir: Seq<u8>, list: Seq<Shown>, i: int) -> u64 {
    numbered(t, dir, list.take(i)).ino_of(crate::path::join(dir, list[i].text()))
}

/// The directory above, as far as it is inside the overlay.
pub open spec fn above(dir: Seq<u8>) -> Seq<u8> {
    match crate::path::parent(dir) {
        Some(p) => p,
        None => Seq::empty(),
    }
}

/// The number of the directory above: the root stands for all that has no path of its own.
pub open spec fn above_ino(t: Inodes, dir: Seq<u8>) -> u64 {
    if above(dir).len() == 0 {
        ROOT_INO
    } else {
        t.ino_of(above(dir))
    }
}

/// The table once the number of the directory above has been looked at.
pub open spec fn above_peeked(t: Inodes, dir: Seq<u8>) -> Inodes {
    if above(dir).len() == 0 {
        t
    } else {
        t.peeked(above(dir))
    }
}

/// The names under which a directory lists itself and the directory above.
pub open spec fn dots(n: int) -> Seq<u8> {
    if n == 0 {
        seq![crate::path::DOT]
    } else {
        seq![crate::path::DOT, crate::path::DOT]
    }
}

/// The entry at a position: the directory itself, the one above, then those listed.
pub open spec fn told(t: Inodes, ino: u64, dir: Seq<u8>, list: Seq<Shown>, i: int) -> Told {
    let u = above_peeked(t, dir);
    if i == 0 {
        Told { ino, offset: 1, kind: FileKind::Directory, name: dots(0) }
    } else if i == 1 {
        Told { ino: above_ino(t, dir), offset: 2, kind: FileKind::Directory, name: dots(1) }
    } else {
        Told {
            ino: number_at(u, dir, list, i - 2),
            offset: i + 1,
            kind: list[i - 2].kind,
            name: list[i - 2].text(),
        }
    }
}

/// The entries from a position on.
pub open spec fn told_from(
    t: Inodes,
    ino: u64,
    dir: Seq<u8>,
    list: Seq<Shown>,
    offset: int,
) -> Seq<Told> {
    Seq::new(
        (if offset < list.len() + 2 { list.len() + 2 - offset } else { 0 }) as nat,
        |i: int| told(t, ino, dir, list, offset + i),
    )
}

/// The views of a list of paths.
pub open spec fn path_views(list: Seq<FsPath>) -> Seq<Seq<u8>> {
    Seq::new(list.len(), |i: int| list[i]@)
}

/// The first metadata that was found.
pub open spec fn first(metas: Seq<Option<Meta>>) -> Option<Meta>
    decreases metas.len(),
{
    if metas.len() == 0 {
        None
    } else if metas[0] is Some {
        metas[0]
    } else {
        first(metas.skip(1))
    }
}

/// The metadata of each entry: the first that was found.
pub open spec fn firsts(metas: Seq<Vec<Option<Meta>>>) -> Seq<Option<Meta>> {
    Seq::new(metas.len(), |i: int| first(metas[i]@))
}

fn first_of(metas: &Vec<Option<Meta>>) -> (r: Option<Meta>)
    ensures
        r == first(metas@),
{
    let mut i: usize = 0;
    assert(metas@.skip(0) =~= metas@);
    while i < metas.len()
        invariant
            i <= metas.len(),
            first(metas@) == first(metas@.skip(i as int)),
        decreases metas.len() - i,
    {
        if metas[i].is_some() {
            return metas[i];
        }
        assert(metas@.skip(i as int).skip(1) =~= metas@.skip(i + 1));
        i += 1;
    }
    None
}

/// The entries before a position with their attributes, as far as these could be read.
pub open spec fn told_plus(
    t: Inodes,
    ino: u64,
    dir: Seq<u8>,
    list: Seq<Shown>,
    metas: Seq<Option<Meta>>,
    from: int,
    to: int,
) -> Seq<ToldPlus>
    decreases to - from,
{
    if to <= from {
        Seq::empty()
    } else {
        let rest = told_plus(t, ino, dir, list, metas, from, to - 1);
        let e = told(t, ino, dir, list, to - 1);
        if to - 1 < metas.len() && metas[to - 1] is Some {
            rest.push(
                ToldPlus {
                    ino: e.ino,
                    offset: e.offset,
                    name: e.name,
                    attr: FileAttr::of(e.ino, metas[to - 1]->0),
                },
            )
        } else {
            rest
        }
    }
}

impl OverlayOps {
    /// The path that an operation on a number is about; an unknown number stands for the root.
    pub open spec fn path_or_root(self, ino: u64) -> Seq<u8> {
        match self.inodes@.path_of(ino) {
            Some(p) => p,
            None => Seq::empty(),
        }
    }

    /// The path that an operation on a number is about; an unknown number stands for the root.
    pub fn entry_path(&self, ino: u64) -> (r: FsPath)
        ensures
            r@ == self.path_or_root(ino),
    {
        match self.inodes.get_path(ino) {
            Some(p) => p,
            None => {
                let p = FsPath::empty();
                assert(p@ =~= Seq::empty());
                p
            },
        }
    }

    /// Reads what the directory under the first path shows.
    pub fn list_dir(&self, t: &mut Tape, dir: &FsPath) -> (r: Result<Vec<ShownEntry>, Stop>)
        ensures
            match r {
                Ok(list) => all_wf(list@) && listing(
                    LayerManager::place(dir@).depth,
                    old(t).world(),
                ) == Flow::Got(shown_views(list@), final(t).world()),
                Err(s) => listing(
                    LayerManager::place(dir@).depth,
                    old(t).world(),
                ) == s.flow::<Seq<Shown>>(final(t).world()),
            },
            crate::protocol::spares_lower(r),
    {
        let upper = t.names(Action::ReadDir(Spot::upper(Which::First)))?;
        let closed = if crate::xattr::is_opaque_dir(t, Spot::upper(Which::First))? {
            true
        } else {
            self.layers.is_covered(t, dir, Which::First)?
        };
        if closed {
            let none: [DirItem; 0] = [];
            let r = merge_listing(upper, none.as_slice());
            assert(crate::protocol::listed(none@) =~= Seq::<Named>::empty());
            Ok(r)
        } else {
            let lower = t.names(Action::ReadDir(Spot::lower(Which::First)))?;
            Ok(merge_listing(upper, lower))
        }
    }

    /// The numbers of all entries of a directory, in order.
    fn number_entries(&mut self, ino: u64, dir: &FsPath, list: &Vec<ShownEntry>) -> (r: Vec<u64>)
        requires
            old(self).wf(),
            all_wf(list@),
        ensures
            final(self).wf(),
            final(self).layers == old(self).layers,
            final(self).inodes@ == numbered(
                above_peeked(old(self).inodes@, dir@),
                dir@,
                shown_views(list@),
            ),
            r@.len() == list@.len() + 2,
            forall|i: int|
                0 <= i < r@.len() ==> #[trigger] r@[i] == told(
                    old(self).inodes@,
                    ino,
                    dir@,
                    shown_views(list@),
                    i,
                ).ino,
    {
        let ghost t0 = self.inodes@;
        let ghost all = shown_views(list@);
        let mut out: Vec<u64> = Vec::new();
        out.push(ino);
        let parent = match dir.parent() {
            Some(p) => p,
            None => {
                let p = FsPath::empty();
                assert(p@ =~= Seq::empty());
                p
            },
        };
        let up: u64 = if parent.is_empty() {
            ROOT_INO
        } else {
            self.inodes.peek_ino(&parent)
        };
        out.push(up);
        let ghost u = self.inodes@;
        assert(u == above_peeked(t0, dir@));
        let mut i: usize = 0;
        assert(all.take(0) =~= Seq::empty());
        while i < list.len()
            invariant
                i <= list.len(),
                self.wf(),
                self.layers == old(self).layers,
                all == shown_views(list@),
                all_wf(list@),
                u == above_peeked(t0, dir@),
                self.inodes@ == numbered(u, dir@, all.take(i as int)),
                out@.len() == i + 2,
                forall|j: int|
                    0 <= j < out@.len() ==> #[trigger] out@[j] == told(t0, ino, dir@, all, j).ino,
            decreases list.len() - i,
        {
            let path = dir.join(list[i].text.as_slice());
            proof {
                assert(list@[i as int].wf());
                assert(all[i as int].text() == list@[i as int].text@);
                assert(all.take(i + 1).drop_last() =~= all.take(i as int));
                assert(all.take(i + 1).last() == all[i as int]);
            }
            let n = self.inodes.peek_ino(&path);
            out.push(n);
            i += 1;
        }
        assert(all.take(i as int) =~= all);
        out
    }

    /// Lists a directory from a position on. Every entry gets a number, which is not
    /// counted as held by the kernel.
    pub fn readdir(&mut self, t: &mut Tape, ino: u64, offset: u64) -> (r: Result<
        Vec<DirEntry>,
        Stop,
    >)
        requires
            old(self).wf(),
        ensures
            final(self).wf(),
            final(self).layers == old(self).layers,
            match r {
                Ok(out) => {
                    let dir = old(self).path_or_root(ino);
                    &&& listing(
                        LayerManager::place(dir).depth,
                        old(t).world(),
                    ) matches Flow::Got(
                        list,
                        w,
                    ) && w == final(t).world() && Seq::new(out@.len(), |i: int| out@[i]@)
                        == told_from(old(self).inodes@, ino, dir, list, offset as int)
                        && final(self).inodes@ == numbered(
                        above_peeked(old(self).inodes@, dir),
                        dir,
                        list,
                    )
                },
                Err(s) => listing(
                    LayerManager::place(old(self).path_or_root(ino)).depth,
                    old(t).world(),
                ) == s.flow::<Seq<Shown>>(final(t).world()) && final(self).inodes@ == old(
                    self,
                ).inodes@,
            },
            crate::protocol::spares_lower(r),
    {
        let dir = self.entry_path(ino);
        let list = self.list_dir(t, &dir)?;
        let inos = self.number_entries(ino, &dir, &list);
        let ghost all = shown_views(list@);
        let ghost t0 = old(self).inodes@;
        let mut out: Vec<DirEntry> = Vec::new();
        let mut i: usize = 0;
        while i < inos.len()
            invariant
                i <= inos.len(),
                inos@.len() == list@.len() + 2,
                all == shown_views(list@),
                all_wf(list@),
                forall|j: int|
                    0 <= j < inos@.len() ==> #[trigger] inos@[j] == told(
                        t0,
                        ino,
                        dir@,
                        all,
                        j,
                    ).ino,
                out@.len() == if i < offset {
                    0int
                } else {
                    i - offset
                },
                forall|j: int|
                    0 <= j < out@.len() ==> (#[trigger] out@[j])@ == told(
                        t0,
                        ino,
                        dir@,
                        all,
                        offset + j,
                    ),
            decreases inos.len() - i,
        {
            if i as u64 >= offset {
                let (kind, name) = Self::entry_at(&list, i);
                let e = DirEntry { ino: inos[i], offset: i as u64 + 1, kind, name };
                assert(e@ == told(t0, ino, dir@, all, i as int));
                out.push(e);
            }
            i += 1;
        }
        proof {
            let views = Seq::new(out@.len(), |i: int| out@[i]@);
            assert(views =~= told_from(t0, ino, dir@, all, offset as int));
        }
        Ok(out)
    }

    /// Type and name of the entry at a position.
    fn entry_at(list: &Vec<ShownEntry>, i: usize) -> (r: (FileKind, Vec<u8>))
        requires
            i < list@.len() + 2,
            all_wf(list@),
        ensures
            forall|t: Inodes, ino: u64, dir: Seq<u8>|
                {
                    let e = #[trigger] told(t, ino, dir, shown_views(list@), i as int);
                    r.0 == e.kind && r.1@ == e.name && e.offset == i + 1
                },
    {
        if i == 0 {
            let mut name: Vec<u8> = Vec::new();
            name.push(crate::path::DOT);
            assert(name@ =~= dots(0));
            (FileKind::Directory, name)
        } else if i == 1 {
            let mut name: Vec<u8> = Vec::new();
            name.push(crate::path::DOT);
            name.push(crate::path::DOT);
            assert(name@ =~= dots(1));
            (FileKind::Directory, name)
        } else {
            let e = &list[i - 2];
            let name = copy_range(e.text.as_slice(), 0, e.text.len());
            assert(name@ =~= e.text@);
            assert(list@[i - 2].wf());
            (e.kind, name)
        }
    }

    /// Where the entry at a position may be on disk: the first of these places that has
    /// something is where it is. The directory itself and the one that holds it may be in
    /// either layer.
    pub open spec fn places_at(self, dir: Seq<u8>, list: Seq<Shown>, i: int) -> Seq<Seq<u8>> {
        let upper = self.layers.backend.upper@;
        let lower = self.layers.backend.lower@;
        if i == 0 {
            seq![crate::path::join(upper, dir), crate::path::join(lower, dir)]
        } else if i == 1 {
            seq![crate::path::join(upper, above(dir)), crate::path::join(lower, above(dir))]
        } else {
            let rel = crate::path::join(dir, list[i - 2].name);
            match list[i - 2].layer {
                Layer::Upper => seq![crate::path::join(upper, rel)],
                Layer::Lower => seq![crate::path::join(lower, rel)],
            }
        }
    }

    fn both_places(&self, rel: &FsPath) -> (r: Vec<FsPath>)
        ensures
            path_views(r@) == seq![
                crate::path::join(self.layers.backend.upper@, rel@),
                crate::path::join(self.layers.backend.lower@, rel@),
            ],
    {
        let mut out: Vec<FsPath> = Vec::new();
        out.push(self.layers.entry_path(Layer::Upper, rel));
        out.push(self.layers.entry_path(Layer::Lower, rel));
        assert(path_views(out@) =~= seq![
            crate::path::join(self.layers.backend.upper@, rel@),
            crate::path::join(self.layers.backend.lower@, rel@),
        ]);
        out
    }

    /// Where the entries of a directory may be on disk, in the order of the listing.
    pub fn entry_places(&self, ino: u64, list: &Vec<ShownEntry>) -> (r: Vec<Vec<FsPath>>)
        ensures
            r@.len() == list@.len() + 2,
            forall|i: int|
                0 <= i < r@.len() ==> path_views((#[trigger] r@[i])@) == self.places_at(
                    self.path_or_root(ino),
                    shown_views(list@),
                    i,
                ),
    {
        let dir = self.entry_path(ino);
        let parent = match dir.parent() {
            Some(p) => p,
            None => {
                let p = FsPath::empty();
                assert(p@ =~= Seq::empty());
                p
            },
        };
        let ghost all = shown_views(list@);
        let mut out: Vec<Vec<FsPath>> = Vec::new();
        out.push(self.both_places(&dir));
        out.push(self.both_places(&parent));
        let mut i: usize = 0;
        while i < list.len()
            invariant
                i <= list.len(),
                all == shown_views(list@),
                dir@ == self.path_or_root(ino),
                out@.len() == i + 2,
                forall|j: int|
                    0 <= j < out@.len() ==> path_views((#[trigger] out@[j])@) == self.places_at(
                        dir@,
                        all,
                        j,
                    ),
            decreases list.len() - i,
        {
            let rel = dir.join(list[i].name.as_slice());
            let mut one: Vec<FsPath> = Vec::new();
            one.push(self.layers.entry_path(list[i].layer, &rel));
            assert(path_views(one@) =~= self.places_at(dir@, all, i + 2));
            out.push(one);
            i += 1;
        }
        out
    }

    /// Lists a directory with attributes, from a position on, given what it shows and the
    /// metadata found at each place where an entry may be, in order. An entry without
    /// metadata is left out, and every entry gets a number, which is not counted as held by
    /// the kernel.
    pub fn readdirplus(
        &mut self,
        ino: u64,
        offset: u64,
        list: &Vec<ShownEntry>,
        metas: &Vec<Vec<Option<Meta>>>,
    ) -> (r: Vec<DirEntryPlus>)
        requires
            old(self).wf(),
            all_wf(list@),
        ensures
            final(self).wf(),
            final(self).layers == old(self).layers,
            ({
                let dir = old(self).path_or_root(ino);
                let all = shown_views(list@);
                &&& Seq::new(r@.len(), |i: int| r@[i]@) == told_plus(
                    old(self).inodes@,
                    ino,
                    dir,
                    all,
                    firsts(metas@),
                    offset as int,
                    (all.len() + 2) as int,
                )
                &&& final(self).inodes@ == numbered(
                    above_peeked(old(self).inodes@, dir),
                    dir,
                    all,
                )
            }),
    {
        let dir = self.entry_path(ino);
        let inos = self.number_entries(ino, &dir, list);
        let ghost all = shown_views(list@);
        let ghost t0 = old(self).inodes@;
        let mut out: Vec<DirEntryPlus> = Vec::new();
        let mut i: usize = 0;
        assert(Seq::new(out@.len(), |i: int| out@[i]@) =~= Seq::empty());
        while i < inos.len()
            invariant
                i <= inos.len(),
                inos@.len() == list@.len() + 2,
                all == shown_views(list@),
                all_wf(list@),
                forall|j: int|
                    0 <= j < inos@.len() ==> #[trigger] inos@[j] == told(
                        t0,
                        ino,
                        dir@,
                        all,
                        j,
                    ).ino,
                Seq::new(out@.len(), |i: int| out@[i]@) == told_plus(
                    t0,
                    ino,
                    dir@,
                    all,
                    firsts(metas@),
                    offset as int,
                    i as int,
                ),
            decreases inos.len() - i,
        {
            if i as u64 >= offset && i < metas.len() {
                let meta = first_of(&metas[i]);
                assert(firsts(metas@)[i as int] == first(metas@[i as int]@));
                if let Some(meta) = meta {
                    let (_, name) = Self::entry_at(list, i);
                    let ghost before = Seq::new(out@.len(), |i: int| out@[i]@);
                    let e = DirEntryPlus {
                        ino: inos[i],
                        offset: i as u64 + 1,
                        name,
                        attr: make_attr(inos[i], meta),
                    };
                    assert(told(t0, ino, dir@, all, i as int).offset == i + 1);
                    out.push(e);
                    assert(Seq::new(out@.len(), |i: int| out@[i]@) =~= before.push(e@));
                }
            }
            i += 1;
        }
        out
    }

    /// Removes a directory that shows nothing.
    pub open spec fn removing_dir(place: Place, w: World) -> Flow<()> {
        listing(place.depth, w).bind(
            |list: Seq<Shown>, w: World|
                if list.len() > 0 {
                    Flow::Fail(ENOTEMPTY, w)
                } else {
                    Self::dropping(Action::RemoveTree(Spot::upper(Which::First)), w).bind(
                        |u: (), w: World|
                            Self::covering(place, w).settle(
                                |r: Result<(), i32>, w: World| Flow::Got((), w),
                            ),
                    )
                },
        )
    }

    /// Removes a directory that shows nothing. A lower directory is hidden, and the numbers
    /// of the directory and of all below it are forgotten.
    pub fn rmdir(&mut self, t: &mut Tape, parent: u64, name: &[u8]) -> (r: Result<(), Stop>)
        requires
            old(self).wf(),
        ensures
            ({
                let rel = old(self).inodes@.child(parent, name@);
                Self::cleaned(
                    *old(self),
                    *final(self),
                    old(self).inodes@.pruned(rel),
                    Self::removing_dir(LayerManager::place(rel), old(t).world()),
                    r,
                    final(t).world(),
                )
            }),
            crate::protocol::spares_lower(r),
    {
        let rel = self.inodes.child_path(parent, name);
        let list = self.list_dir(t, &rel)?;
        assert(shown_views(list@).len() == list@.len());
        if list.len() > 0 {
            return Err(Stop::Fail(ENOTEMPTY));
        }
        self.drop_upper(t, Action::RemoveTree(Spot::upper(Which::First)))?;
        if let Err(Stop::Ask(a)) = self.cover_lower(t, &rel) {
            return Err(Stop::Ask(a));
        }
        self.inodes.remove_subtree(&rel);
        Ok(())
    }
}

} // verus!
