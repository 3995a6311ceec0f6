//! What a directory shows, and creating and removing directories.

use crate::attr::FileAttr;
use crate::errno::{EEXIST, ENOTEMPTY};
use crate::fuse_ops::OverlayOps;
use crate::inode::Inodes;
use crate::layers::{LayerManager, Place};
use crate::listing::{Shown, Told, ToldPlus};
use crate::model::{Disk, Node};
use crate::protocol::{
    Action, FileKind, Flow, Layer, Mark, Meta, Named, Spot, Which, World,
};
use vstd::prelude::*;

verus! {

/// No two items are shown under the same name.
pub open spec fn texts_differ(items: Seq<Named>) -> bool {
    forall|i: int, j: int|
        0 <= i < j < items.len() && crate::listing::item_text(#[trigger] items[i]) is Some
            ==> crate::listing::item_text(items[i]) != crate::listing::item_text(
            #[trigger] items[j],
        )
}

/// The names that are hidden are those for which there is a marker.
pub proof fn law_hidden_names(items: Seq<Named>, text: Seq<u8>)
    ensures
        crate::listing::hidden_names(items).contains(text) <==> crate::listing::has_item(
            items,
            crate::layers::wh_prefix() + text,
        ),
    decreases items.len(),
{
    let marker = crate::layers::wh_prefix() + text;
    let p = crate::layers::wh_prefix();
    if items.len() > 0 {
        let rest = items.drop_last();
        law_hidden_names(rest, text);
        if crate::listing::has_item(rest, marker) {
            let i = choose|i: int|
                0 <= i < rest.len() && crate::listing::item_text(#[trigger] rest[i]) == Some(marker);
            assert(items[i] == rest[i]);
        }
        if crate::listing::has_item(items, marker) {
            let i = choose|i: int|
                0 <= i < items.len() && crate::listing::item_text(#[trigger] items[i]) == Some(
                    marker,
                );
            if i < rest.len() {
                assert(rest[i] == items[i]);
            }
        }
        if let Named::Entry(name, _) = items.last() {
            let t = crate::text::lossy(name);
            if crate::listing::is_marker(t) {
                assert(t =~= p + crate::listing::hidden_name(t));
                if crate::listing::hidden_name(t) == text {
                    assert(crate::listing::item_text(items[items.len() - 1]) == Some(marker));
                }
            }
            if t == marker {
                assert(marker.subrange(0, p.len() as int) =~= p);
                assert(crate::listing::hidden_name(marker) =~= text);
            }
        }
    }
}

proof fn lemma_shown(items: Seq<Named>, layer: Layer, out: Set<Seq<u8>>, k: int)
    requires
        0 <= k < crate::listing::shown(items, layer, out).len(),
    ensures
        ({
            let e = crate::listing::shown(items, layer, out)[k];
            &&& e.layer == layer
            &&& !out.contains(e.text())
            &&& layer is Upper ==> !crate::listing::is_marker(e.text())
            &&& crate::listing::has_item(items, e.text())
        }),
    decreases items.len(),
{
    let rest = items.drop_last();
    let s = crate::listing::shown(rest, layer, out);
    let e = crate::listing::shown(items, layer, out)[k];
    if k < s.len() {
        lemma_shown(rest, layer, out, k);
        let i = choose|i: int|
            0 <= i < rest.len() && crate::listing::item_text(#[trigger] rest[i]) == Some(e.text());
        assert(items[i] == rest[i]);
    } else {
        assert(crate::listing::item_text(items[items.len() - 1]) == Some(e.text()));
    }
}

proof fn lemma_shown_all(items: Seq<Named>, layer: Layer, out: Set<Seq<u8>>, text: Seq<u8>)
    requires
        crate::listing::has_item(items, text),
        !out.contains(text),
        layer is Upper ==> !crate::listing::is_marker(text),
    ensures
        crate::listing::shown_texts(crate::listing::shown(items, layer, out)).contains(text),
    decreases items.len(),
{
    let rest = items.drop_last();
    let s = crate::listing::shown(rest, layer, out);
    let all = crate::listing::shown(items, layer, out);
    if crate::listing::item_text(items.last()) == Some(text) {
        assert(all[s.len() as int].text() == text);
    } else {
        let i = choose|i: int|
            0 <= i < items.len() && crate::listing::item_text(#[trigger] items[i]) == Some(text);
        assert(rest[i] == items[i]);
        lemma_shown_all(rest, layer, out, text);
        let k = choose|k: int| 0 <= k < s.len() && (#[trigger] s[k]).text() == text;
        assert(all[k] == s[k]);
    }
}

proof fn lemma_shown_differ(items: Seq<Named>, layer: Layer, out: Set<Seq<u8>>)
    requires
        texts_differ(items),
    ensures
        ({
            let s = crate::listing::shown(items, layer, out);
            forall|a: int, b: int|
                0 <= a < b < s.len() ==> (#[trigger] s[a]).text() != (#[trigger] s[b]).text()
        }),
    decreases items.len(),
{
    if items.len() > 0 {
        let rest = items.drop_last();
        assert forall|i: int, j: int|
            0 <= i < j < rest.len() && crate::listing::item_text(
                #[trigger] rest[i],
            ) is Some implies crate::listing::item_text(rest[i]) != crate::listing::item_text(
            #[trigger] rest[j],
        ) by {
            assert(rest[i] == items[i] && rest[j] == items[j]);
        }
        lemma_shown_differ(rest, layer, out);
        let s = crate::listing::shown(items, layer, out);
        let r = crate::listing::shown(rest, layer, out);
        assert forall|a: int, b: int| 0 <= a < b < s.len() implies (#[trigger] s[a]).text() != (
        #[trigger] s[b]).text() by {
            if b < r.len() {
                assert(r[a] == s[a] && r[b] == s[b]);
            } else {
                lemma_shown(rest, layer, out, a);
                assert(r[a] == s[a]);
                let i = choose|i: int|
                    0 <= i < rest.len() && crate::listing::item_text(#[trigger] rest[i]) == Some(
                        s[a].text(),
                    );
                assert(items[i] == rest[i]);
                assert(crate::listing::item_text(items[items.len() - 1]) == Some(s[b].text()));
                assert(crate::listing::item_text(items[i]) != crate::listing::item_text(
                    items[items.len() - 1],
                ));
            }
        }
    }
}

/// The type that a directory tells of an item: the one that was read, and that of a file if
/// none could be read.
pub open spec fn type_of(kind: Result<FileKind, i32>) -> FileKind {
    if kind is Ok {
        kind->Ok_0
    } else {
        FileKind::RegularFile
    }
}

/// An entry of a listing is an item of a directory: it has its name and its type.
pub open spec fn comes_from(e: Shown, items: Seq<Named>, i: int) -> bool {
    &&& 0 <= i < items.len()
    &&& items[i] matches Named::Entry(name, kind) && e.name == name && e.kind == type_of(kind)
}

proof fn lemma_shown_from(items: Seq<Named>, layer: Layer, out: Set<Seq<u8>>, k: int) -> (i: int)
    requires
        0 <= k < crate::listing::shown(items, layer, out).len(),
    ensures
        comes_from(crate::listing::shown(items, layer, out)[k], items, i),
    decreases items.len(),
{
    let rest = items.drop_last();
    let s = crate::listing::shown(rest, layer, out);
    if k < s.len() {
        let i = lemma_shown_from(rest, layer, out, k);
        assert(items[i] == rest[i]);
        i
    } else {
        items.len() - 1
    }
}

proof fn lemma_shown_ordered(
    items: Seq<Named>,
    layer: Layer,
    out: Set<Seq<u8>>,
    a: int,
    b: int,
) -> (r: (int, int))
    requires
        0 <= a < b < crate::listing::shown(items, layer, out).len(),
    ensures
        comes_from(crate::listing::shown(items, layer, out)[a], items, r.0),
        comes_from(crate::listing::shown(items, layer, out)[b], items, r.1),
        r.0 < r.1,
    decreases items.len(),
{
    let rest = items.drop_last();
    let s = crate::listing::shown(rest, layer, out);
    if b < s.len() {
        let r = lemma_shown_ordered(rest, layer, out, a, b);
        assert(items[r.0] == rest[r.0] && items[r.1] == rest[r.1]);
        r
    } else {
        let i = lemma_shown_from(rest, layer, out, a);
        assert(items[i] == rest[i]);
        (i, items.len() - 1)
    }
}

/// Every entry that a directory shows has the name and the type of the item of its layer that
/// it comes from, in either layer.
pub proof fn law_listing_types(upper: Seq<Named>, lower: Seq<Named>, k: int)
    requires
        0 <= k < crate::listing::merged_listing(upper, lower).len(),
    ensures
        ({
            let e = crate::listing::merged_listing(upper, lower)[k];
            &&& e.layer is Upper ==> exists|i: int| #[trigger] comes_from(e, upper, i)
            &&& e.layer is Lower ==> exists|i: int| #[trigger] comes_from(e, lower, i)
        }),
{
    let hidden = crate::listing::hidden_names(upper);
    let ups = crate::listing::shown(upper, Layer::Upper, hidden);
    let e = crate::listing::merged_listing(upper, lower)[k];
    if k < ups.len() {
        lemma_shown(upper, Layer::Upper, hidden, k);
        let i = lemma_shown_from(upper, Layer::Upper, hidden, k);
        assert(comes_from(e, upper, i));
    } else {
        let out = hidden.union(crate::listing::shown_texts(ups));
        lemma_shown(lower, Layer::Lower, out, k - ups.len());
        let i = lemma_shown_from(lower, Layer::Lower, out, k - ups.len());
        assert(comes_from(e, lower, i));
    }
}

/// A directory shows the entries of the upper layer first, and those of each layer in the
/// order in which that has them.
pub proof fn law_listing_order(upper: Seq<Named>, lower: Seq<Named>, a: int, b: int)
    requires
        0 <= a < b < crate::listing::merged_listing(upper, lower).len(),
    ensures
        ({
            let x = crate::listing::merged_listing(upper, lower)[a];
            let y = crate::listing::merged_listing(upper, lower)[b];
            &&& x.layer is Lower ==> y.layer is Lower
            &&& x.layer is Upper && y.layer is Upper ==> exists|i: int, j: int|
                i < j && #[trigger] comes_from(x, upper, i) && #[trigger] comes_from(y, upper, j)
            &&& x.layer is Lower && y.layer is Lower ==> exists|i: int, j: int|
                i < j && #[trigger] comes_from(x, lower, i) && #[trigger] comes_from(y, lower, j)
        }),
{
    let hidden = crate::listing::hidden_names(upper);
    let ups = crate::listing::shown(upper, Layer::Upper, hidden);
    let out = hidden.union(crate::listing::shown_texts(ups));
    if b < ups.len() {
        lemma_shown(upper, Layer::Upper, hidden, a);
        lemma_shown(upper, Layer::Upper, hidden, b);
        let (i, j) = lemma_shown_ordered(upper, Layer::Upper, hidden, a, b);
        assert(comes_from(ups[a], upper, i) && comes_from(ups[b], upper, j));
    } else if a < ups.len() {
        lemma_shown(upper, Layer::Upper, hidden, a);
        lemma_shown(lower, Layer::Lower, out, b - ups.len());
    } else {
        lemma_shown(lower, Layer::Lower, out, a - ups.len());
        lemma_shown(lower, Layer::Lower, out, b - ups.len());
        let lows = crate::listing::shown(lower, Layer::Lower, out);
        let (i, j) = lemma_shown_ordered(lower, Layer::Lower, out, a - ups.len(), b - ups.len());
        assert(comes_from(lows[a - ups.len()], lower, i) && comes_from(
            lows[b - ups.len()],
            lower,
            j,
        ));
    }
}

/// A listing tells the directory itself and the one above it first, then every entry that the
/// directory shows, in order, with its name and its type; nothing more.
pub proof fn law_listing_told(t: Inodes, ino: u64, dir: Seq<u8>, list: Seq<Shown>)
    ensures
        ({
            let all = crate::listing::told_from(t, ino, dir, list, 0);
            &&& all.len() == list.len() + 2
            &&& all[0].ino == ino && all[0].kind is Directory && all[0].name == seq![46u8]
            &&& all[1].kind is Directory && all[1].name == seq![46u8, 46]
            &&& forall|k: int|
                0 <= k < list.len() ==> (#[trigger] all[k + 2]).name == crate::text::lossy(
                    list[k].name,
                ) && all[k + 2].kind == list[k].kind
            &&& all[1].ino == match crate::path::parent(dir) {
                Some(p) => if p.len() > 0 {
                    t.ino_of(p)
                } else {
                    crate::inode::ROOT_INO
                },
                None => crate::inode::ROOT_INO,
            }
        }),
{
}

/// A directory shows neither the markers of its upper layer nor what they hide.
pub proof fn law_listing_hides(upper: Seq<Named>, lower: Seq<Named>, k: int)
    requires
        0 <= k < crate::listing::merged_listing(upper, lower).len(),
    ensures
        ({
            let e = crate::listing::merged_listing(upper, lower)[k];
            &&& !crate::listing::has_item(upper, crate::layers::wh_prefix() + e.text())
            &&& e.layer is Upper ==> !crate::listing::is_marker(e.text())
            &&& e.layer is Upper ==> crate::listing::has_item(upper, e.text())
            &&& e.layer is Lower ==> crate::listing::has_item(lower, e.text())
        }),
{
    let hidden = crate::listing::hidden_names(upper);
    let ups = crate::listing::shown(upper, Layer::Upper, hidden);
    let e = crate::listing::merged_listing(upper, lower)[k];
    if k < ups.len() {
        lemma_shown(upper, Layer::Upper, hidden, k);
    } else {
        lemma_shown(
            lower,
            Layer::Lower,
            hidden.union(crate::listing::shown_texts(ups)),
            k - ups.len(),
        );
    }
    law_hidden_names(upper, e.text());
}

/// A directory shows every entry of either layer that is not hidden and is no marker of the
/// upper layer; if both have it, it shows the one above.
pub proof fn law_listing_complete(upper: Seq<Named>, lower: Seq<Named>, text: Seq<u8>)
    requires
        !crate::listing::has_item(upper, crate::layers::wh_prefix() + text),
        crate::listing::has_item(upper, text) && !crate::listing::is_marker(text)
            || crate::listing::has_item(lower, text),
    ensures
        exists|k: int|
            0 <= k < crate::listing::merged_listing(upper, lower).len() && (
            #[trigger] crate::listing::merged_listing(upper, lower)[k]).text() == text && (
            crate::listing::merged_listing(upper, lower)[k].layer is Upper <==> crate::listing::has_item(
                upper,
                text,
            ) && !crate::listing::is_marker(text)),
{
    let hidden = crate::listing::hidden_names(upper);
    let ups = crate::listing::shown(upper, Layer::Upper, hidden);
    let out = hidden.union(crate::listing::shown_texts(ups));
    let lows = crate::listing::shown(lower, Layer::Lower, out);
    let all = crate::listing::merged_listing(upper, lower);
    law_hidden_names(upper, text);
    if crate::listing::has_item(upper, text) && !crate::listing::is_marker(text) {
        lemma_shown_all(upper, Layer::Upper, hidden, text);
        let k = choose|k: int| 0 <= k < ups.len() && (#[trigger] ups[k]).text() == text;
        lemma_shown(upper, Layer::Upper, hidden, k);
        assert(all[k] == ups[k]);
    } else {
        if crate::listing::shown_texts(ups).contains(text) {
            let k = choose|k: int| 0 <= k < ups.len() && (#[trigger] ups[k]).text() == text;
            lemma_shown(upper, Layer::Upper, hidden, k);
        }
        lemma_shown_all(lower, Layer::Lower, out, text);
        let k = choose|k: int| 0 <= k < lows.len() && (#[trigger] lows[k]).text() == text;
        lemma_shown(lower, Layer::Lower, out, k);
        assert(all[ups.len() + k] == lows[k]);
    }
}

/// A directory shows no name twice, if neither layer has it twice.
pub proof fn law_listing_no_doubles(upper: Seq<Named>, lower: Seq<Named>, a: int, b: int)
    requires
        texts_differ(upper),
        texts_differ(lower),
        0 <= a < b < crate::listing::merged_listing(upper, lower).len(),
    ensures
        crate::listing::merged_listing(upper, lower)[a].text() != crate::listing::merged_listing(
            upper,
            lower,
        )[b].text(),
{
    let hidden = crate::listing::hidden_names(upper);
    let ups = crate::listing::shown(upper, Layer::Upper, hidden);
    let out = hidden.union(crate::listing::shown_texts(ups));
    let lows = crate::listing::shown(lower, Layer::Lower, out);
    let all = crate::listing::merged_listing(upper, lower);
    lemma_shown_differ(upper, Layer::Upper, hidden);
    lemma_shown_differ(lower, Layer::Lower, out);
    if b < ups.len() {
        assert(all[a] == ups[a] && all[b] == ups[b]);
    } else if a >= ups.len() {
        assert(all[a] == lows[a - ups.len()] && all[b] == lows[b - ups.len()]);
    } else {
        assert(all[a] == ups[a] && all[b] == lows[b - ups.len()]);
        lemma_shown(lower, Layer::Lower, out, b - ups.len());
        assert(crate::listing::shown_texts(ups).contains(ups[a].text()));
    }
}

/// Going on with a listing at a position yields what the whole listing has from there on.
pub proof fn law_listing_resumes(t: Inodes, ino: u64, dir: Seq<u8>, list: Seq<Shown>, offset: nat)
    requires
        offset <= list.len() + 2,
    ensures
        crate::listing::told_from(t, ino, dir, list, offset as int) == crate::listing::told_from(
            t,
            ino,
            dir,
            list,
            0,
        ).skip(offset as int),
{
    assert(crate::listing::told_from(t, ino, dir, list, offset as int)
        =~= crate::listing::told_from(t, ino, dir, list, 0).skip(offset as int));
}

/// Every entry tells the position at which to go on after it.
pub proof fn law_listing_offsets(
    t: Inodes,
    ino: u64,
    dir: Seq<u8>,
    list: Seq<Shown>,
    offset: nat,
    i: int,
)
    requires
        0 <= i < crate::listing::told_from(t, ino, dir, list, offset as int).len(),
    ensures
        crate::listing::told_from(t, ino, dir, list, offset as int)[i].offset == offset + i + 1,
{
}

proof fn lemma_numbered_keeps(t: Inodes, dir: Seq<u8>, list: Seq<Shown>, path: Seq<u8>)
    requires
        t.paths.contains_key(crate::path::components(path)),
    ensures
        crate::listing::numbered(t, dir, list).paths.contains_key(crate::path::components(path)),
        crate::listing::numbered(t, dir, list).ino_of(path) == t.ino_of(path),
    decreases list.len(),
{
    if list.len() > 0 {
        lemma_numbered_keeps(t, dir, list.drop_last(), path);
    }
}

proof fn lemma_numbered_from(t: Inodes, dir: Seq<u8>, list: Seq<Shown>, i: int)
    requires
        0 <= i <= list.len(),
    ensures
        crate::listing::numbered(t, dir, list) == crate::listing::numbered(
            crate::listing::numbered(t, dir, list.take(i)),
            dir,
            list.skip(i),
        ),
    decreases list.len() - i,
{
    if i == list.len() {
        assert(list.take(i) =~= list);
        assert(list.skip(i) =~= Seq::empty());
    } else {
        let front = list.drop_last();
        lemma_numbered_from(t, dir, front, i);
        assert(front.take(i) =~= list.take(i));
        assert(front.skip(i) =~= list.skip(i).drop_last());
        assert(list.skip(i).last() == list.last());
    }
}

/// The number that a listing tells for an entry is the one under which the table knows its
/// path from then on.
pub proof fn law_listed_numbers(t: Inodes, dir: Seq<u8>, list: Seq<Shown>, i: int)
    requires
        0 <= i < list.len(),
    ensures
        crate::listing::numbered(t, dir, list).ino_of(crate::path::join(dir, list[i].text()))
            == crate::listing::number_at(t, dir, list, i),
{
    let path = crate::path::join(dir, list[i].text());
    let at = crate::listing::numbered(t, dir, list.take(i));
    lemma_numbered_from(t, dir, list, i + 1);
    assert(list.take(i + 1).drop_last() =~= list.take(i));
    assert(list.take(i + 1).last() == list[i]);
    let next = at.peeked(path);
    assert(crate::listing::numbered(t, dir, list.take(i + 1)) == next);
    lemma_numbered_keeps(next, dir, list.skip(i + 1), path);
}

/// The items of the directory at a place; anything else has none.
pub open spec fn items_at(d: Disk, s: Spot) -> Seq<Named> {
    match d.at(s) {
        Some(n) if n.is_dir() => n.items,
        _ => Seq::empty(),
    }
}

/// Nothing of the lower layer is seen in the directory under the first path.
pub open spec fn shut(d: Disk, depth: nat) -> bool {
    crate::laws::layering::opaque_at(d, Spot::upper(Which::First))
        || crate::laws::layering::covered_from(d, Which::First, 0, depth)
}

/// What the directory under the first path shows.
pub open spec fn shows(d: Disk, depth: nat) -> Seq<Shown> {
    crate::listing::merged_listing(
        items_at(d, Spot::upper(Which::First)),
        if shut(d, depth) {
            Seq::empty()
        } else {
            items_at(d, Spot::lower(Which::First))
        },
    )
}

/// Listing a directory yields the merged entries of both layers, of the upper one alone if
/// that, or a directory above it, replaces the lower; it changes nothing.
pub proof fn law_listing(d: Disk, depth: nat)
    ensures
        crate::listing::listing(depth, World::Disk(d)) matches Flow::Got(
            list,
            World::Disk(e),
        ) && list == shows(d, depth) && crate::model::only_later(d, e),
{
    let up = Spot::upper(Which::First);
    let low = Spot::lower(Which::First);
    crate::model::step_readdir(d, up);
    let d1 = d.after(Action::ReadDir(up));
    crate::laws::layering::law_opaque(d1, up);
    if let Flow::Got(yes, World::Disk(d2)) = crate::xattr::sealed(up, World::Disk(d1)) {
        crate::laws::layering::law_covering(d2, Which::First, 0, depth);
        crate::laws::layering::lemma_covered_same(d, d2, Which::First, 0, depth);
        if let Flow::Got(_, World::Disk(d3)) = LayerManager::covering(
            Which::First,
            0,
            depth,
            World::Disk(d2),
        ) {
            crate::model::step_readdir(d3, low);
        }
    }
}

/// A directory that is brought up shows what it showed before: it is empty itself, and what
/// the lower layer holds is still seen. Left out is a directory of the lower layer that bears
/// a mark; the mark is brought up with it.
pub proof fn law_promotion_keeps_listing(d: Disk, place: Place)
    requires
        crate::laws::layering::seen(d, place, Which::First) == Some(Layer::Lower),
        d.at(Spot::lower(Which::First))->0.is_dir(),
        !crate::laws::layering::opaque_at(d, Spot::lower(Which::First)),
    ensures
        LayerManager::promoting(place, Which::First, World::Disk(d)) matches Flow::Got(
            _,
            World::Disk(e),
        ) ==> shows(e, place.depth) == shows(d, place.depth),
{
    let up = Spot::upper(Which::First);
    let low = Spot::lower(Which::First);
    crate::laws::layering::law_promotion(d, place, Which::First);
    if let Flow::Got(_, World::Disk(e)) = LayerManager::promoting(
        place,
        Which::First,
        World::Disk(d),
    ) {
        crate::laws::layering::lemma_covered_same(d, e, Which::First, 0, place.depth);
        assert(e.at(low) == d.at(low));
        assert(items_at(e, up) =~= Seq::empty());
        assert(items_at(d, up) =~= Seq::empty());
    }
}

proof fn lemma_founding(d: Disk, mode: u32)
    ensures
        match OverlayOps::founding(mode, World::Disk(d)) {
            Flow::Got(_, World::Disk(e)) => {
                let up = Spot::upper(Which::First);
                &&& crate::model::all_but(d, e, up)
                &&& e.at(up) is Some && e.at(up)->0.is_dir() && e.at(up)->0.items.len() == 0
                &&& e.at(up)->0.xattrs == Map::<Seq<u8>, Seq<u8>>::empty()
                &&& crate::model::never_faults(d) ==> e.at(up)->0.meta.mode & 0o7777 == mode
                    & 0o7777
                &&& crate::model::as_born(d, e.at(up)->0.meta)
            },
            Flow::Fail(c, World::Disk(e)) => {
                &&& crate::model::all_but(d, e, Spot::upper(Which::First))
                &&& crate::model::blames(e, c)
                &&& forall|s: Spot| #[trigger] e.at(s) == d.at(s)
                &&& crate::model::never_faults(d) ==> d.at(Spot::upper(Which::First)) is Some
            },
            _ => false,
        },
{
    let up = Spot::upper(Which::First);
    crate::model::step_parents(d, up);
    let d1 = d.after(Action::MakeParents(up));
    crate::model::step_change(d1, Action::MakeDir(up));
    crate::model::step_frame(d1, Action::MakeDir(up));
    let d2 = d1.after(Action::MakeDir(up));
    crate::model::step_change(d2, Action::SetMode(up, mode));
    crate::model::step_frame(d2, Action::SetMode(up, mode));
    crate::laws::layering::lemma_mode_kept(d2.at(up)->0.meta.mode, mode);
    reveal(Disk::changed);
    reveal(Disk::possible);
    let e = d2.after(Action::SetMode(up, mode));
    assert(d1.works(Action::MakeDir(up)) ==> crate::model::owned_alike(
        e.at(up)->0.meta,
        (d.oracle.born)(d1.clock),
    ));
}

proof fn lemma_sealing(d: Disk)
    requires
        d.at(Spot::upper(Which::First)) is Some,
        d.at(Spot::upper(Which::First))->0.is_dir(),
    ensures
        OverlayOps::sealing(World::Disk(d)) matches Flow::Got(_, World::Disk(e)) && {
            let up = Spot::upper(Which::First);
            &&& crate::model::all_but(d, e, up)
            &&& e.at(up) is Some && e.at(up)->0.is_dir()
            &&& e.at(up)->0 == (Node { xattrs: e.at(up)->0.xattrs, ..d.at(up)->0 })
            &&& crate::model::never_faults(d) && d.at(Spot::lower(Which::First)) is Some && d.at(
                Spot::lower(Which::First),
            )->0.is_dir() ==> crate::laws::layering::opaque_at(e, Spot::upper(Which::First))
            &&& !(d.at(Spot::lower(Which::First)) is Some && d.at(
                Spot::lower(Which::First),
            )->0.is_dir()) ==> e.at(up) == d.at(up)
            &&& crate::model::never_faults(d) && d.at(Spot::lower(Which::First)) is Some && d.at(
                Spot::lower(Which::First),
            )->0.is_dir() ==> e.at(up)->0.xattrs == d.at(up)->0.xattrs.insert(
                crate::model::mark_name(Mark::Trusted),
                crate::model::mark_value(),
            ).insert(crate::model::mark_name(Mark::User), crate::model::mark_value())
        },
{
    let up = Spot::upper(Which::First);
    let low = Spot::lower(Which::First);
    crate::model::step_lstat(d, low);
    let d1 = d.after(Action::Lstat(low));
    let a = Action::SetMark(up, Mark::Trusted);
    let b = Action::SetMark(up, Mark::User);
    crate::model::step_change(d1, a);
    crate::model::step_frame(d1, a);
    let d2 = d1.after(a);
    crate::model::step_change(d2, b);
    crate::model::step_frame(d2, b);
    assert(d1.at(up) == d.at(up));
    reveal(Disk::changed);
    reveal(Disk::possible);
}

/// Creating a directory where one is found is refused, and nothing has changed.
pub proof fn law_mkdir_refuses_directory(d: Disk, place: Place, mode: u32)
    requires
        crate::laws::content::found(d, place) is Some,
        crate::laws::content::found(d, place)->0.is_dir(),
    ensures
        OverlayOps::making_dir(place, mode, World::Disk(d)) matches Flow::Fail(c, World::Disk(e))
            && c == EEXIST && crate::model::only_later(d, e),
{
    crate::laws::entries::lemma_refusing(d, place, EEXIST);
}

/// A new directory is an upper entry that holds nothing, has the owner and the times that
/// the system gave it and, where nothing fails, has the permissions that were asked for;
/// nothing but that and its marker has changed, and the marker is gone unless the system
/// told of something that it was not there. It bears no extended attributes, unless the
/// lower layer has a directory there; then, where nothing fails, it bears both marks that
/// hide what that one holds. If it fails, it is before anything was made or over the
/// marker. Where nothing fails and no directory is found under the path, it can be created
/// if the upper layer has no entry there, is then found in the upper layer, and shows
/// nothing, whatever a hidden directory below it holds.
pub proof fn law_mkdir(d: Disk, place: Place, mode: u32)
    requires
        crate::laws::entries::plain_marker(d, Which::First),
    ensures
        match OverlayOps::making_dir(place, mode, World::Disk(d)) {
            Flow::Got(_, World::Disk(_)) => true,
            Flow::Fail(c, World::Disk(e)) => {
                &&& forall|s: Spot|
                    s != Spot::upper(Which::First) && s != Spot::whiteout(Which::First)
                        ==> #[trigger] e.at(s) == d.at(s)
                &&& !(crate::laws::content::found(d, place) matches Some(n) && n.is_dir())
                    ==> crate::model::blames(e, c)
                &&& crate::model::asked_last(
                    e,
                    Action::RemoveFile(Spot::whiteout(Which::First)),
                ) || forall|s: Spot| #[trigger] e.at(s) == d.at(s)
            },
            _ => false,
        },
        OverlayOps::making_dir(place, mode, World::Disk(d)) matches Flow::Got(
            meta,
            World::Disk(e),
        ) ==> {
            let up = Spot::upper(Which::First);
            &&& e.at(up) is Some && e.at(up)->0.is_dir() && e.at(up)->0.items.len() == 0
            &&& meta == e.at(up)->0.meta
            &&& crate::model::as_born(d, meta)
            &&& crate::model::never_faults(d) ==> e.at(up)->0.meta.mode & 0o7777 == mode & 0o7777
            &&& !(d.at(Spot::lower(Which::First)) matches Some(n) && n.is_dir()) ==> e.at(
                up,
            )->0.xattrs == Map::<Seq<u8>, Seq<u8>>::empty()
            &&& crate::model::never_faults(d) && (d.at(Spot::lower(Which::First)) matches Some(n)
                && n.is_dir()) ==> e.at(up)->0.xattrs == Map::<Seq<u8>, Seq<u8>>::empty().insert(
                crate::model::mark_name(Mark::Trusted),
                crate::model::mark_value(),
            ).insert(crate::model::mark_name(Mark::User), crate::model::mark_value())
            &&& place.named ==> e.at(Spot::whiteout(Which::First)) is None || exists|k: nat| #[trigger]
                (d.oracle.fault)(k) == Some(Some(crate::errno::ENOENT))
            &&& forall|s: Spot|
                s != up && s != Spot::whiteout(Which::First) ==> #[trigger] e.at(s) == d.at(s)
            &&& crate::model::never_faults(d) ==> crate::laws::layering::seen(
                e,
                place,
                Which::First,
            ) == Some(Layer::Upper)
            &&& crate::model::never_faults(d) ==> shows(e, place.depth).len() == 0
            &&& crate::model::rest_kept(d, e)
        },
        crate::model::never_faults(d) && d.at(Spot::upper(Which::First)) is None && !(
        crate::laws::content::found(d, place) is Some && crate::laws::content::found(
            d,
            place,
        )->0.is_dir()) ==> OverlayOps::making_dir(place, mode, World::Disk(d)) matches Flow::Got(
            _,
            World::Disk(_),
        ),
{
    let up = Spot::upper(Which::First);
    let low = Spot::lower(Which::First);
    let wh = Spot::whiteout(Which::First);
    crate::laws::entries::lemma_refusing(d, place, EEXIST);
    if let Flow::Got(_, World::Disk(d1)) = OverlayOps::refusing_dir(
        place,
        EEXIST,
        World::Disk(d),
    ) {
        lemma_founding(d1, mode);
        if let Flow::Got(_, World::Disk(d2)) = OverlayOps::founding(mode, World::Disk(d1)) {
            assert(d2.at(wh) == d1.at(wh));
            crate::laws::entries::lemma_unhiding(d2, place, Which::First);
            if crate::model::never_faults(d) {
                lemma_unhiding_works(d2, place);
            }
            assert(d2.oracle == d.oracle);
            if let Flow::Got(_, World::Disk(d3)) = LayerManager::unhiding(
                place.named,
                Which::First,
                World::Disk(d2),
            ) {
                assert(d3.at(wh) is Some && place.named ==> (d.oracle.fault)(d2.clock) == Some(
                    Some(crate::errno::ENOENT),
                ));
                assert(d3.at(up) == d2.at(up));
                assert(crate::model::as_born(d, d2.at(up)->0.meta));
                assert(d3.at(low) == d2.at(low) && d2.at(low) == d1.at(low));
                lemma_sealing(d3);
                if let Flow::Got(_, World::Disk(d4)) = OverlayOps::sealing(
                    World::Disk(d3),
                ) {
                    assert(d4.at(wh) == d3.at(wh));
                    assert(d4.at(low) == d3.at(low));
                    crate::model::step_stat(d4, up);
                    let e = d4.after(Action::Stat(up));
                    assert(items_at(e, up) =~= Seq::empty());
                    lemma_nothing_shown();
                    if crate::model::never_faults(d) && !crate::laws::layering::opaque_at(
                        e,
                        Spot::upper(Which::First),
                    ) {
                        assert(items_at(e, low) =~= Seq::empty());
                    }
                }
            }
        }
    }
}

proof fn lemma_unhiding_works(d: Disk, place: Place)
    requires
        crate::laws::entries::plain_marker(d, Which::First),
        crate::model::never_faults(d),
    ensures
        LayerManager::unhiding(place.named, Which::First, World::Disk(d)) is Got,
{
    let a = Action::RemoveFile(Spot::whiteout(Which::First));
    if d.at(Spot::whiteout(Which::First)) is None {
        crate::model::step_remove_absent(d, a, Spot::whiteout(Which::First));
    } else {
        crate::model::step_change(d, a);
        reveal(Disk::possible);
    }
}

proof fn lemma_nothing_shown()
    ensures
        crate::listing::merged_listing(Seq::empty(), Seq::empty()).len() == 0,
{
}

/// A directory that shows something is not removed, and nothing has changed.
pub proof fn law_rmdir_refuses_nonempty(d: Disk, place: Place)
    requires
        shows(d, place.depth).len() > 0,
    ensures
        OverlayOps::removing_dir(place, World::Disk(d)) matches Flow::Fail(c, World::Disk(e)) && c
            == ENOTEMPTY && crate::model::only_later(d, e),
{
    law_listing(d, place.depth);
}

/// A removed directory showed nothing; its upper entry is gone, and the lower layer is as
/// it was. Where nothing fails and the path was not hidden, it is then found nowhere; and a
/// directory that shows nothing can be removed. One that shows nothing stays only if its
/// upper entry could not be removed.
pub proof fn law_rmdir(d: Disk, place: Place)
    ensures
        match OverlayOps::removing_dir(place, World::Disk(d)) {
            Flow::Got(_, World::Disk(e)) => {
                let up = Spot::upper(Which::First);
                let wh = Spot::whiteout(Which::First);
                &&& shows(d, place.depth).len() == 0
                &&& e.at(up) is None
                &&& crate::model::lower_kept(d, e)
                &&& forall|s: Spot| s != up && s != wh ==> #[trigger] e.at(s) == d.at(s)
                &&& crate::model::never_faults(d) && place.named && d.at(wh) is None
                    ==> crate::laws::layering::seen(e, place, Which::First) is None
                &&& crate::model::rest_kept(d, e)
                &&& d.at(wh) is None ==> crate::laws::entries::plain_marker(e, Which::First)
            },
            Flow::Fail(c, World::Disk(e)) => {
                &&& crate::model::lower_kept(d, e)
                &&& forall|s: Spot| #[trigger] e.at(s) == d.at(s)
                &&& shows(d, place.depth).len() == 0 ==> crate::model::blames(e, c)
                    && crate::model::asked_last(e, Action::RemoveTree(Spot::upper(Which::First)))
                &&& crate::model::never_faults(d) ==> c == ENOTEMPTY && shows(
                    d,
                    place.depth,
                ).len() > 0
            },
            _ => false,
        },
{
    let up = Spot::upper(Which::First);
    let wh = Spot::whiteout(Which::First);
    let remove = Action::RemoveTree(up);
    law_listing(d, place.depth);
    if let Flow::Got(list, World::Disk(d1)) = crate::listing::listing(
        place.depth,
        World::Disk(d),
    ) {
        if list.len() == 0 {
            crate::laws::entries::lemma_dropping(d1, remove);
            crate::model::step_lstat(d1, up);
            assert(d1.at(up) is Some ==> d1.possible(remove)) by {
                reveal(Disk::possible);
            }
            if let Flow::Got(_, World::Disk(d2)) = OverlayOps::dropping(
                remove,
                World::Disk(d1),
            ) {
                assert(d2.at(wh) == d1.at(wh));
                assert(d2.at(Spot::lower(Which::First)) == d1.at(Spot::lower(Which::First)));
                crate::laws::entries::lemma_covering(d2, place);
                if d.at(wh) is None {
                    crate::laws::entries::lemma_covering_plain(d2, place);
                }
            }
        }
    }
}

/// A directory that was removed and created again shows nothing: what the lower layer has
/// there does not reappear.
pub proof fn law_rmdir_mkdir_cycle(d: Disk, place: Place, mode: u32)
    requires
        place.named,
        crate::model::never_faults(d),
        d.at(Spot::whiteout(Which::First)) is None,
        shows(d, place.depth).len() == 0,
    ensures
        OverlayOps::removing_dir(place, World::Disk(d)).bind(
            |u: (), w: World| OverlayOps::making_dir(place, mode, w),
        ) matches Flow::Got(_, World::Disk(e)) && shows(e, place.depth).len() == 0
            && crate::laws::layering::seen(e, place, Which::First) == Some(Layer::Upper),
{
    law_rmdir(d, place);
    if let Flow::Got(_, World::Disk(d1)) = OverlayOps::removing_dir(place, World::Disk(d)) {
        law_mkdir(d1, place, mode);
    }
}

proof fn lemma_joined(upper: Seq<Named>, lower: Seq<Named>, text: Seq<u8>)
    ensures
        crate::listing::has_item(crate::listing::joined(upper, lower), text) == (
        crate::listing::has_item(upper, text) || crate::listing::has_item(lower, text)
            && !crate::listing::has_item(upper, crate::layers::wh_prefix() + text)),
    decreases lower.len(),
{
    let all = crate::listing::joined(upper, lower);
    if lower.len() > 0 {
        let less = lower.drop_last();
        let rest = crate::listing::joined(upper, less);
        lemma_joined(upper, less, text);
        assert(crate::listing::has_item(lower, text) == (crate::listing::has_item(less, text)
            || crate::listing::item_text(lower.last()) == Some(text))) by {
            if crate::listing::has_item(less, text) {
                let i = choose|i: int|
                    0 <= i < less.len() && crate::listing::item_text(#[trigger] less[i]) == Some(
                        text,
                    );
                assert(lower[i] == less[i]);
            }
            assert(lower[lower.len() - 1] == lower.last());
            if crate::listing::has_item(lower, text) {
                let i = choose|i: int|
                    0 <= i < lower.len() && crate::listing::item_text(#[trigger] lower[i])
                        == Some(text);
                if i < less.len() {
                    assert(less[i] == lower[i]);
                }
            }
        }
        if all != rest {
            assert(all == rest.push(lower.last()));
            if crate::listing::has_item(rest, text) {
                let i = choose|i: int|
                    0 <= i < rest.len() && crate::listing::item_text(#[trigger] rest[i]) == Some(
                        text,
                    );
                assert(all[i] == rest[i]);
            }
            assert(all[rest.len() as int] == lower.last());
            if crate::listing::has_item(all, text) {
                let i = choose|i: int|
                    0 <= i < all.len() && crate::listing::item_text(#[trigger] all[i]) == Some(
                        text,
                    );
                if i < rest.len() {
                    assert(rest[i] == all[i]);
                }
            }
        }
    }
}

/// A listing shows a name.
pub open spec fn tells(list: Seq<Shown>, text: Seq<u8>) -> bool {
    exists|k: int| 0 <= k < list.len() && (#[trigger] list[k]).text() == text
}

proof fn lemma_tells(upper: Seq<Named>, lower: Seq<Named>, text: Seq<u8>)
    ensures
        tells(crate::listing::merged_listing(upper, lower), text) == (!crate::listing::has_item(
            upper,
            crate::layers::wh_prefix() + text,
        ) && (crate::listing::has_item(upper, text) && !crate::listing::is_marker(text)
            || crate::listing::has_item(lower, text))),
{
    let list = crate::listing::merged_listing(upper, lower);
    if tells(list, text) {
        let k = choose|k: int| 0 <= k < list.len() && (#[trigger] list[k]).text() == text;
        law_listing_hides(upper, lower, k);
    }
    if !crate::listing::has_item(upper, crate::layers::wh_prefix() + text) && (
    crate::listing::has_item(upper, text) && !crate::listing::is_marker(text)
        || crate::listing::has_item(lower, text)) {
        law_listing_complete(upper, lower, text);
    }
}

/// A directory that the upper layer was given all of shows, without the lower layer, the
/// names that both showed together, if the lower layer has no markers of its own.
pub proof fn law_joined_shows_the_same(upper: Seq<Named>, lower: Seq<Named>, text: Seq<u8>)
    requires
        forall|x: Seq<u8>| #[trigger]
            crate::listing::is_marker(x) ==> !crate::listing::has_item(lower, x),
    ensures
        tells(
            crate::listing::merged_listing(crate::listing::joined(upper, lower), Seq::empty()),
            text,
        ) == tells(crate::listing::merged_listing(upper, lower), text),
{
    let all = crate::listing::joined(upper, lower);
    let marker = crate::layers::wh_prefix() + text;
    assert(crate::layers::wh_prefix().is_prefix_of(marker)) by {
        assert(marker.take(crate::layers::wh_prefix().len() as int) =~= crate::layers::wh_prefix());
    }
    assert(crate::listing::is_marker(marker));
    lemma_joined(upper, lower, text);
    lemma_joined(upper, lower, marker);
    lemma_tells(upper, lower, text);
    lemma_tells(all, Seq::empty(), text);
    if crate::listing::is_marker(text) {
        assert(!crate::listing::has_item(lower, text));
    }
}

proof fn lemma_told_alike(
    t: Inodes,
    ino: u64,
    dir: Seq<u8>,
    list: Seq<Shown>,
    metas: Seq<Option<Meta>>,
    from: int,
    to: int,
)
    requires
        to <= metas.len(),
        0 <= from,
        forall|i: int| 0 <= i < metas.len() ==> (#[trigger] metas[i]) is Some,
    ensures
        ({
            let plus = crate::listing::told_plus(t, ino, dir, list, metas, from, to);
            &&& plus.len() == if to <= from {
                0
            } else {
                to - from
            }
            &&& forall|i: int|
                0 <= i < plus.len() ==> {
                    let e = crate::listing::told(t, ino, dir, list, from + i);
                    &&& (#[trigger] plus[i]).ino == e.ino
                    &&& plus[i].offset == e.offset
                    &&& plus[i].name == e.name
                    &&& plus[i].attr == FileAttr::of(e.ino, metas[from + i]->0)
                }
        }),
    decreases to - from,
{
    if to > from {
        lemma_told_alike(t, ino, dir, list, metas, from, to - 1);
        assert(metas[to - 1] is Some);
    }
}

/// A listing with attributes has the names, numbers and positions of the plain listing, if
/// the metadata of every entry could be read, and each entry has the attributes that this
/// makes.
pub proof fn law_readdirplus_like_readdir(
    t: Inodes,
    ino: u64,
    dir: Seq<u8>,
    list: Seq<Shown>,
    metas: Seq<Option<Meta>>,
    offset: int,
)
    requires
        0 <= offset,
        metas.len() == list.len() + 2,
        forall|i: int| 0 <= i < metas.len() ==> (#[trigger] metas[i]) is Some,
    ensures
        ({
            let plain = crate::listing::told_from(t, ino, dir, list, offset);
            let plus = crate::listing::told_plus(
                t,
                ino,
                dir,
                list,
                metas,
                offset,
                (list.len() + 2) as int,
            );
            &&& plus.len() == plain.len()
            &&& forall|i: int|
                0 <= i < plus.len() ==> {
                    &&& (#[trigger] plus[i]).ino == plain[i].ino
                    &&& plus[i].offset == plain[i].offset
                    &&& plus[i].name == plain[i].name
                    &&& plus[i].attr == FileAttr::of(plain[i].ino, metas[offset + i]->0)
                }
        }),
{
    lemma_told_alike(t, ino, dir, list, metas, offset, (list.len() + 2) as int);
}

proof fn lemma_numbered_kept(t: Inodes, dir: Seq<u8>, list: Seq<Shown>, ino: u64)
    requires
        t.coherent(),
        t.map.dom().len() + list.len() + 2 < crate::inode::all_numbers(),
        t.mode is Virtual ==> t.next + list.len() + 2 < u64::MAX,
        t.map.contains_key(ino),
    ensures
        ({
            let u = crate::listing::numbered(t, dir, list);
            &&& u.coherent() && u.mode == t.mode
            &&& u.map.dom().len() <= t.map.dom().len() + list.len()
            &&& u.next <= t.next + list.len()
            &&& u.map.contains_key(ino) && u.map[ino] == t.map[ino]
        }),
    decreases list.len(),
{
    if list.len() > 0 {
        let front = list.drop_last();
        lemma_numbered_kept(t, dir, front, ino);
        let u = crate::listing::numbered(t, dir, front);
        let path = crate::path::join(dir, list.last().text());
        crate::inode::law_coherence_kept(u, path, 0, 0);
        if !u.knows(path) {
            crate::inode::law_peek_adds_unheld(u, path, ino);
            assert(u.peeked(path).map.dom() =~= u.map.dom().insert(u.ino_of(path)));
        }
    }
}

/// Listing a directory takes no number away and adds no hold to one: whatever number was known
/// before has the path and the holds that it had, as long as there are numbers left.
pub proof fn law_listing_holds_nothing(t: Inodes, dir: Seq<u8>, list: Seq<Shown>, ino: u64)
    requires
        t.coherent(),
        t.map.dom().len() + list.len() + 3 < crate::inode::all_numbers(),
        t.mode is Virtual ==> t.next + list.len() + 3 < u64::MAX,
        t.map.contains_key(ino),
    ensures
        ({
            let u = crate::listing::numbered(
                crate::listing::above_peeked(t, dir),
                dir,
                list,
            );
            &&& u.coherent()
            &&& u.map.contains_key(ino) && u.map[ino] == t.map[ino]
        }),
{
    let up = crate::listing::above(dir);
    if up.len() > 0 {
        crate::inode::law_coherence_kept(t, up, 0, 0);
        if !t.knows(up) {
            crate::inode::law_peek_adds_unheld(t, up, ino);
            assert(t.peeked(up).map.dom() =~= t.map.dom().insert(t.ino_of(up)));
        }
    }
    lemma_numbered_kept(crate::listing::above_peeked(t, dir), dir, list, ino);
}

/// The number that a listing tells for an entry leads to the path of that entry from then on:
/// the path of the directory, followed by the name that is shown.
pub proof fn law_told_numbers(t: Inodes, ino: u64, dir: Seq<u8>, list: Seq<Shown>, k: int)
    requires
        0 <= k < list.len(),
    ensures
        ({
            let u = crate::listing::numbered(
                crate::listing::above_peeked(t, dir),
                dir,
                list,
            );
            let path = crate::path::join(dir, crate::text::lossy(list[k].name));
            &&& u.ino_of(path) == crate::listing::told_from(t, ino, dir, list, 0)[k + 2].ino
            &&& u.knows(path)
        }),
{
    let at = crate::listing::above_peeked(t, dir);
    law_listed_numbers(at, dir, list, k);
    let path = crate::path::join(dir, list[k].text());
    lemma_numbered_from(at, dir, list, k + 1);
    assert(list.take(k + 1).drop_last() =~= list.take(k));
    assert(list.take(k + 1).last() == list[k]);
    lemma_numbered_keeps(
        crate::listing::numbered(at, dir, list.take(k + 1)),
        dir,
        list.skip(k + 1),
        path,
    );
}

/// Of several places where an entry may be, the metadata of the first that has any count.
pub proof fn law_first_found(metas: Seq<Option<Meta>>, k: int)
    ensures
        0 <= k < metas.len() && metas[k] is Some && (forall|i: int|
            0 <= i < k ==> (#[trigger] metas[i]) is None) ==> crate::listing::first(metas)
            == metas[k],
        (forall|i: int| 0 <= i < metas.len() ==> (#[trigger] metas[i]) is None)
            ==> crate::listing::first(metas) is None,
    decreases metas.len(),
{
    if metas.len() > 0 && metas[0] is None {
        let rest = metas.skip(1);
        law_first_found(rest, k - 1);
        if 0 <= k < metas.len() && metas[k] is Some && (forall|i: int|
            0 <= i < k ==> (#[trigger] metas[i]) is None) {
            assert forall|i: int| 0 <= i < k - 1 implies (#[trigger] rest[i]) is None by {
                assert(rest[i] == metas[i + 1]);
            }
            assert(rest[k - 1] == metas[k]);
        }
        if forall|i: int| 0 <= i < metas.len() ==> (#[trigger] metas[i]) is None {
            assert forall|i: int| 0 <= i < rest.len() implies (#[trigger] rest[i]) is None by {
                assert(rest[i] == metas[i + 1]);
            }
        }
    } else if metas.len() > 0 && 0 < k < metas.len() && (forall|i: int|
        0 <= i < k ==> (#[trigger] metas[i]) is None) {
        assert(metas[0] is None);
    }
}

proof fn lemma_entry_spot(layers: LayerManager, layer: Layer, rel: Seq<u8>)
    ensures
        layers.spot_at(Spot::entry(layer, Which::First), rel, rel) == Some(
            crate::path::join(
                if layer is Upper {
                    layers.backend.upper@
                } else {
                    layers.backend.lower@
                },
                rel,
            ),
        ),
{
}

/// The metadata that a listing tells of an entry are looked for where the entry is: under its
/// name on disk, in the layer that shows it. The directory itself and the one above are looked
/// for in the upper layer first, then in the lower one.
pub proof fn law_places_of_entries(o: OverlayOps, dir: Seq<u8>, list: Seq<Shown>, k: int)
    requires
        0 <= k < list.len(),
    ensures
        ({
            let rel = crate::path::join(dir, list[k].name);
            let places = o.places_at(dir, list, k + 2);
            &&& places.len() == 1
            &&& Some(places[0]) == o.layers.spot_at(
                Spot::entry(list[k].layer, Which::First),
                rel,
                rel,
            )
        }),
        ({
            let places = o.places_at(dir, list, 0);
            &&& places.len() == 2
            &&& Some(places[0]) == o.layers.spot_at(Spot::upper(Which::First), dir, dir)
            &&& Some(places[1]) == o.layers.spot_at(Spot::lower(Which::First), dir, dir)
        }),
        ({
            let places = o.places_at(dir, list, 1);
            let up = match crate::path::parent(dir) {
                Some(p) => p,
                None => Seq::empty(),
            };
            &&& places.len() == 2
            &&& Some(places[0]) == o.layers.spot_at(Spot::upper(Which::First), up, up)
            &&& Some(places[1]) == o.layers.spot_at(Spot::lower(Which::First), up, up)
        }),
{
    let upper = Layer::Upper;
    let lower = Layer::Lower;
    let up = match crate::path::parent(dir) {
        Some(p) => p,
        None => Seq::empty(),
    };
    assert(crate::listing::above(dir) == up);
    lemma_entry_spot(o.layers, list[k].layer, crate::path::join(dir, list[k].name));
    lemma_entry_spot(o.layers, upper, dir);
    lemma_entry_spot(o.layers, lower, dir);
    lemma_entry_spot(o.layers, upper, up);
    lemma_entry_spot(o.layers, lower, up);
}

/// A directory that the upper layer is given all of holds every item that it held and every
/// item of the lower one whose name the upper one neither has nor hides, each as it is; and
/// nothing else.
pub proof fn law_joined_items(upper: Seq<Named>, lower: Seq<Named>, item: Named)
    ensures
        crate::listing::joined(upper, lower).contains(item) <==> upper.contains(item) || (
        lower.contains(item) && (item matches Named::Entry(name, _)
            && !crate::listing::has_item(upper, crate::text::lossy(name))
            && !crate::listing::has_item(
            upper,
            crate::layers::wh_prefix() + crate::text::lossy(name),
        ))),
    decreases lower.len(),
{
    if lower.len() > 0 {
        let less = lower.drop_last();
        let rest = crate::listing::joined(upper, less);
        law_joined_items(upper, less, item);
        assert(lower =~= less.push(lower.last()));
        assert(lower.contains(item) <==> less.contains(item) || lower.last() == item) by {
            if less.contains(item) {
                let i = choose|i: int| 0 <= i < less.len() && less[i] == item;
                assert(lower[i] == item);
            }
            if lower.contains(item) {
                let i = choose|i: int| 0 <= i < lower.len() && lower[i] == item;
                if i < less.len() {
                    assert(less[i] == item);
                }
            }
            assert(lower[lower.len() - 1] == lower.last());
        }
        let more = rest.push(lower.last());
        assert(more.contains(item) <==> rest.contains(item) || lower.last() == item) by {
            if rest.contains(item) {
                let i = choose|i: int| 0 <= i < rest.len() && rest[i] == item;
                assert(more[i] == item);
            }
            assert(more[rest.len() as int] == lower.last());
            if more.contains(item) {
                let i = choose|i: int| 0 <= i < more.len() && more[i] == item;
                if i < rest.len() {
                    assert(rest[i] == item);
                }
            }
        }
    }
}

/// An entry of a listing with attributes tells of a position what the plain listing tells of
/// it, and has the attributes that the metadata make.
pub open spec fn plus_of(p: ToldPlus, e: Told, meta: Option<Meta>) -> bool {
    &&& meta is Some
    &&& p.ino == e.ino && p.offset == e.offset && p.name == e.name
    &&& p.attr == FileAttr::of(e.ino, meta->0)
}

proof fn lemma_told_plus(
    t: Inodes,
    ino: u64,
    dir: Seq<u8>,
    list: Seq<Shown>,
    metas: Seq<Option<Meta>>,
    from: int,
    to: int,
    k: int,
)
    requires
        0 <= from <= k < to,
        to <= metas.len(),
    ensures
        ({
            let plus = crate::listing::told_plus(t, ino, dir, list, metas, from, to);
            let e = crate::listing::told(t, ino, dir, list, k);
            &&& metas[k] is Some ==> exists|j: int|
                0 <= j < plus.len() && plus_of(#[trigger] plus[j], e, metas[k])
            &&& forall|j: int|
                0 <= j < plus.len() && (#[trigger] plus[j]).offset == k + 1 ==> plus_of(
                    plus[j],
                    e,
                    metas[k],
                )
            &&& forall|j: int| 0 <= j < plus.len() ==> from < (#[trigger] plus[j]).offset <= to
        }),
    decreases to - from,
{
    let plus = crate::listing::told_plus(t, ino, dir, list, metas, from, to);
    let rest = crate::listing::told_plus(t, ino, dir, list, metas, from, to - 1);
    let e = crate::listing::told(t, ino, dir, list, k);
    if k < to - 1 {
        lemma_told_plus(t, ino, dir, list, metas, from, to - 1, k);
        if metas[k] is Some {
            let j = choose|j: int| 0 <= j < rest.len() && plus_of(#[trigger] rest[j], e, metas[k]);
            assert(plus_of(plus[j], e, metas[k]));
        }
        assert forall|j: int| 0 <= j < plus.len() && (#[trigger] plus[j]).offset == k
            + 1 implies plus_of(plus[j], e, metas[k]) by {
            if j < rest.len() {
                assert(plus[j] == rest[j]);
            }
        }
    } else {
        if from < to - 1 {
            lemma_told_plus(t, ino, dir, list, metas, from, to - 1, from);
        }
        assert forall|j: int| 0 <= j < rest.len() implies plus[j] == #[trigger] rest[j] by {}
        if metas[k] is Some {
            assert(plus_of(plus[rest.len() as int], e, metas[k]));
        }
    }
    assert forall|j: int| 0 <= j < plus.len() implies from < (#[trigger] plus[j]).offset <= to by {
        if j < rest.len() {
            assert(plus[j] == rest[j]);
        }
    }
}

/// A listing with attributes leaves out the entries whose metadata could not be read, and no
/// others: of every position it tells what the plain listing tells, if there are metadata.
pub proof fn law_readdirplus_leaves_out(
    t: Inodes,
    ino: u64,
    dir: Seq<u8>,
    list: Seq<Shown>,
    metas: Seq<Option<Meta>>,
    offset: int,
    k: int,
)
    requires
        0 <= offset <= k < list.len() + 2,
        metas.len() == list.len() + 2,
    ensures
        ({
            let plain = crate::listing::told_from(t, ino, dir, list, 0);
            let plus = crate::listing::told_plus(
                t,
                ino,
                dir,
                list,
                metas,
                offset,
                (list.len() + 2) as int,
            );
            &&& metas[k] is Some ==> exists|j: int|
                0 <= j < plus.len() && plus_of(#[trigger] plus[j], plain[k], metas[k])
            &&& metas[k] is None ==> forall|j: int|
                0 <= j < plus.len() ==> (#[trigger] plus[j]).offset != k + 1
            &&& forall|j: int| 0 <= j < plus.len() ==> (#[trigger] plus[j]).offset > offset
        }),
{
    lemma_told_plus(t, ino, dir, list, metas, offset, (list.len() + 2) as int, k);
}

/// A directory whose number is not known is taken to be the root.
pub proof fn law_unknown_directory(o: OverlayOps, ino: u64)
    ensures
        o.inodes@.map.contains_key(ino) ==> o.path_or_root(ino) == o.inodes@.map[ino].path,
        !o.inodes@.map.contains_key(ino) ==> o.path_or_root(ino) == Seq::<u8>::empty(),
{
}

} // verus!
