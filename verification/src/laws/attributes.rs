//! Listing and copying extended attributes.

use crate::errno::{ENODATA, ENOENT, ERANGE};
use crate::fuse_ops::OverlayOps;
use crate::layers::{LayerManager, Place};
use crate::model::Disk;
use crate::protocol::{Action, Answer, Flow, Spot, Which, World};
use crate::xattr::XattrAnswer;
use vstd::prelude::*;

verus! {

/// Merging two lists of names keeps the first as it is and loses no name of either.
pub proof fn law_merged_names(names: Seq<Seq<u8>>, more: Seq<Seq<u8>>, x: Seq<u8>)
    ensures
        crate::xattr::merged(names, more).contains(x) <==> names.contains(x) || more.contains(x),
        names.is_prefix_of(crate::xattr::merged(names, more)),
    decreases more.len(),
{
    if more.len() > 0 {
        let front = more.drop_last();
        law_merged_names(names, front, x);
        law_merged_names(names, front, more.last());
        let m = crate::xattr::merged(names, front);
        let all = crate::xattr::merged(names, more);
        if front.contains(x) {
            let i = choose|i: int| 0 <= i < front.len() && front[i] == x;
            assert(more[i] == x);
        }
        if more.contains(x) && !front.contains(x) {
            let i = choose|i: int| 0 <= i < more.len() && more[i] == x;
            if i < front.len() {
                assert(front[i] == x);
            }
            assert(more.last() == x);
        }
        if m.contains(x) {
            let i = choose|i: int| 0 <= i < m.len() && m[i] == x;
            assert(all[i] == x);
        }
        if all != m {
            assert(all == m.push(more.last()));
            assert(all[m.len() as int] == more.last());
            if all.contains(x) {
                let i = choose|i: int| 0 <= i < all.len() && all[i] == x;
                if i < m.len() {
                    assert(m[i] == x);
                }
            }
            assert(all.subrange(0, names.len() as int) =~= m.subrange(0, names.len() as int));
        }
        assert(more.contains(more.last()) ==> true);
        assert(more[more.len() - 1] == more.last());
    } else {
        assert(names.subrange(0, names.len() as int) =~= names);
    }
}

/// Merging two lists of names lists none twice, if the first does not.
pub proof fn law_merged_names_differ(names: Seq<Seq<u8>>, more: Seq<Seq<u8>>)
    requires
        names.no_duplicates(),
    ensures
        crate::xattr::merged(names, more).no_duplicates(),
    decreases more.len(),
{
    if more.len() > 0 {
        let m = crate::xattr::merged(names, more.drop_last());
        law_merged_names_differ(names, more.drop_last());
        if !m.contains(more.last()) {
            let all = m.push(more.last());
            assert forall|i: int, j: int| 0 <= i < j < all.len() implies all[i] != all[j] by {
                if j == m.len() {
                    assert(m.contains(m[i]));
                }
            }
        }
    }
}

/// What an entry lists as its extended attributes; nothing if it is not there.
pub open spec fn listed_at(d: Disk, s: Spot) -> Seq<Seq<u8>> {
    crate::xattr::parsed(
        match d.at(s) {
            Some(n) => (d.oracle.listing)(n.xattrs),
            None => Seq::empty(),
        },
    )
}

proof fn lemma_listing(d: Disk, s: Spot)
    ensures
        Action::ListXattr(s).some_data(World::Disk(d)) matches Flow::Got(raw, World::Disk(e))
            && crate::xattr::parsed(raw) == listed_at(d, s) && crate::model::only_later(d, e),
{
    reveal(Disk::reply);
    reveal(Disk::after);
    reveal(Disk::changed);
}

/// The extended attributes of an entry are listed as those of the layer in which it is found,
/// in their order, followed by those of its counterpart in the other layer that are not among
/// them. No name is listed twice unless the first layer lists it twice by itself; there two
/// names that are no text may come out alike.
pub proof fn law_listxattr(d: Disk, place: Place)
    ensures
        match OverlayOps::naming(place, World::Disk(d)) {
            Flow::Got(names, World::Disk(e)) => {
                &&& crate::laws::layering::seen(d, place, Which::First) matches Some(layer) && {
                    let here = Spot::entry(layer, Which::First);
                    let there = if layer is Upper {
                        Spot::lower(Which::First)
                    } else {
                        Spot::upper(Which::First)
                    };
                    &&& listed_at(d, here).is_prefix_of(names)
                    &&& forall|x: Seq<u8>| #[trigger]
                        names.contains(x) <==> listed_at(d, here).contains(x) || d.at(there) is Some
                            && listed_at(d, there).contains(x)
                    &&& listed_at(d, here).no_duplicates() ==> names.no_duplicates()
                }
                &&& crate::model::only_later(d, e)
            },
            Flow::Fail(c, World::Disk(e)) => {
                &&& c == ENOENT && crate::laws::layering::seen(d, place, Which::First) is None
                &&& crate::model::only_later(d, e)
            },
            _ => false,
        },
{
    crate::laws::layering::law_resolve(d, place, Which::First);
    if let Flow::Got(Some(layer), World::Disk(d1)) = LayerManager::resolving(
        place,
        Which::First,
        World::Disk(d),
    ) {
        let here = Spot::entry(layer, Which::First);
        let there = if layer is Upper {
            Spot::lower(Which::First)
        } else {
            Spot::upper(Which::First)
        };
        lemma_listing(d1, here);
        if let Flow::Got(raw, World::Disk(d2)) = Action::ListXattr(here).some_data(
            World::Disk(d1),
        ) {
            crate::model::step_lstat(d2, there);
            let d3 = d2.after(Action::Lstat(there));
            lemma_listing(d3, there);
            let first = listed_at(d, here);
            let more = listed_at(d, there);
            assert(listed_at(d1, here) == first);
            assert(listed_at(d3, there) == more);
            assert forall|x: Seq<u8>| #[trigger]
                crate::xattr::merged(first, more).contains(x) <==> first.contains(x)
                    || more.contains(x) by {
                law_merged_names(first, more, x);
            }
            law_merged_names(first, more, Seq::empty());
            if first.no_duplicates() {
                law_merged_names_differ(first, more);
            }
            assert(first.is_prefix_of(first));
        }
    }
}

proof fn lemma_unended_append(raw: Seq<u8>, name: Seq<u8>)
    requires
        raw.len() == 0 || raw.last() == 0,
        !name.contains(0),
    ensures
        crate::xattr::unended(raw + name) == name,
        crate::xattr::ended(raw + name) == crate::xattr::ended(raw),
    decreases name.len(),
{
    if name.len() == 0 {
        assert(raw + name =~= raw);
        assert(crate::xattr::unended(raw) =~= Seq::empty());
        assert(name =~= Seq::empty());
    } else {
        let front = name.drop_last();
        assert((raw + name).drop_last() =~= raw + front);
        assert((raw + name).last() == name.last());
        assert(name.contains(name.last()));
        assert forall|x: u8| front.contains(x) implies name.contains(x) by {
            let i = choose|i: int| 0 <= i < front.len() && front[i] == x;
            assert(name[i] == x);
        }
        lemma_unended_append(raw, front);
        assert(front.push(name.last()) =~= name);
    }
}

/// A list of names that was written for the system is read back as it was.
pub proof fn law_names_round_trip(names: Seq<Seq<u8>>)
    requires
        forall|i: int| 0 <= i < names.len() ==> !(#[trigger] names[i]).contains(0),
    ensures
        crate::xattr::ended(crate::xattr::encoded(names)) == names,
        crate::xattr::unended(crate::xattr::encoded(names)) == Seq::<u8>::empty(),
    decreases names.len(),
{
    let raw = crate::xattr::encoded(names);
    if names.len() == 0 {
        assert(crate::xattr::ended(raw) =~= names);
    } else {
        let front = names.drop_last();
        assert forall|i: int| 0 <= i < front.len() implies !(#[trigger] front[i]).contains(0) by {
            assert(front[i] == names[i]);
        }
        law_names_round_trip(front);
        let head = crate::xattr::encoded(front);
        assert(head.len() == 0 || head.last() == 0);
        assert(!names[names.len() - 1].contains(0));
        lemma_unended_append(head, names.last());
        assert(raw.drop_last() =~= head + names.last());
        assert(raw.last() == 0);
        assert(front.push(names.last()) =~= names);
    }
}

/// The attributes up to a number are copied.
pub open spec fn copied_upto(
    source: Seq<(Seq<u8>, Seq<u8>)>,
    dest: Map<Seq<u8>, Seq<u8>>,
    k: int,
) -> Map<Seq<u8>, Seq<u8>>
    decreases k,
{
    if k <= 0 {
        dest
    } else {
        copied_upto(source, dest, k - 1).insert(source[k - 1].0, source[k - 1].1)
    }
}

/// Nothing that copying attributes depends on differs.
pub open spec fn same_source(d: Disk, e: Disk) -> bool {
    &&& e.source == d.source
    &&& e.oracle == d.oracle
}

proof fn lemma_copying_nth(d: Disk, k: usize)
    requires
        k < d.source.len(),
        d.source[k as int].1.len() <= i64::MAX,
    ensures
        match crate::xattr::copying_nth(k, World::Disk(d)) {
            Flow::Got(_, World::Disk(e)) => {
                &&& same_source(d, e)
                &&& e.dest == d.dest.insert(d.source[k as int].0, d.source[k as int].1)
            },
            Flow::Fail(_, _) => !crate::model::never_faults(d),
            _ => false,
        },
{
    let v = d.source[k as int].1;
    reveal(Disk::reply);
    reveal(Disk::after);
    reveal(Disk::possible);
    if v.len() == 0 {
        assert(v =~= Seq::empty());
    }
}

proof fn lemma_copying_from(d: Disk, k: nat)
    requires
        k <= d.source.len() <= usize::MAX,
        forall|i: int| 0 <= i < d.source.len() ==> (#[trigger] d.source[i]).1.len() <= i64::MAX,
    ensures
        match crate::xattr::copying_from(k, d.source.len(), World::Disk(d)) {
            Flow::Got(_, World::Disk(e)) => forall|base: Map<Seq<u8>, Seq<u8>>|
                d.dest == #[trigger] copied_upto(d.source, base, k as int) ==> e.dest
                    == copied_upto(d.source, base, d.source.len() as int),
            Flow::Fail(_, _) => !crate::model::never_faults(d),
            _ => false,
        },
    decreases d.source.len() - k,
{
    if k < d.source.len() {
        lemma_copying_nth(d, k as usize);
        if let Flow::Got(_, World::Disk(d1)) = crate::xattr::copying_nth(
            k as usize,
            World::Disk(d),
        ) {
            lemma_copying_from(d1, k + 1);
            if let Flow::Got(_, World::Disk(e)) = crate::xattr::copying_from(
                k,
                d.source.len(),
                World::Disk(d),
            ) {
                assert forall|base: Map<Seq<u8>, Seq<u8>>|
                    d.dest == #[trigger] copied_upto(d.source, base, k as int) implies e.dest
                    == copied_upto(d.source, base, d.source.len() as int) by {
                    assert(d1.dest == copied_upto(d.source, base, (k + 1) as int));
                }
            }
        }
    }
}

/// All extended attributes are copied, empty ones among them, and nothing is lost that the
/// destination had under other names. Where nothing fails, the copy succeeds.
pub proof fn law_copy_xattrs(d: Disk, src: Spot)
    requires
        d.at(src) is Some,
        crate::xattr::ended((d.oracle.listing)(d.at(src)->0.xattrs)).len() == d.source.len(),
        d.source.len() <= usize::MAX,
        forall|i: int| 0 <= i < d.source.len() ==> (#[trigger] d.source[i]).1.len() <= i64::MAX,
    ensures
        match crate::xattr::copying_all(src, World::Disk(d)) {
            Flow::Got(_, World::Disk(e)) => e.dest == copied_upto(
                d.source,
                d.dest,
                d.source.len() as int,
            ),
            Flow::Fail(_, _) => !crate::model::never_faults(d),
            _ => false,
        },
{
    assert(d.reply(Action::ListXattr(src)) == Answer::Data(
        (d.oracle.listing)(d.at(src)->0.xattrs),
    ) && same_source(d, d.after(Action::ListXattr(src))) && d.after(Action::ListXattr(src)).dest
        == d.dest) by {
        reveal(Disk::reply);
        reveal(Disk::after);
    }
    let d1 = d.after(Action::ListXattr(src));
    lemma_copying_from(d1, 0);
    assert(d1.dest == copied_upto(d.source, d.dest, 0));
}

/// After all attributes are copied, each has its value, if no two have the same name.
pub proof fn law_copied_values(
    source: Seq<(Seq<u8>, Seq<u8>)>,
    dest: Map<Seq<u8>, Seq<u8>>,
    k: int,
    i: int,
)
    requires
        0 <= i < k <= source.len(),
        forall|a: int, b: int|
            0 <= a < b < source.len() ==> (#[trigger] source[a]).0 != (#[trigger] source[b]).0,
    ensures
        copied_upto(source, dest, k).contains_key(source[i].0),
        copied_upto(source, dest, k)[source[i].0] == source[i].1,
    decreases k,
{
    if i < k - 1 {
        law_copied_values(source, dest, k - 1, i);
        assert(source[i].0 != source[k - 1].0);
    }
}

proof fn lemma_texts(names: Seq<Seq<u8>>)
    requires
        forall|i: int| 0 <= i < names.len() ==> (#[trigger] names[i]).len() > 0,
    ensures
        crate::xattr::texts(names).len() == names.len(),
        forall|i: int|
            0 <= i < names.len() ==> #[trigger] crate::xattr::texts(names)[i]
                == crate::text::lossy(names[i]),
    decreases names.len(),
{
    if names.len() > 0 {
        let front = names.drop_last();
        assert forall|i: int| 0 <= i < front.len() implies (#[trigger] front[i]).len() > 0 by {
            assert(front[i] == names[i]);
        }
        assert(names[names.len() - 1].len() > 0);
        lemma_texts(front);
        assert forall|i: int| 0 <= i < names.len() implies #[trigger] crate::xattr::texts(
            names,
        )[i] == crate::text::lossy(names[i]) by {
            if i < front.len() {
                assert(crate::xattr::texts(front)[i] == crate::text::lossy(front[i]));
            }
        }
    }
}

/// The names in a list that the system gives are read one by one, in order, as texts; none is
/// lost, and none is made up.
pub proof fn law_names_parsed(names: Seq<Seq<u8>>)
    requires
        forall|i: int|
            0 <= i < names.len() ==> !(#[trigger] names[i]).contains(0) && names[i].len() > 0,
    ensures
        crate::xattr::parsed(crate::xattr::encoded(names)).len() == names.len(),
        forall|i: int|
            0 <= i < names.len() ==> #[trigger] crate::xattr::parsed(
                crate::xattr::encoded(names),
            )[i] == crate::text::lossy(names[i]),
{
    law_names_round_trip(names);
    lemma_texts(names);
    let all = names.push(Seq::empty());
    assert(all.drop_last() =~= names);
    assert(crate::xattr::texts(all) == crate::xattr::texts(names));
}

/// A list is answered whole if it fits; its length is told if no room is given, and `ERANGE`
/// if the room is too small. Nothing is asked for.
pub proof fn law_list_fits(out: Seq<u8>, size: u32, w: World)
    ensures
        size == 0 ==> (OverlayOps::fitting(out, size, w) matches Flow::Got(
            XattrAnswer::Size(n),
            v,
        ) && v == w && (out.len() <= u32::MAX ==> n == out.len())),
        0 < size < out.len() ==> OverlayOps::fitting(out, size, w) == Flow::<XattrAnswer>::Fail(
            ERANGE,
            w,
        ),
        0 < size && out.len() <= size ==> OverlayOps::fitting(out, size, w) == Flow::Got(
            XattrAnswer::Data(out),
            w,
        ),
{
}

/// The attributes of an entry that is not there cannot be copied.
pub proof fn law_copy_needs_source(d: Disk, src: Spot)
    requires
        d.at(src) is None,
    ensures
        crate::xattr::copying_all(src, World::Disk(d)) matches Flow::Fail(c, World::Disk(e)) && c
            == ENOENT && e.dest == d.dest && crate::model::only_later(d, e),
{
    reveal(Disk::reply);
    reveal(Disk::after);
    reveal(Disk::changed);
}

/// A value that has grown since its length was asked for is read again, with the room that it
/// then needs, and copied; one that has become empty is copied empty.
pub proof fn law_grown_value_copied(k: usize, n: i64, w: World, w1: World)
    requires
        Action::NthValue(k, n).ask(w) == Flow::Got(Answer::Failed(Some(ERANGE)), w1),
    ensures
        Action::NthSize(k).ask(w1) matches Flow::Got(Answer::Count(m), w2) ==> {
            &&& m <= 0 ==> crate::xattr::copying_value(k, n, w) == Action::SetNthEmpty(k).run(w2)
            &&& m > 0 ==> (Action::NthValue(k, m).ask(w2) matches Flow::Got(Answer::Data(_), w3)
                ==> crate::xattr::copying_value(k, n, w) == Action::SetNth(k).run(w3))
        },
{
}

/// Copying an attribute ends with the code of the request that failed, whether that is for
/// the length of the value or for the value itself, the first time or the second. Only an
/// attribute that is gone is passed over.
pub proof fn law_unreadable_value(k: usize, n: i64, c: i32, w: World, w1: World)
    ensures
        Action::NthSize(k).ask(w) == Flow::Got(Answer::Failed(Some(c)), w1)
            ==> crate::xattr::copying_nth(k, w) == if c == ENODATA {
            Flow::Got((), w1)
        } else {
            Flow::Fail(c, w1)
        },
        Action::NthValue(k, n).ask(w) == Flow::Got(Answer::Failed(Some(c)), w1) && c != ERANGE
            ==> crate::xattr::copying_value(k, n, w) == if c == ENODATA {
            Flow::Got((), w1)
        } else {
            Flow::Fail(c, w1)
        },
        Action::NthSize(k).ask(w) == Flow::Got(Answer::Failed(Some(c)), w1)
            ==> crate::xattr::copying_again(k, w) == if c == ENODATA {
            Flow::Got((), w1)
        } else {
            Flow::Fail(c, w1)
        },
        Action::NthSize(k).ask(w) matches Flow::Got(Answer::Count(m), w2) ==> (m > 0
            && Action::NthValue(k, m).ask(w2) == Flow::Got(Answer::Failed(Some(c)), w1)
            ==> crate::xattr::copying_again(k, w) == if c == ENODATA {
            Flow::Got((), w1)
        } else {
            Flow::Fail(c, w1)
        }),
{
}

/// A list of attributes that cannot be read ends the copy with the code of the failure.
pub proof fn law_unreadable_list(src: Spot, c: i32, w: World, w1: World)
    requires
        Action::ListXattr(src).ask(w) == Flow::Got(Answer::Failed(Some(c)), w1),
    ensures
        crate::xattr::copying_all(src, w) == Flow::<()>::Fail(c, w1),
{
}

/// A value that is read is set, an empty one too; one that cannot be set ends the copy with
/// the code of that failure.
pub proof fn law_unset_value(k: usize, n: i64, c: i32, w: World, w1: World, w2: World, w3: World)
    requires
        Action::NthSize(k).ask(w) == Flow::Got(Answer::Count(n), w1),
    ensures
        n <= 0 && Action::SetNthEmpty(k).ask(w1) == Flow::Got(Answer::Failed(Some(c)), w2)
            ==> crate::xattr::copying_nth(k, w) == Flow::<()>::Fail(c, w2),
        n <= 0 && Action::SetNthEmpty(k).ask(w1) == Flow::Got(Answer::Done, w2)
            ==> crate::xattr::copying_nth(k, w) == Flow::Got((), w2),
        n > 0 && (Action::NthValue(k, n).ask(w1) matches Flow::Got(Answer::Data(_), v) && v == w2)
            && Action::SetNth(k).ask(w2) == Flow::Got(Answer::Failed(Some(c)), w3)
            ==> crate::xattr::copying_nth(k, w) == Flow::<()>::Fail(c, w3),
        n > 0 && (Action::NthValue(k, n).ask(w1) matches Flow::Got(Answer::Data(_), v) && v == w2)
            && Action::SetNth(k).ask(w2) == Flow::Got(Answer::Done, w3)
            ==> crate::xattr::copying_nth(k, w) == Flow::Got((), w3),
{
}

proof fn lemma_tail(raw: Seq<u8>, tail: Seq<u8>)
    requires
        !tail.contains(0),
    ensures
        crate::xattr::ended(raw + tail) == crate::xattr::ended(raw),
        crate::xattr::unended(raw + tail) == crate::xattr::unended(raw) + tail,
    decreases tail.len(),
{
    if tail.len() == 0 {
        assert(raw + tail =~= raw);
        assert(crate::xattr::unended(raw) + tail =~= crate::xattr::unended(raw));
    } else {
        let t = tail.drop_last();
        assert(tail.contains(tail.last()));
        assert forall|x: u8| t.contains(x) implies tail.contains(x) by {
            let i = choose|i: int| 0 <= i < t.len() && t[i] == x;
            assert(tail[i] == x);
        }
        lemma_tail(raw, t);
        let all = raw + tail;
        assert(all.drop_last() =~= raw + t);
        assert(all.last() == tail.last());
        assert((crate::xattr::unended(raw) + t).push(tail.last()) =~= crate::xattr::unended(raw)
            + tail);
    }
}

/// A name that no zero byte ends is the last one of a list all the same, and an empty one is
/// none.
pub proof fn law_odd_names(names: Seq<Seq<u8>>, tail: Seq<u8>)
    requires
        forall|i: int| 0 <= i < names.len() ==> !(#[trigger] names[i]).contains(0),
        !tail.contains(0),
        tail.len() > 0,
    ensures
        crate::xattr::parsed(crate::xattr::encoded(names) + tail) == crate::xattr::parsed(
            crate::xattr::encoded(names),
        ).push(crate::text::lossy(tail)),
        crate::xattr::parsed(crate::xattr::encoded(names).push(0)) == crate::xattr::parsed(
            crate::xattr::encoded(names),
        ),
{
    let raw = crate::xattr::encoded(names);
    law_names_round_trip(names);
    lemma_tail(raw, tail);
    assert(Seq::<u8>::empty() + tail =~= tail);
    let none = Seq::<u8>::empty();
    assert(names.push(none).drop_last() =~= names);
    assert(names.push(tail).drop_last() =~= names);
    assert(crate::xattr::texts(names.push(none)) == crate::xattr::texts(names));
    let more = raw.push(0);
    assert(more.drop_last() =~= raw);
    assert(crate::xattr::ended(more) == names.push(none));
    assert(crate::xattr::unended(more) == none);
    assert(names.push(none).push(none).drop_last() =~= names.push(none));
}

/// Names that are added to a list come behind it, in the order in which they are given.
pub proof fn law_added_names_in_order(names: Seq<Seq<u8>>, more: Seq<Seq<u8>>, x: Seq<u8>)
    ensures
        crate::xattr::merged(names, more.push(x)) == if names.contains(x) || more.contains(x) {
            crate::xattr::merged(names, more)
        } else {
            crate::xattr::merged(names, more).push(x)
        },
        crate::xattr::merged(names, Seq::empty()) == names,
{
    assert(more.push(x).drop_last() =~= more);
    law_merged_names(names, more, x);
}

} // verus!
