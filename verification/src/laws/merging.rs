//! Merging a whole directory.

use crate::layers::{LayerManager, Place};
use crate::model::{Disk, Node};
use crate::protocol::{FileKind, Flow, Layer, Named, Spot, Which, World};
use crate::tree::{Changes, Lifting, Scene, Thing, Tree, Visit};
use crate::walk::{Next, Progress};
use vstd::prelude::*;

verus! {

/// A directory is found from another by entering so many items.
pub open spec fn reached(scene: Scene, from: Seq<u8>, dir: Seq<u8>, depth: nat) -> bool
    decreases depth,
{
    if depth == 0 {
        from == dir
    } else {
        exists|i: int|
            0 <= i < (scene.items)(from).len() && (scene.enters)(
                from,
                #[trigger] (scene.items)(from)[i],
            ) && reached(
                scene,
                crate::commit::item_paths(from, (scene.items)(from)[i]).0,
                dir,
                (depth - 1) as nat,
            )
    }
}

/// An item is entered, and from there a directory is found by entering so many more.
pub open spec fn enters_to(
    scene: Scene,
    from: Seq<u8>,
    item: Named,
    dir: Seq<u8>,
    depth: nat,
) -> bool {
    (scene.enters)(from, item) && reached(
        scene,
        crate::commit::item_paths(from, item).0,
        dir,
        depth,
    )
}

/// The directory is found from one that the walk still has to enter, or from an item of
/// the directory at hand that it still has to deal with.
pub open spec fn ahead(p: Progress, scene: Scene, dir: Seq<u8>, depth: nat) -> bool {
    ||| exists|j: int| 0 <= j < p.stack.len() && #[trigger] reached(scene, p.stack[j], dir, depth)
    ||| exists|i: int|
        p.at <= i < p.items.len() && #[trigger] enters_to(scene, p.dir, p.items[i], dir, depth)
}

/// Everything that a walk has ahead of it is dealt with.
proof fn lemma_tour_covers(
    p: Progress,
    scene: Scene,
    steps: nat,
    dir: Seq<u8>,
    depth: nat,
    k: int,
)
    requires
        0 <= p.at,
        crate::tree::tour(p, scene, steps) is Some,
        ahead(p, scene, dir, depth),
        0 <= k < (scene.items)(dir).len(),
    ensures
        crate::tree::tour(p, scene, steps)->0.contains(Visit { dir, item: (scene.items)(dir)[k] }),
    decreases steps,
{
    let want = Visit { dir, item: (scene.items)(dir)[k] };
    match p.next() {
        Next::Done => {},
        Next::Enter(d) => {
            let q = p.entered((scene.items)(d));
            let j = choose|j: int|
                0 <= j < p.stack.len() && #[trigger] reached(scene, p.stack[j], dir, depth);
            if j < p.stack.len() - 1 {
                assert(q.stack[j] == p.stack[j]);
                assert(reached(scene, q.stack[j], dir, depth));
                lemma_tour_covers(q, scene, (steps - 1) as nat, dir, depth, k);
            } else if depth == 0 {
                lemma_tour_visits(q, scene, (steps - 1) as nat, k);
            } else {
                let i = choose|i: int|
                    0 <= i < (scene.items)(d).len() && (scene.enters)(
                        d,
                        #[trigger] (scene.items)(d)[i],
                    ) && reached(
                        scene,
                        crate::commit::item_paths(d, (scene.items)(d)[i]).0,
                        dir,
                        (depth - 1) as nat,
                    );
                assert(enters_to(scene, q.dir, q.items[i], dir, (depth - 1) as nat));
                lemma_tour_covers(q, scene, (steps - 1) as nat, dir, (depth - 1) as nat, k);
            }
        },
        Next::Visit(d, item) => {
            let go = (scene.enters)(d, item);
            let q = p.visited(go);
            let rest = crate::tree::tour(q, scene, (steps - 1) as nat)->0;
            let all = seq![Visit { dir: d, item }] + rest;
            if exists|j: int|
                0 <= j < p.stack.len() && #[trigger] reached(scene, p.stack[j], dir, depth) {
                let j = choose|j: int|
                    0 <= j < p.stack.len() && #[trigger] reached(scene, p.stack[j], dir, depth);
                assert(q.stack[j] == p.stack[j]);
                assert(reached(scene, q.stack[j], dir, depth));
            } else {
                let i = choose|i: int|
                    p.at <= i < p.items.len() && #[trigger] enters_to(
                        scene,
                        p.dir,
                        p.items[i],
                        dir,
                        depth,
                    );
                if i == p.at {
                    assert(q.stack[p.stack.len() as int] == p.path());
                    assert(reached(scene, q.stack[p.stack.len() as int], dir, depth));
                } else {
                    assert(enters_to(scene, q.dir, q.items[i], dir, depth));
                }
            }
            lemma_tour_covers(q, scene, (steps - 1) as nat, dir, depth, k);
            let n = choose|n: int| 0 <= n < rest.len() && rest[n] == want;
            assert(all[n + 1] == want);
        },
    }
}

/// Every item of the directory at hand that is still to be dealt with is dealt with.
proof fn lemma_tour_visits(p: Progress, scene: Scene, steps: nat, k: int)
    requires
        0 <= p.at <= k < p.items.len(),
        crate::tree::tour(p, scene, steps) is Some,
    ensures
        crate::tree::tour(p, scene, steps)->0.contains(Visit { dir: p.dir, item: p.items[k] }),
    decreases steps,
{
    let item = p.items[p.at];
    let q = p.visited((scene.enters)(p.dir, item));
    let rest = crate::tree::tour(q, scene, (steps - 1) as nat)->0;
    let all = seq![Visit { dir: p.dir, item }] + rest;
    if k == p.at {
        assert(all[0] == Visit { dir: p.dir, item });
    } else {
        lemma_tour_visits(q, scene, (steps - 1) as nat, k);
        let want = Visit { dir: p.dir, item: p.items[k] };
        let n = choose|n: int| 0 <= n < rest.len() && rest[n] == want;
        assert(all[n + 1] == want);
    }
}

/// A walk that comes to its end has dealt with every item of every directory that is found
/// from its start.
pub proof fn law_walk_covers(
    root: Seq<u8>,
    scene: Scene,
    steps: nat,
    dir: Seq<u8>,
    depth: nat,
    k: int,
)
    requires
        crate::tree::tour(Progress::start(root), scene, steps) is Some,
        reached(scene, root, dir, depth),
        0 <= k < (scene.items)(dir).len(),
    ensures
        crate::tree::tour(Progress::start(root), scene, steps)->0.contains(
            Visit { dir, item: (scene.items)(dir)[k] },
        ),
{
    let p = Progress::start(root);
    assert(reached(scene, p.stack[0], dir, depth));
    lemma_tour_covers(p, scene, steps, dir, depth, k);
}

/// The item is among those ahead of the walk.
pub open spec fn visit_ahead(p: Progress, scene: Scene, v: Visit) -> bool {
    ||| exists|i: int| p.at <= i < p.items.len() && #[trigger] p.items[i] == v.item && v.dir == p.dir
    ||| exists|depth: nat| #[trigger] ahead(p, scene, v.dir, depth) && (scene.items)(v.dir).contains(
        v.item,
    )
}

proof fn lemma_tour_sound(p: Progress, scene: Scene, steps: nat, n: int)
    requires
        0 <= p.at,
        crate::tree::tour(p, scene, steps) is Some,
        0 <= n < crate::tree::tour(p, scene, steps)->0.len(),
    ensures
        visit_ahead(p, scene, crate::tree::tour(p, scene, steps)->0[n]),
    decreases steps,
{
    let v = crate::tree::tour(p, scene, steps)->0[n];
    match p.next() {
        Next::Done => {},
        Next::Enter(d) => {
            let q = p.entered((scene.items)(d));
            lemma_tour_sound(q, scene, (steps - 1) as nat, n);
            let last = p.stack.len() - 1;
            if exists|i: int|
                q.at <= i < q.items.len() && #[trigger] q.items[i] == v.item && v.dir == q.dir {
                assert(reached(scene, p.stack[last], v.dir, 0));
                assert(ahead(p, scene, v.dir, 0));
                let i = choose|i: int|
                    q.at <= i < q.items.len() && #[trigger] q.items[i] == v.item && v.dir == q.dir;
                assert((scene.items)(v.dir)[i] == v.item);
            } else {
                let depth = choose|depth: nat| #[trigger]
                    ahead(q, scene, v.dir, depth) && (scene.items)(v.dir).contains(v.item);
                if exists|j: int|
                    0 <= j < q.stack.len() && #[trigger] reached(
                        scene,
                        q.stack[j],
                        v.dir,
                        depth,
                    ) {
                    let j = choose|j: int|
                        0 <= j < q.stack.len() && #[trigger] reached(
                            scene,
                            q.stack[j],
                            v.dir,
                            depth,
                        );
                    assert(p.stack[j] == q.stack[j]);
                    assert(reached(scene, p.stack[j], v.dir, depth));
                    assert(ahead(p, scene, v.dir, depth));
                } else {
                    let i = choose|i: int|
                        q.at <= i < q.items.len() && #[trigger] enters_to(
                            scene,
                            q.dir,
                            q.items[i],
                            v.dir,
                            depth,
                        );
                    assert((scene.items)(d)[i] == q.items[i]);
                    assert(((depth + 1) - 1) as nat == depth);
                    assert(reached(scene, p.stack[last], v.dir, depth + 1));
                    assert(ahead(p, scene, v.dir, depth + 1));
                }
            }
        },
        Next::Visit(d, item) => {
            let go = (scene.enters)(d, item);
            let q = p.visited(go);
            if n == 0 {
                assert(p.items[p.at] == v.item && v.dir == p.dir);
            } else {
                lemma_tour_sound(q, scene, (steps - 1) as nat, n - 1);
                if exists|i: int|
                    q.at <= i < q.items.len() && #[trigger] q.items[i] == v.item && v.dir
                        == q.dir {
                    let i = choose|i: int|
                        q.at <= i < q.items.len() && #[trigger] q.items[i] == v.item && v.dir
                            == q.dir;
                    assert(p.items[i] == v.item);
                } else {
                    let depth = choose|depth: nat| #[trigger]
                        ahead(q, scene, v.dir, depth) && (scene.items)(v.dir).contains(v.item);
                    if exists|j: int|
                        0 <= j < q.stack.len() && #[trigger] reached(
                            scene,
                            q.stack[j],
                            v.dir,
                            depth,
                        ) {
                        let j = choose|j: int|
                            0 <= j < q.stack.len() && #[trigger] reached(
                                scene,
                                q.stack[j],
                                v.dir,
                                depth,
                            );
                        if j < p.stack.len() {
                            assert(p.stack[j] == q.stack[j]);
                            assert(reached(scene, p.stack[j], v.dir, depth));
                        } else {
                            assert(enters_to(scene, p.dir, p.items[p.at], v.dir, depth));
                        }
                    } else {
                        let i = choose|i: int|
                            q.at <= i < q.items.len() && #[trigger] enters_to(
                                scene,
                                q.dir,
                                q.items[i],
                                v.dir,
                                depth,
                            );
                        assert(enters_to(scene, p.dir, p.items[i], v.dir, depth));
                    }
                    assert(ahead(p, scene, v.dir, depth));
                }
            }
        },
    }
}

/// A walk deals with nothing but the items of directories that are found from its start.
pub proof fn law_walk_stays_inside(root: Seq<u8>, scene: Scene, steps: nat, n: int)
    requires
        crate::tree::tour(Progress::start(root), scene, steps) is Some,
        0 <= n < crate::tree::tour(Progress::start(root), scene, steps)->0.len(),
    ensures
        ({
            let v = crate::tree::tour(Progress::start(root), scene, steps)->0[n];
            exists|depth: nat| #[trigger]
                reached(scene, root, v.dir, depth) && (scene.items)(v.dir).contains(v.item)
        }),
{
    let p = Progress::start(root);
    let v = crate::tree::tour(p, scene, steps)->0[n];
    lemma_tour_sound(p, scene, steps, n);
    let depth = choose|depth: nat| #[trigger]
        ahead(p, scene, v.dir, depth) && (scene.items)(v.dir).contains(v.item);
    let j = choose|j: int|
        0 <= j < p.stack.len() && #[trigger] reached(scene, p.stack[j], v.dir, depth);
    assert(reached(scene, root, v.dir, depth));
}

/// Every item that is entered leads to a directory of a lower rank, as in any tree that is
/// no deeper than some number of directories.
pub open spec fn descends(scene: Scene, rank: spec_fn(Seq<u8>) -> nat) -> bool {
    forall|dir: Seq<u8>, i: int|
        0 <= i < (scene.items)(dir).len() && (scene.enters)(
            dir,
            #[trigger] (scene.items)(dir)[i],
        ) ==> rank(crate::commit::item_paths(dir, (scene.items)(dir)[i]).0) < rank(dir)
}

/// How many steps a directory takes: one to enter it, and those for its items.
pub open spec fn dir_steps(scene: Scene, rank: spec_fn(Seq<u8>) -> nat, dir: Seq<u8>) -> nat
    decreases rank(dir), (scene.items)(dir).len() + 1,
{
    1 + item_steps(scene, rank, dir, 0)
}

/// How many steps the items of a directory take from a position on: one each, and those
/// for the directories among them.
pub open spec fn item_steps(
    scene: Scene,
    rank: spec_fn(Seq<u8>) -> nat,
    dir: Seq<u8>,
    at: nat,
) -> nat
    decreases rank(dir), (scene.items)(dir).len() - at,
{
    if at >= (scene.items)(dir).len() {
        0
    } else {
        let item = (scene.items)(dir)[at as int];
        let child = crate::commit::item_paths(dir, item).0;
        let below = if (scene.enters)(dir, item) && rank(child) < rank(dir) {
            dir_steps(scene, rank, child)
        } else {
            0
        };
        1 + below + item_steps(scene, rank, dir, at + 1)
    }
}

/// How many steps the directories take that a walk still has to enter.
pub open spec fn stack_steps(
    scene: Scene,
    rank: spec_fn(Seq<u8>) -> nat,
    stack: Seq<Seq<u8>>,
) -> nat
    decreases stack.len(),
{
    if stack.len() == 0 {
        0
    } else {
        stack_steps(scene, rank, stack.drop_last()) + dir_steps(scene, rank, stack.last())
    }
}

/// How many steps a walk has ahead of it.
pub open spec fn steps_ahead(scene: Scene, rank: spec_fn(Seq<u8>) -> nat, p: Progress) -> nat {
    stack_steps(scene, rank, p.stack) + if p.at < p.items.len() {
        item_steps(scene, rank, p.dir, p.at as nat)
    } else {
        0
    }
}

proof fn lemma_tour_ends(scene: Scene, rank: spec_fn(Seq<u8>) -> nat, p: Progress)
    requires
        descends(scene, rank),
        0 <= p.at,
        p.at < p.items.len() ==> p.items == (scene.items)(p.dir),
    ensures
        crate::tree::tour(p, scene, steps_ahead(scene, rank, p) + 1) is Some,
    decreases steps_ahead(scene, rank, p),
{
    let n = steps_ahead(scene, rank, p);
    match p.next() {
        Next::Done => {},
        Next::Enter(d) => {
            let q = p.entered((scene.items)(d));
            assert(dir_steps(scene, rank, d) == 1 + item_steps(scene, rank, d, 0));
            assert(q.items.len() == 0 ==> item_steps(scene, rank, d, 0) == 0);
            assert(n == 1 + steps_ahead(scene, rank, q));
            lemma_tour_ends(scene, rank, q);
        },
        Next::Visit(d, item) => {
            let q = p.visited((scene.enters)(d, item));
            let at = p.at as nat;
            let child = p.path();
            assert((scene.items)(p.dir)[p.at] == item);
            assert(q.stack.drop_last() =~= p.stack || q.stack == p.stack);
            if (scene.enters)(d, item) {
                assert(q.stack.drop_last() =~= p.stack);
                assert(stack_steps(scene, rank, q.stack) == stack_steps(scene, rank, p.stack)
                    + dir_steps(scene, rank, child));
            }
            assert(at + 1 >= p.items.len() ==> item_steps(scene, rank, d, at + 1) == 0);
            assert(n == 1 + steps_ahead(scene, rank, q));
            lemma_tour_ends(scene, rank, q);
        },
    }
}

/// A walk through a tree of bounded depth comes to its end.
pub proof fn law_walk_ends(root: Seq<u8>, scene: Scene, rank: spec_fn(Seq<u8>) -> nat)
    requires
        descends(scene, rank),
    ensures
        exists|steps: nat| #[trigger] crate::tree::tour(Progress::start(root), scene, steps) is Some,
{
    lemma_tour_ends(scene, rank, Progress::start(root));
}

/// The items of all directories that are found from a start.
pub open spec fn all_items(scene: Scene, root: Seq<u8>) -> Set<Visit> {
    Set::new(
        |v: Visit|
            exists|depth: nat| #[trigger]
                reached(scene, root, v.dir, depth) && (scene.items)(v.dir).contains(v.item),
    )
}

/// What an entry is, apart from its metadata and what a directory holds.
pub open spec fn thing(n: Node) -> Thing {
    match n.meta.kind {
        FileKind::Directory => Thing::Dir,
        FileKind::RegularFile => Thing::File(n.data),
        FileKind::Symlink => Thing::Link(n.target),
        _ => Thing::Other,
    }
}

/// No directory comes after an item that lies below it.
pub open spec fn parents_first(visits: Seq<Visit>) -> bool {
    forall|i: int, j: int|
        0 <= i < j < visits.len() && (#[trigger] visits[j]).is_dir() ==> !crate::tree::lies_below(
            crate::path::components((#[trigger] visits[i]).path()),
            crate::path::components(visits[j].path()),
        )
}

/// No item comes twice.
pub open spec fn each_once(visits: Seq<Visit>) -> bool {
    forall|i: int, j: int|
        0 <= i < j < visits.len() ==> crate::path::components((#[trigger] visits[i]).path())
            != crate::path::components((#[trigger] visits[j]).path())
}

/// Neither path leads through the other.
spec fn apart(a: Seq<Seq<u8>>, b: Seq<Seq<u8>>) -> bool {
    !a.is_prefix_of(b) && !b.is_prefix_of(a)
}

proof fn lemma_prefix(a: Seq<Seq<u8>>, b: Seq<Seq<u8>>)
    ensures
        a.is_prefix_of(b) <==> a.len() <= b.len() && forall|i: int|
            0 <= i < a.len() ==> #[trigger] a[i] == b[i],
{
    if a.is_prefix_of(b) {
        assert forall|i: int| 0 <= i < a.len() implies #[trigger] a[i] == b[i] by {
            assert(b.subrange(0, a.len() as int)[i] == b[i]);
        }
    }
    if a.len() <= b.len() && forall|i: int| 0 <= i < a.len() ==> #[trigger] a[i] == b[i] {
        assert(a =~= b.subrange(0, a.len() as int));
    }
}

proof fn lemma_prefix_trans(a: Seq<Seq<u8>>, b: Seq<Seq<u8>>, c: Seq<Seq<u8>>)
    requires
        a.is_prefix_of(b),
        b.is_prefix_of(c),
    ensures
        a.is_prefix_of(c),
{
    lemma_prefix(a, b);
    lemma_prefix(b, c);
    lemma_prefix(a, c);
}

/// The components of the path of an item of the directory at hand.
spec fn item_key(p: Progress, i: int) -> Seq<Seq<u8>> {
    crate::path::components(crate::commit::item_paths(p.dir, p.items[i]).0)
}

/// The components of the path of a directory that is still to be entered.
spec fn stack_key(p: Progress, j: int) -> Seq<Seq<u8>> {
    crate::path::components(p.stack[j])
}

/// What a walk has ahead of it lies apart: the directories to be entered from each other,
/// and the items of the directory at hand from these and from each other.
spec fn spread(p: Progress) -> bool {
    &&& 0 <= p.at
    &&& forall|i: int|
        p.at <= i < p.items.len() ==> crate::tree::names_entry(#[trigger] p.items[i])
    &&& forall|i: int, j: int|
        p.at <= i < j < p.items.len() ==> (#[trigger] p.items[i])->Entry_0 != (
        #[trigger] p.items[j])->Entry_0
    &&& forall|i: int, j: int|
        0 <= i < j < p.stack.len() ==> apart(#[trigger] stack_key(p, i), #[trigger] stack_key(p, j))
    &&& forall|i: int, j: int|
        p.at <= i < p.items.len() && 0 <= j < p.stack.len() ==> apart(
            #[trigger] item_key(p, i),
            #[trigger] stack_key(p, j),
        )
}

/// A path is one of those that a walk has ahead of it.
spec fn within(p: Progress, key: Seq<Seq<u8>>) -> bool {
    ||| exists|i: int| p.at <= i < p.items.len() && (#[trigger] item_key(p, i)).is_prefix_of(key)
    ||| exists|j: int|
        0 <= j < p.stack.len() && crate::tree::lies_below(key, #[trigger] stack_key(p, j))
}

proof fn lemma_item_key(p: Progress, i: int)
    requires
        0 <= i < p.items.len(),
        crate::tree::names_entry(p.items[i]),
    ensures
        item_key(p, i) == crate::path::components(p.dir).push(p.items[i]->Entry_0),
{
    crate::path::lemma_join_segment(p.dir, p.items[i]->Entry_0);
}

proof fn lemma_siblings_apart(d: Seq<Seq<u8>>, a: Seq<u8>, b: Seq<u8>)
    requires
        a != b,
    ensures
        apart(d.push(a), d.push(b)),
{
    lemma_prefix(d.push(a), d.push(b));
    lemma_prefix(d.push(b), d.push(a));
    assert(d.push(a)[d.len() as int] == a);
    assert(d.push(b)[d.len() as int] == b);
}

proof fn lemma_child_apart(d: Seq<Seq<u8>>, a: Seq<u8>, s: Seq<Seq<u8>>)
    requires
        apart(d, s),
    ensures
        apart(d.push(a), s),
{
    lemma_prefix(d, s);
    lemma_prefix(s, d);
    lemma_prefix(d.push(a), s);
    lemma_prefix(s, d.push(a));
    let e = d.push(a);
    assert(forall|i: int| 0 <= i < d.len() ==> #[trigger] e[i] == d[i]);
    if e.is_prefix_of(s) {
        assert forall|i: int| 0 <= i < d.len() implies #[trigger] d[i] == s[i] by {
            assert(e[i] == s[i]);
        }
    }
    if s.is_prefix_of(e) {
        if s.len() == e.len() {
            assert forall|i: int| 0 <= i < d.len() implies #[trigger] d[i] == s[i] by {
                assert(s[i] == e[i]);
            }
        } else {
            assert forall|i: int| 0 <= i < s.len() implies #[trigger] s[i] == d[i] by {
                assert(s[i] == e[i]);
            }
        }
    }
}

proof fn lemma_entered_spread(p: Progress, scene: Scene)
    requires
        crate::tree::well_named(scene.items),
        spread(p),
        p.next() is Enter,
    ensures
        spread(p.entered((scene.items)(p.stack.last()))),
        forall|key: Seq<Seq<u8>>| #[trigger]
            within(p.entered((scene.items)(p.stack.last())), key) ==> within(p, key),
{
    let last = p.stack.len() - 1;
    let d = p.stack.last();
    let q = p.entered((scene.items)(d));
    assert forall|i: int| q.at <= i < q.items.len() implies crate::tree::names_entry(
        #[trigger] q.items[i],
    ) by {
        assert((scene.items)(d)[i] == q.items[i]);
    }
    assert forall|i: int, j: int| 0 <= i < j < q.stack.len() implies apart(
        #[trigger] stack_key(q, i),
        #[trigger] stack_key(q, j),
    ) by {
        assert(stack_key(p, i) == stack_key(q, i) && stack_key(p, j) == stack_key(q, j));
    }
    assert forall|i: int, j: int|
        q.at <= i < q.items.len() && 0 <= j < q.stack.len() implies apart(
        #[trigger] item_key(q, i),
        #[trigger] stack_key(q, j),
    ) by {
        lemma_item_key(q, i);
        assert(apart(stack_key(p, j), stack_key(p, last)));
        assert(stack_key(p, j) == stack_key(q, j));
        lemma_child_apart(
            crate::path::components(d),
            q.items[i]->Entry_0,
            stack_key(q, j),
        );
    }
    assert forall|key: Seq<Seq<u8>>| #[trigger] within(q, key) implies within(p, key) by {
        if exists|i: int|
            q.at <= i < q.items.len() && (#[trigger] item_key(q, i)).is_prefix_of(key) {
            let i = choose|i: int|
                q.at <= i < q.items.len() && (#[trigger] item_key(q, i)).is_prefix_of(key);
            lemma_item_key(q, i);
            let k = crate::path::components(d);
            let e = k.push(q.items[i]->Entry_0);
            lemma_prefix(e, key);
            lemma_prefix(k, key);
            assert forall|n: int| 0 <= n < k.len() implies #[trigger] k[n] == key[n] by {
                assert(e[n] == k[n]);
                assert(e[n] == key[n]);
            }
            assert(crate::tree::lies_below(key, stack_key(p, last)));
        } else {
            let j = choose|j: int|
                0 <= j < q.stack.len() && crate::tree::lies_below(
                    key,
                    #[trigger] stack_key(q, j),
                );
            assert(stack_key(p, j) == stack_key(q, j));
        }
    }
}

proof fn lemma_visited_spread(p: Progress, go: bool)
    requires
        spread(p),
        p.next() is Visit,
    ensures
        spread(p.visited(go)),
        forall|key: Seq<Seq<u8>>| #[trigger]
            within(p.visited(go), key) ==> within(p, key) && !key.is_prefix_of(item_key(p, p.at)),
        within(p, item_key(p, p.at)),
{
    let q = p.visited(go);
    let here = item_key(p, p.at);
    lemma_item_key(p, p.at);
    lemma_prefix(here, here);
    assert(here.is_prefix_of(here));
    assert forall|i: int| q.at <= i < q.items.len() implies #[trigger] item_key(q, i) == item_key(
        p,
        i,
    ) && apart(item_key(p, i), here) by {
        assert(crate::tree::names_entry(p.items[i]));
        lemma_item_key(p, i);
        assert(p.items[p.at]->Entry_0 != p.items[i]->Entry_0);
        lemma_siblings_apart(
            crate::path::components(p.dir),
            p.items[i]->Entry_0,
            p.items[p.at]->Entry_0,
        );
    }
    assert forall|j: int| 0 <= j < p.stack.len() implies #[trigger] stack_key(q, j) == stack_key(
        p,
        j,
    ) && apart(here, stack_key(p, j)) by {}
    if go {
        assert(stack_key(q, p.stack.len() as int) == here);
    }
    assert forall|key: Seq<Seq<u8>>| #[trigger] within(q, key) implies within(p, key)
        && !key.is_prefix_of(here) by {
        if exists|i: int|
            q.at <= i < q.items.len() && (#[trigger] item_key(q, i)).is_prefix_of(key) {
            let i = choose|i: int|
                q.at <= i < q.items.len() && (#[trigger] item_key(q, i)).is_prefix_of(key);
            assert(item_key(p, i).is_prefix_of(key));
            if key.is_prefix_of(here) {
                lemma_prefix_trans(item_key(p, i), key, here);
            }
        } else {
            let j = choose|j: int|
                0 <= j < q.stack.len() && crate::tree::lies_below(
                    key,
                    #[trigger] stack_key(q, j),
                );
            let s = stack_key(q, j);
            if j < p.stack.len() {
                assert(stack_key(p, j) == s);
                if key.is_prefix_of(here) {
                    lemma_prefix_trans(s, key, here);
                }
            } else {
                assert(s == here);
            }
        }
    }
}

proof fn lemma_tour_ordered(p: Progress, scene: Scene, steps: nat)
    requires
        crate::tree::well_named(scene.items),
        spread(p),
        crate::tree::tour(p, scene, steps) is Some,
    ensures
        parents_first(crate::tree::tour(p, scene, steps)->0),
        each_once(crate::tree::tour(p, scene, steps)->0),
        forall|n: int|
            0 <= n < crate::tree::tour(p, scene, steps)->0.len() ==> within(
                p,
                crate::path::components(
                    (#[trigger] crate::tree::tour(p, scene, steps)->0[n]).path(),
                ),
            ),
    decreases steps,
{
    match p.next() {
        Next::Done => {},
        Next::Enter(d) => {
            lemma_entered_spread(p, scene);
            lemma_tour_ordered(p.entered((scene.items)(d)), scene, (steps - 1) as nat);
        },
        Next::Visit(d, item) => {
            let go = (scene.enters)(d, item);
            let q = p.visited(go);
            lemma_visited_spread(p, go);
            lemma_tour_ordered(q, scene, (steps - 1) as nat);
            let rest = crate::tree::tour(q, scene, (steps - 1) as nat)->0;
            let all = crate::tree::tour(p, scene, steps)->0;
            let here = item_key(p, p.at);
            lemma_prefix(here, here);
            assert(all == seq![Visit { dir: d, item }] + rest);
            assert(crate::path::components(all[0].path()) == here);
            assert forall|n: int| 0 < n < all.len() implies all[n] == rest[n - 1] && within(
                q,
                crate::path::components((#[trigger] all[n]).path()),
            ) by {
                assert(all[n] == rest[n - 1]);
            }
            assert forall|i: int, j: int| 0 <= i < j < all.len() implies {
                &&& (#[trigger] all[j]).is_dir() ==> !crate::tree::lies_below(
                    crate::path::components((#[trigger] all[i]).path()),
                    crate::path::components(all[j].path()),
                )
                &&& crate::path::components(all[i].path()) != crate::path::components(
                    all[j].path(),
                )
            } by {
                assert(all[j] == rest[j - 1]);
                if i > 0 {
                    assert(all[i] == rest[i - 1]);
                } else {
                    let k = crate::path::components(all[j].path());
                    assert(within(q, k));
                    assert(!k.is_prefix_of(here));
                }
            }
        },
    }
}

/// A merge deals with a directory before anything that lies below it, and with nothing
/// twice.
pub proof fn law_parents_first(c: Changes)
    requires
        c.sane(),
        c.walk() is Some,
    ensures
        parents_first(c.walk()->0),
        each_once(c.walk()->0),
{
    lemma_tour_ordered(Progress::start(Seq::empty()), c.scene(), c.steps);
}

/// What merging a run of items leaves in the lower layer is what the overlay showed, path by
/// path, if no directory comes after what lies below it and no path is both merged and
/// hidden.
pub proof fn law_merged_items(c: Changes, base: Tree, visits: Seq<Visit>, key: Seq<Seq<u8>>)
    requires
        parents_first(visits),
        forall|v: Visit| #[trigger]
            visits.to_set().contains(v) && c.merges(v) ==> !c.hidden_at(visits.to_set(), v.key()),
    ensures
        c.effects(base, visits).shows(key) == c.shown_over(base, visits.to_set(), key),
    decreases visits.len(),
{
    let all = visits.to_set();
    if visits.len() > 0 {
        let front = visits.drop_last();
        let last = visits.last();
        let some = front.to_set();
        assert(all =~= some.insert(last)) by {
            assert forall|v: Visit| all.contains(v) == some.insert(last).contains(v) by {
                if visits.contains(v) && v != last {
                    let i = choose|i: int| 0 <= i < visits.len() && visits[i] == v;
                    assert(front[i] == v);
                }
                if front.contains(v) {
                    let i = choose|i: int| 0 <= i < front.len() && front[i] == v;
                    assert(visits[i] == v);
                }
                assert(visits[visits.len() - 1] == last);
            }
        }
        assert forall|v: Visit| #[trigger] some.contains(v) && c.merges(v) implies !c.hidden_at(
            some,
            v.key(),
        ) by {
            assert(all.contains(v));
            if c.hidden_at(some, v.key()) {
                let m = choose|m: Visit| #[trigger]
                    some.contains(m) && m.is_marker() && m.key().is_prefix_of(v.key());
                assert(all.contains(m));
            }
        }
        assert(parents_first(front)) by {
            assert(forall|i: int| 0 <= i < front.len() ==> #[trigger] front[i] == visits[i]);
        }
        law_merged_items(c, base, front, key);
        assert(all.contains(last));
        lemma_one_more(c, some, last, key);
        lemma_last_effect(c, base, visits, key);
    }
}

/// One item more among those dealt with.
proof fn lemma_one_more(c: Changes, some: Set<Visit>, last: Visit, key: Seq<Seq<u8>>)
    ensures
        c.entry_at(some.insert(last), key) == (c.entry_at(some, key) || c.merges(last)
            && last.key() == key),
        c.hidden_at(some.insert(last), key) == (c.hidden_at(some, key) || last.is_marker()
            && last.key().is_prefix_of(key)),
        c.covered_at(some.insert(last), key) == (c.covered_at(some, key) || c.merges(last)
            && last.is_dir() && (c.marked)(last.key()) && crate::tree::lies_below(
            key,
            last.key(),
        )),
{
    let all = some.insert(last);
    assert(all.contains(last));
    if c.entry_at(some, key) {
        let v = choose|v: Visit| #[trigger] some.contains(v) && c.merges(v) && v.key() == key;
        assert(all.contains(v));
    }
    if c.hidden_at(some, key) {
        let v = choose|v: Visit| #[trigger]
            some.contains(v) && v.is_marker() && v.key().is_prefix_of(key);
        assert(all.contains(v));
    }
    if c.covered_at(some, key) {
        let v = choose|v: Visit| #[trigger]
            some.contains(v) && c.merges(v) && v.is_dir() && (c.marked)(v.key())
                && crate::tree::lies_below(key, v.key());
        assert(all.contains(v));
    }
}

/// The last item of a run.
proof fn lemma_last_effect(c: Changes, base: Tree, visits: Seq<Visit>, key: Seq<Seq<u8>>)
    requires
        visits.len() > 0,
        parents_first(visits),
        visits.to_set() == visits.drop_last().to_set().insert(visits.last()),
        forall|v: Visit| #[trigger]
            visits.to_set().contains(v) && c.merges(v) ==> !c.hidden_at(visits.to_set(), v.key()),
        c.effects(base, visits.drop_last()).shows(key) == c.shown_over(
            base,
            visits.drop_last().to_set(),
            key,
        ),
    ensures
        c.effects(base, visits).shows(key) == c.shown_over(base, visits.to_set(), key),
{
    let front = visits.drop_last();
    let last = visits.last();
    let some = front.to_set();
    let all = visits.to_set();
    lemma_one_more(c, some, last, key);
    let before = c.effects(base, front);
    let covers = c.merges(last) && last.is_dir() && (c.marked)(last.key())
        && crate::tree::lies_below(key, last.key());
    if c.entry_at(some, key) {
        let v = choose|v: Visit| #[trigger] some.contains(v) && c.merges(v) && v.key() == key;
        assert(all.contains(v));
        assert(!c.hidden_at(all, key));
        if covers {
            let i = choose|i: int| 0 <= i < front.len() && front[i] == v;
            assert(visits[i] == v);
            assert(visits[visits.len() - 1] == last);
            assert(crate::tree::lies_below(
                crate::path::components(visits[i].path()),
                crate::path::components(visits[visits.len() - 1].path()),
            ));
        }
    }
}

/// What a merge leaves in the lower layer is what the overlay showed, path by path, of what
/// the rules let through: everything that the upper layer has, and what the lower layer had
/// that is not replaced, hidden or covered. Left out are a file or a link in the place of a
/// directory, on which a merge fails, anything but a directory, a file or a link, and a path
/// that is both there and hidden.
pub proof fn law_merge_yields_overlay(c: Changes, tree: Tree, key: Seq<Seq<u8>>)
    requires
        c.sane(),
        c.fit(tree),
    ensures
        c.merged(tree).shows(key) == c.shown(tree, all_items(c.scene(), Seq::empty()), key),
{
    let root = Seq::<u8>::empty();
    let scene = c.scene();
    let visits = c.walk()->0;
    lemma_tour_set(root, scene, c.steps);
    law_parents_first(c);
    assert forall|v: Visit| #[trigger]
        visits.to_set().contains(v) && c.merges(v) implies !c.hidden_at(
        visits.to_set(),
        v.key(),
    ) by {
        assert(c.fits(tree, visits.to_set(), v));
    }
    law_merged_items(c, c.ground(tree), visits, key);
}

/// A tour deals with the items of all directories that are found, and with nothing else.
proof fn lemma_tour_set(root: Seq<u8>, scene: Scene, steps: nat)
    requires
        crate::tree::tour(Progress::start(root), scene, steps) is Some,
    ensures
        crate::tree::tour(Progress::start(root), scene, steps)->0.to_set() == all_items(
            scene,
            root,
        ),
{
    let visits = crate::tree::tour(Progress::start(root), scene, steps)->0;
    assert forall|v: Visit| visits.to_set().contains(v) == all_items(scene, root).contains(v) by {
        if visits.contains(v) {
            let n = choose|n: int| 0 <= n < visits.len() && visits[n] == v;
            law_walk_stays_inside(root, scene, steps, n);
        }
        if all_items(scene, root).contains(v) {
            let depth = choose|depth: nat| #[trigger]
                reached(scene, root, v.dir, depth) && (scene.items)(v.dir).contains(v.item);
            let items = (scene.items)(v.dir);
            let k = choose|k: int| 0 <= k < items.len() && items[k] == v.item;
            law_walk_covers(root, scene, steps, v.dir, depth, k);
        }
    }
    assert(visits.to_set() =~= all_items(scene, root));
}

/// What the rules keep out of a merge leaves the lower layer as it was there, unless it is
/// hidden or covered.
pub proof fn law_kept_out_of_merge(c: Changes, tree: Tree, seen: Set<Visit>, key: Seq<Seq<u8>>)
    requires
        forall|v: Visit| #[trigger] seen.contains(v) && v.is_entry() && v.key() == key ==> c.out(v),
    ensures
        c.shown(tree, seen, key) == c.ground(tree).shows(key) || c.shown(tree, seen, key) is None,
{
}

proof fn lemma_lifted(l: Lifting, visits: Seq<Visit>, key: Seq<Seq<u8>>)
    ensures
        l.effects(visits).shows(key) == l.shown(visits.to_set(), key),
    decreases visits.len(),
{
    if visits.len() > 0 {
        let front = visits.drop_last();
        let last = visits.last();
        let some = front.to_set();
        let all = visits.to_set();
        lemma_lifted(l, front, key);
        assert(visits[visits.len() - 1] == last);
        assert(all.contains(last));
        if l.rises_at(some, key) {
            let v = choose|v: Visit| #[trigger]
                some.contains(v) && l.rises(v) && Lifting::key(v) == key;
            let i = choose|i: int| 0 <= i < front.len() && front[i] == v;
            assert(visits[i] == v);
            assert(all.contains(v));
        }
        if l.rises_at(all, key) && !l.rises_at(some, key) {
            let v = choose|v: Visit| #[trigger]
                all.contains(v) && l.rises(v) && Lifting::key(v) == key;
            let i = choose|i: int| 0 <= i < visits.len() && visits[i] == v;
            if i < front.len() {
                assert(front[i] == v);
                assert(some.contains(v));
            }
        }
    }
}

/// Bringing up a directory with all that is seen in it leaves in the upper layer, path by
/// path, what was seen there of both: what the upper layer had, and what the lower layer has
/// that it does not have and that nothing hides.
pub proof fn law_lifted_tree(l: Lifting, key: Seq<Seq<u8>>)
    requires
        l.walk() is Some,
    ensures
        l.effects(l.walk()->0).shows(key) == l.shown(all_items(l.scene(), l.root), key),
{
    lemma_tour_set(l.root, l.scene(), l.steps);
    lemma_lifted(l, l.walk()->0, key);
}

/// When an item is dealt with, the upper layer still has under its path what it had before;
/// so the item is judged by what was seen there.
pub proof fn law_lifted_once(l: Lifting, n: int)
    requires
        crate::tree::well_named(l.items),
        l.walk() is Some,
        0 <= n < l.walk()->0.len(),
    ensures
        l.effects(l.walk()->0.take(n)).shows(Lifting::key(l.walk()->0[n])) == l.upper.shows(
            Lifting::key(l.walk()->0[n]),
        ),
{
    let visits = l.walk()->0;
    let front = visits.take(n);
    let key = Lifting::key(visits[n]);
    lemma_tour_ordered(Progress::start(l.root), l.scene(), l.steps);
    lemma_lifted(l, front, key);
    if l.rises_at(front.to_set(), key) {
        let v = choose|v: Visit| #[trigger]
            front.to_set().contains(v) && l.rises(v) && Lifting::key(v) == key;
        let i = choose|i: int| 0 <= i < front.len() && front[i] == v;
        assert(visits[i] == v);
    }
}

/// What a place shows, if anything is there.
pub open spec fn place_shows(d: Disk, s: Spot) -> Option<Thing> {
    match d.at(s) {
        Some(n) => Some(thing(n)),
        None => None,
    }
}

/// The places of a path hold what the upper layer and the tree have under it: an entry, its
/// marker, marks above it. Nothing above the path is hidden, as where its directory is found.
pub open spec fn stands_at(
    d: Disk,
    place: Place,
    c: Changes,
    tree: Tree,
    seen: Set<Visit>,
    key: Seq<Seq<u8>>,
) -> bool {
    let marker = place.named && d.at(Spot::whiteout(Which::First)) is Some;
    &&& c.entry_at(seen, key) == (d.at(Spot::upper(Which::First)) is Some)
    &&& c.hidden_at(seen, key) == marker
    &&& c.entry_at(seen, key) ==> !c.hidden_at(seen, key)
    &&& (c.covered_at(seen, key) || (c.marked)(Seq::empty()))
        == crate::laws::layering::covered(d, place, Which::First)
    &&& (tree.shows(key) is Some) == (d.at(Spot::lower(Which::First)) is Some)
}

/// What the overlay is said to show under a path is what is found there: something in the
/// upper layer if that has it, in the lower one if only that is shown, and nothing otherwise.
pub proof fn law_shown_is_found(
    d: Disk,
    place: Place,
    c: Changes,
    tree: Tree,
    seen: Set<Visit>,
    key: Seq<Seq<u8>>,
)
    requires
        stands_at(d, place, c, tree, seen, key),
    ensures
        LayerManager::resolving(place, Which::First, World::Disk(d)) matches Flow::Got(at, _) && at
            == if c.shown(tree, seen, key) is None {
            None
        } else if c.entry_at(seen, key) {
            Some(Layer::Upper)
        } else {
            Some(Layer::Lower)
        },
{
    crate::laws::layering::law_resolve(d, place, Which::First);
}

/// The places that merging an item is about hold what the upper layer and the tree have
/// under its path, and files that are taken to be equal are.
pub open spec fn stands_for(d: Disk, c: Changes, tree: Tree, v: Visit) -> bool {
    if v.is_marker() {
        place_shows(d, Spot::lower(Which::Second)) == tree.shows(v.key())
    } else {
        let src = Spot::upper(Which::First);
        let dst = Spot::lower(Which::First);
        &&& v.item matches Named::Entry(_, Ok(kind)) && d.at(src) is Some && d.at(
            src,
        )->0.meta.kind == kind
        &&& (c.metas)(v.path()) == Some(d.at(src)->0.meta)
        &&& (c.marked)(v.key()) == crate::laws::layering::opaque_at(d, src)
        &&& place_shows(d, src) == Some((c.things)(v.key()))
        &&& place_shows(d, dst) == tree.shows(v.key())
        &&& crate::laws::committing::taken_as_equal(d) ==> d.at(src)->0.data == d.at(dst)->0.data
    }
}

/// Merging one item does to its place in the lower layer what it does to the tree, leaves
/// the upper layer as it was, and has directories entered that are merged, where nothing
/// fails. A directory that replaces its counterpart holds nothing then.
pub proof fn law_commit_step(d: Disk, c: Changes, tree: Tree, v: Visit)
    requires
        v.is_marker() || v.is_entry() && !((c.things)(v.key()) is Other),
        c.merges(v) ==> (tree.shows(v.key()) matches Some(old) ==> crate::tree::takes(
            (c.things)(v.key()),
            old,
        )),
        stands_for(d, c, tree, v),
        crate::model::never_faults(d),
    ensures
        ({
            let place = Spot::lower(
                if v.is_marker() {
                    Which::Second
                } else {
                    Which::First
                },
            );
            crate::commit::committing(c.rules, v.dir, v.item, World::Disk(d)) matches Flow::Got(
                enter,
                World::Disk(e),
            ) && enter == (c.scene().enters)(v.dir, v.item) && place_shows(e, place) == c.effect(
                tree,
                v,
            ).shows(v.key()) && (c.merges(v) && v.is_dir() && (c.marked)(v.key()) ==> e.at(
                place,
            )->0.items.len() == 0) && forall|s: Spot|
                s.layer is Upper ==> #[trigger] e.at(s) == d.at(s)
        }),
{
    if v.is_marker() {
        crate::laws::committing::law_commit_marker(d);
    } else {
        let kind = v.item->Entry_1->Ok_0;
        let d1 = if c.rules is Some && c.rules->0.needs_meta(v.path()) {
            crate::model::step_lstat(d, Spot::upper(Which::First));
            d.after(crate::protocol::Action::Lstat(Spot::upper(Which::First)))
        } else {
            d
        };
        assert(forall|s: Spot| #[trigger] d1.at(s) == d.at(s));
        if !c.out(v) {
            match kind {
                FileKind::Directory => {
                    crate::laws::committing::law_commit_directory(d1);
                },
                FileKind::Symlink => {
                    crate::laws::committing::law_commit_link(d1);
                },
                _ => {
                    crate::laws::committing::law_commit_file(d1);
                },
            }
        }
    }
}

} // verus!
