//! Trees of directories, and what merging one into another leaves.

use crate::filter::Rules;
use crate::protocol::{FileKind, Meta, Named};
use crate::walk::{Next, Progress};
use vstd::prelude::*;

verus! {

/// A tree of directories as a walk finds it: what each directory holds, and which of its
/// items are entered.
pub struct Scene {
    pub items: spec_fn(Seq<u8>) -> Seq<Named>,
    pub enters: spec_fn(Seq<u8>, Named) -> bool,
}

/// An item dealt with, and its directory.
pub struct Visit {
    pub dir: Seq<u8>,
    pub item: Named,
}

/// The items that a walk deals with, in order, if it comes to its end within so many steps.
pub open spec fn tour(p: Progress, scene: Scene, steps: nat) -> Option<Seq<Visit>>
    decreases steps,
{
    if steps == 0 {
        None
    } else {
        match p.next() {
            Next::Done => Some(Seq::empty()),
            Next::Enter(dir) => tour(p.entered((scene.items)(dir)), scene, (steps - 1) as nat),
            Next::Visit(dir, item) => match tour(
                p.visited((scene.enters)(dir, item)),
                scene,
                (steps - 1) as nat,
            ) {
                Some(rest) => Some(seq![Visit { dir, item }] + rest),
                None => None,
            },
        }
    }
}

/// What a path of a tree leads to.
pub enum Thing {
    Dir,
    /// A file with its content.
    File(Seq<u8>),
    /// A symbolic link with its target.
    Link(Seq<u8>),
    Other,
}

/// A tree: what each path leads to, by the components of the path.
pub struct Tree {
    pub things: Map<Seq<Seq<u8>>, Thing>,
}

/// A path lies below another.
pub open spec fn lies_below(key: Seq<Seq<u8>>, dir: Seq<Seq<u8>>) -> bool {
    dir.len() < key.len() && dir.is_prefix_of(key)
}

impl Tree {
    /// The tree of a directory that holds nothing.
    pub open spec fn empty() -> Tree {
        Tree { things: Map::empty() }
    }

    /// What a path leads to, if anything.
    pub open spec fn shows(self, key: Seq<Seq<u8>>) -> Option<Thing> {
        if self.things.contains_key(key) {
            Some(self.things[key])
        } else {
            None
        }
    }

    /// The tree without an entry and all that lies below it.
    pub open spec fn without(self, key: Seq<Seq<u8>>) -> Tree {
        Tree {
            things: Map::new(
                |k: Seq<Seq<u8>>| self.things.contains_key(k) && !key.is_prefix_of(k),
                |k: Seq<Seq<u8>>| self.things[k],
            ),
        }
    }

    /// The tree without all that lies below a directory.
    pub open spec fn emptied(self, key: Seq<Seq<u8>>) -> Tree {
        Tree {
            things: Map::new(
                |k: Seq<Seq<u8>>| self.things.contains_key(k) && !lies_below(k, key),
                |k: Seq<Seq<u8>>| self.things[k],
            ),
        }
    }

    /// The tree with an entry.
    pub open spec fn with(self, key: Seq<Seq<u8>>, thing: Thing) -> Tree {
        Tree { things: self.things.insert(key, thing) }
    }
}

impl Visit {
    /// The item is a marker.
    pub open spec fn is_marker(self) -> bool {
        self.item matches Named::Entry(name, Ok(_)) && crate::listing::is_marker(
            crate::text::lossy(name),
        )
    }

    /// The item is an entry to be merged.
    pub open spec fn is_entry(self) -> bool {
        self.item matches Named::Entry(_, Ok(_)) && !self.is_marker()
    }

    /// The item is a directory to be merged.
    pub open spec fn is_dir(self) -> bool {
        self.is_entry() && self.item matches Named::Entry(_, Ok(FileKind::Directory))
    }

    /// The path of the item.
    pub open spec fn path(self) -> Seq<u8> {
        crate::commit::item_paths(self.dir, self.item).0
    }

    /// The components of the entry that the item is, or that it hides.
    pub open spec fn key(self) -> Seq<Seq<u8>> {
        crate::path::components(
            if self.is_marker() {
                crate::commit::item_paths(self.dir, self.item).1
            } else {
                self.path()
            },
        )
    }
}

/// An upper layer as a merge finds it, and the rules of the merge.
pub struct Changes {
    /// The items of each directory.
    pub items: spec_fn(Seq<u8>) -> Seq<Named>,
    /// How many steps a walk through them takes.
    pub steps: nat,
    /// What each path leads to.
    pub things: spec_fn(Seq<Seq<u8>>) -> Thing,
    /// Which directories replace their counterparts.
    pub marked: spec_fn(Seq<Seq<u8>>) -> bool,
    /// The metadata of each entry, where it can be read.
    pub metas: spec_fn(Seq<u8>) -> Option<Meta>,
    pub rules: Option<Rules>,
}

impl Changes {
    /// The metadata that the rules look at.
    pub open spec fn meta_for(self, rules: Rules, rel: Seq<u8>) -> Option<Meta> {
        if rules.needs_meta(rel) {
            (self.metas)(rel)
        } else {
            None
        }
    }

    /// The rules keep an item out.
    pub open spec fn out(self, v: Visit) -> bool {
        self.rules matches Some(rules) && rules.excludes(
            v.path(),
            v.is_dir(),
            self.meta_for(rules, v.path()),
        )
    }

    /// An entry is merged.
    pub open spec fn merges(self, v: Visit) -> bool {
        v.is_entry() && !self.out(v)
    }

    /// The layer as a walk finds it: directories that are merged are entered.
    pub open spec fn scene(self) -> Scene {
        Scene {
            items: self.items,
            enters: |dir: Seq<u8>, item: Named|
                {
                    let v = Visit { dir, item };
                    self.merges(v) && v.is_dir()
                },
        }
    }

    /// The items that a merge deals with, in order.
    pub open spec fn walk(self) -> Option<Seq<Visit>> {
        tour(Progress::start(Seq::empty()), self.scene(), self.steps)
    }

    /// What merging an item does to a tree: a marker takes out what it hides, an entry is
    /// put in, and a directory that replaces its counterpart takes out what that held.
    pub open spec fn effect(self, tree: Tree, v: Visit) -> Tree {
        if v.is_marker() {
            tree.without(v.key())
        } else if !self.merges(v) {
            tree
        } else if v.is_dir() && (self.marked)(v.key()) {
            tree.emptied(v.key()).with(v.key(), (self.things)(v.key()))
        } else {
            tree.with(v.key(), (self.things)(v.key()))
        }
    }

    /// What merging a run of items does to a tree.
    pub open spec fn effects(self, tree: Tree, visits: Seq<Visit>) -> Tree
        decreases visits.len(),
    {
        if visits.len() == 0 {
            tree
        } else {
            self.effect(self.effects(tree, visits.drop_last()), visits.last())
        }
    }

    /// The tree that a merge starts with: an empty one if the whole upper layer replaces
    /// the lower one.
    pub open spec fn ground(self, tree: Tree) -> Tree {
        if (self.marked)(Seq::empty()) {
            Tree::empty()
        } else {
            tree
        }
    }

    /// What a merge leaves of a tree.
    pub open spec fn merged(self, tree: Tree) -> Tree {
        match self.walk() {
            Some(visits) => self.effects(self.ground(tree), visits),
            None => tree,
        }
    }

    /// One of the items is merged under this path.
    pub open spec fn entry_at(self, seen: Set<Visit>, key: Seq<Seq<u8>>) -> bool {
        exists|v: Visit| #[trigger] seen.contains(v) && self.merges(v) && v.key() == key
    }

    /// One of the items hides the path or one that it lies below.
    pub open spec fn hidden_at(self, seen: Set<Visit>, key: Seq<Seq<u8>>) -> bool {
        exists|v: Visit| #[trigger]
            seen.contains(v) && v.is_marker() && v.key().is_prefix_of(key)
    }

    /// The path lies below a directory that replaces its counterpart.
    pub open spec fn covered_at(self, seen: Set<Visit>, key: Seq<Seq<u8>>) -> bool {
        exists|v: Visit| #[trigger]
            seen.contains(v) && self.merges(v) && v.is_dir() && (self.marked)(v.key())
                && lies_below(key, v.key())
    }

    /// What the overlay shows under a path, of what the rules let through: what the upper
    /// layer has there; else what the lower layer has there, unless it is hidden or lies
    /// below something that is hidden or below a directory that replaces its counterpart.
    pub open spec fn shown(self, tree: Tree, seen: Set<Visit>, key: Seq<Seq<u8>>) -> Option<
        Thing,
    > {
        self.shown_over(self.ground(tree), seen, key)
    }

    /// What is shown under a path over a tree that the upper layer does not replace as a
    /// whole.
    pub open spec fn shown_over(self, base: Tree, seen: Set<Visit>, key: Seq<Seq<u8>>) -> Option<
        Thing,
    > {
        if self.entry_at(seen, key) {
            Some((self.things)(key))
        } else if self.hidden_at(seen, key) || self.covered_at(seen, key) {
            None
        } else {
            base.shows(key)
        }
    }

    /// An item fits what the lower layer has: no path is both merged and hidden, and an
    /// entry is a directory, a file or a link and can be put where it belongs.
    pub open spec fn fits(self, tree: Tree, seen: Set<Visit>, v: Visit) -> bool {
        self.merges(v) ==> {
            &&& !self.hidden_at(seen, v.key())
            &&& !((self.things)(v.key()) is Other)
            &&& self.ground(tree).shows(v.key()) matches Some(old) ==> takes(
                (self.things)(v.key()),
                old,
            )
        }
    }

    /// The walk comes to its end, and every item fits.
    pub open spec fn fit(self, tree: Tree) -> bool {
        self.walk() matches Some(visits) && forall|v: Visit| #[trigger]
            visits.to_set().contains(v) ==> self.fits(tree, visits.to_set(), v)
    }

    /// The items of every directory are named as those of a directory are.
    pub open spec fn sane(self) -> bool {
        well_named(self.items)
    }
}

/// The items of a directory have different names, none of which is empty, `.` or made of
/// several.
pub open spec fn well_named(items: spec_fn(Seq<u8>) -> Seq<Named>) -> bool {
    &&& forall|dir: Seq<u8>, i: int|
        0 <= i < items(dir).len() ==> names_entry(#[trigger] items(dir)[i])
    &&& forall|dir: Seq<u8>, i: int, j: int|
        0 <= i < j < items(dir).len() ==> (#[trigger] items(dir)[i])->Entry_0 != (
        #[trigger] items(dir)[j])->Entry_0
}

/// A directory of the lower layer that is brought up with all that is seen in it, and the
/// upper layer before that.
pub struct Lifting {
    /// The path of the directory.
    pub root: Seq<u8>,
    /// The items of each directory of the lower layer.
    pub items: spec_fn(Seq<u8>) -> Seq<Named>,
    /// How many steps a walk through them takes.
    pub steps: nat,
    /// What each path of the lower layer leads to.
    pub things: spec_fn(Seq<Seq<u8>>) -> Thing,
    /// Which paths a marker hides.
    pub hidden: spec_fn(Seq<Seq<u8>>) -> bool,
    /// Which directories of the upper layer replace their counterparts.
    pub marked: spec_fn(Seq<Seq<u8>>) -> bool,
    pub upper: Tree,
}

impl Lifting {
    /// The components of the path of an item.
    pub open spec fn key(v: Visit) -> Seq<Seq<u8>> {
        crate::path::components(v.path())
    }

    /// An item is seen as one of the lower layer.
    pub open spec fn rises(self, v: Visit) -> bool {
        !(self.hidden)(Self::key(v)) && self.upper.shows(Self::key(v)) is None
    }

    /// An item is seen as a directory in which what the lower layer holds is seen.
    pub open spec fn opens(self, v: Visit) -> bool {
        let key = Self::key(v);
        &&& !(self.hidden)(key)
        &&& (self.things)(key) is Dir
        &&& self.upper.shows(key) matches Some(t) ==> t is Dir && !(self.marked)(key)
    }

    /// The lower layer as a walk finds it.
    pub open spec fn scene(self) -> Scene {
        Scene {
            items: self.items,
            enters: |dir: Seq<u8>, item: Named| self.opens(Visit { dir, item }),
        }
    }

    /// The items that are dealt with, in order.
    pub open spec fn walk(self) -> Option<Seq<Visit>> {
        tour(Progress::start(self.root), self.scene(), self.steps)
    }

    /// What dealing with an item does to the upper layer: it is put in, unless something
    /// hides it or is there.
    pub open spec fn effect(self, tree: Tree, v: Visit) -> Tree {
        let key = Self::key(v);
        if (self.hidden)(key) || tree.shows(key) is Some {
            tree
        } else {
            tree.with(key, (self.things)(key))
        }
    }

    /// What dealing with a run of items does to the upper layer.
    pub open spec fn effects(self, visits: Seq<Visit>) -> Tree
        decreases visits.len(),
    {
        if visits.len() == 0 {
            self.upper
        } else {
            self.effect(self.effects(visits.drop_last()), visits.last())
        }
    }

    /// An item is seen under a path as one of the lower layer.
    pub open spec fn rises_at(self, seen: Set<Visit>, key: Seq<Seq<u8>>) -> bool {
        exists|v: Visit| #[trigger] seen.contains(v) && self.rises(v) && Self::key(v) == key
    }

    /// What is seen under a path, of both layers.
    pub open spec fn shown(self, seen: Set<Visit>, key: Seq<Seq<u8>>) -> Option<Thing> {
        if self.rises_at(seen, key) {
            Some((self.things)(key))
        } else {
            self.upper.shows(key)
        }
    }
}

/// An item could be read and has the name of an entry.
pub open spec fn names_entry(item: Named) -> bool {
    item matches Named::Entry(name, _) && crate::path::is_segment(name)
}

/// An entry can be put in the place of another: a directory in the place of anything, a
/// file or a link in that of anything but a directory.
pub open spec fn takes(new: Thing, old: Thing) -> bool {
    match new {
        Thing::Dir => true,
        Thing::Other => false,
        _ => !(old is Dir),
    }
}

} // verus!
