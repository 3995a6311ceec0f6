//! The table that maps inode numbers to overlay paths and back.

use crate::path::{list_starts_with, same_list, single_component, FsPath};
use std::collections::HashMap;
use vstd::prelude::*;

verus! {

broadcast use vstd::std_specs::hash::group_hash_axioms;

/// The number of the root directory.
pub const ROOT_INO: u64 = 1;

/// The first number that is not kept back for the root and its like.
pub const FIRST_HASHED: u64 = 100;

/// How inode numbers are made.
#[derive(Clone, Copy, PartialEq, Eq, Structural, Debug)]
pub enum InodeMode {
    /// Numbers are counted up and differ from mount to mount.
    Virtual,
    /// Numbers are hashes of the path, so that a path keeps its number.
    Persistent,
}

/// What the table knows of an inode number: its path, and how often the kernel holds it.
pub struct Known {
    pub path: Seq<u8>,
    pub count: u64,
}

/// The state of an inode table: numbers to paths, paths to numbers, and the next number
/// to count from. A path is found by its components.
#[verifier::ext_equal]
pub struct Inodes {
    pub map: Map<u64, Known>,
    pub paths: Map<Seq<Seq<u8>>, u64>,
    pub mode: InodeMode,
    pub next: u64,
}

/// The 64-bit FNV-1a hash.
pub open spec fn fnv1a(bytes: Seq<u8>) -> u64
    decreases bytes.len(),
{
    if bytes.len() == 0 {
        0xcbf29ce484222325
    } else {
        (fnv1a(bytes.drop_last()) ^ bytes.last() as u64).wrapping_mul(0x100000001b3)
    }
}

/// The number that a path hashes to, moved out of the range kept back.
pub open spec fn hashed(path: Seq<u8>) -> u64 {
    let hash = fnv1a(path);
    if hash < FIRST_HASHED {
        (hash + FIRST_HASHED) as u64
    } else {
        hash
    }
}

/// How many 64-bit numbers there are.
pub open spec fn all_numbers() -> nat {
    0x1_0000_0000_0000_0000
}

impl Inodes {
    /// A table that knows the root only.
    pub open spec fn fresh(mode: InodeMode) -> Inodes {
        Inodes {
            map: Map::empty().insert(ROOT_INO, Known { path: Seq::empty(), count: 1 }),
            paths: Map::empty().insert(Seq::empty(), ROOT_INO),
            mode,
            next: 2,
        }
    }

    /// Whether a number can be given to a path: nothing else has it.
    pub open spec fn usable(self, ino: u64, path: Seq<u8>) -> bool {
        self.map.contains_key(ino) ==> crate::path::components(self.map[ino].path)
            == crate::path::components(path)
    }

    /// The first of at most `n` numbers, counting up from `from`, that the path can have.
    pub open spec fn first_usable(self, path: Seq<u8>, from: u64, n: nat) -> u64
        decreases n,
    {
        if n == 0 || self.usable(from, path) {
            from
        } else {
            self.first_usable(path, from.wrapping_add(1), (n - 1) as nat)
        }
    }

    /// The number that a path gets that has none yet.
    pub open spec fn new_ino(self, path: Seq<u8>) -> u64 {
        match self.mode {
            InodeMode::Virtual => self.next,
            InodeMode::Persistent => self.first_usable(path, hashed(path), all_numbers()),
        }
    }

    /// The table once a path without a number has got one.
    pub open spec fn with_new(self, path: Seq<u8>, count: u64) -> Inodes {
        let ino = self.new_ino(path);
        Inodes {
            map: self.map.insert(ino, Known { path, count }),
            paths: self.paths.insert(crate::path::components(path), ino),
            mode: self.mode,
            next: if self.mode is Virtual {
                self.next.wrapping_add(1)
            } else {
                self.next
            },
        }
    }

    /// The number of a path, new or old.
    pub open spec fn ino_of(self, path: Seq<u8>) -> u64 {
        let key = crate::path::components(path);
        if self.paths.contains_key(key) {
            self.paths[key]
        } else {
            self.new_ino(path)
        }
    }

    /// The table once the number of a path has been looked at.
    pub open spec fn peeked(self, path: Seq<u8>) -> Inodes {
        if self.paths.contains_key(crate::path::components(path)) {
            self
        } else {
            self.with_new(path, 0)
        }
    }

    /// The table once the number of a path has been handed to the kernel.
    pub open spec fn looked_up(self, path: Seq<u8>) -> Inodes {
        let key = crate::path::components(path);
        if self.paths.contains_key(key) {
            let ino = self.paths[key];
            if self.map.contains_key(ino) {
                let known = self.map[ino];
                Inodes {
                    map: self.map.insert(
                        ino,
                        Known { path: known.path, count: known.count.wrapping_add(1) },
                    ),
                    ..self
                }
            } else {
                self
            }
        } else {
            self.with_new(path, 1)
        }
    }

    /// The table once the kernel has given up `n` of its holds on a number.
    pub open spec fn forgotten(self, ino: u64, n: u64) -> Inodes {
        if ino == ROOT_INO || !self.map.contains_key(ino) {
            self
        } else if self.map[ino].count <= n {
            Inodes {
                map: self.map.remove(ino),
                paths: self.paths.remove(crate::path::components(self.map[ino].path)),
                ..self
            }
        } else {
            let known = self.map[ino];
            Inodes {
                map: self.map.insert(
                    ino,
                    Known { path: known.path, count: (known.count - n) as u64 },
                ),
                ..self
            }
        }
    }

    /// The table without a path and its number.
    pub open spec fn removed(self, path: Seq<u8>) -> Inodes {
        let key = crate::path::components(path);
        if self.paths.contains_key(key) {
            Inodes { map: self.map.remove(self.paths[key]), paths: self.paths.remove(key), ..self }
        } else {
            self
        }
    }

    /// Whether a number belongs to a path at or below the given one.
    pub open spec fn numbered_below(self, prefix: Seq<Seq<u8>>, ino: u64) -> bool {
        exists|key: Seq<Seq<u8>>| #[trigger]
            self.paths.contains_key(key) && prefix.is_prefix_of(key) && self.paths[key] == ino
    }

    /// The table without a path, all that lies below it, and their numbers.
    pub open spec fn pruned(self, path: Seq<u8>) -> Inodes {
        let prefix = crate::path::components(path);
        Inodes {
            map: Map::new(
                |ino: u64| self.map.contains_key(ino) && !self.numbered_below(prefix, ino),
                |ino: u64| self.map[ino],
            ),
            paths: Map::new(
                |key: Seq<Seq<u8>>| self.paths.contains_key(key) && !prefix.is_prefix_of(key),
                |key: Seq<Seq<u8>>| self.paths[key],
            ),
            ..self
        }
    }

    /// The path of a number.
    pub open spec fn path_of(self, ino: u64) -> Option<Seq<u8>> {
        if self.map.contains_key(ino) {
            Some(self.map[ino].path)
        } else {
            None
        }
    }

    /// The path of an entry of a directory. A name that is not that of a single entry
    /// stands for the directory itself, and an unknown directory for the root.
    pub open spec fn child(self, parent: u64, name: Seq<u8>) -> Seq<u8> {
        let dir = match self.path_of(parent) {
            Some(p) => p,
            None => Seq::empty(),
        };
        match crate::path::single_name(name) {
            Some(n) => crate::path::join(dir, n),
            None => dir,
        }
    }

    /// The two directions of the table agree, and counted numbers lie below the next one.
    pub open spec fn coherent(self) -> bool {
        &&& forall|ino: u64| #[trigger]
            self.map.contains_key(ino) ==> {
                let key = crate::path::components(self.map[ino].path);
                self.paths.contains_key(key) && self.paths[key] == ino
            }
        &&& forall|key: Seq<Seq<u8>>| #[trigger]
            self.paths.contains_key(key) ==> self.map.contains_key(self.paths[key])
                && crate::path::components(self.map[self.paths[key]].path) == key
        &&& self.map.dom().finite()
        &&& self.map.dom().len() < all_numbers()
        &&& self.mode is Virtual ==> forall|ino: u64| #[trigger]
            self.map.contains_key(ino) ==> ino < self.next
    }

    /// Another path can still get a number of its own.
    pub open spec fn has_room(self) -> bool {
        &&& self.map.dom().len() + 1 < all_numbers()
        &&& self.mode is Virtual ==> self.next < u64::MAX
    }
}

/// A path with its number, as the table stores it.
struct PathSlot {
    key: Vec<Vec<u8>>,
    ino: u64,
}

/// A number's path and how often the kernel holds it.
struct InodeEntry {
    path: FsPath,
    lookup_count: u64,
}

impl InodeEntry {
    spec fn known(self) -> Known {
        Known { path: self.path@, count: self.lookup_count }
    }
}

impl PathSlot {
    spec fn at(self) -> Seq<Seq<u8>> {
        crate::path::views(self.key@)
    }
}

spec fn slot_map(slots: Seq<PathSlot>) -> Map<Seq<Seq<u8>>, u64>
    decreases slots.len(),
{
    if slots.len() == 0 {
        Map::empty()
    } else {
        slot_map(slots.drop_last()).insert(slots.last().at(), slots.last().ino)
    }
}

spec fn known_map(map: Map<u64, InodeEntry>) -> Map<u64, Known> {
    map.map_values(|e: InodeEntry| e.known())
}

spec fn distinct(slots: Seq<PathSlot>) -> bool {
    forall|i: int, j: int|
        0 <= i < j < slots.len() ==> (#[trigger] slots[i]).at() != (#[trigger] slots[j]).at()
}

proof fn lemma_slot_map(slots: Seq<PathSlot>)
    ensures
        forall|k: Seq<Seq<u8>>| #[trigger]
            slot_map(slots).contains_key(k) ==> exists|i: int|
                0 <= i < slots.len() && (#[trigger] slots[i]).at() == k,
        distinct(slots) ==> forall|i: int|
            0 <= i < slots.len() ==> slot_map(slots).contains_key((#[trigger] slots[i]).at())
                && slot_map(slots)[slots[i].at()] == slots[i].ino,
    decreases slots.len(),
{
    if slots.len() > 0 {
        let front = slots.drop_last();
        lemma_slot_map(front);
        assert forall|k: Seq<Seq<u8>>| #[trigger] slot_map(slots).contains_key(k) implies exists|
            i: int,
        |
            0 <= i < slots.len() && (#[trigger] slots[i]).at() == k by {
            if k == slots.last().at() {
                assert(slots[slots.len() - 1].at() == k);
            } else {
                assert(slot_map(front).contains_key(k));
                let i = choose|i: int| 0 <= i < front.len() && (#[trigger] front[i]).at() == k;
                assert(slots[i].at() == k);
            }
        }
        if distinct(slots) {
            assert(distinct(front)) by {
                assert forall|i: int, j: int| 0 <= i < j < front.len() implies (
                #[trigger] front[i]).at() != (#[trigger] front[j]).at() by {
                    assert(slots[i].at() != slots[j].at());
                }
            }
            assert forall|i: int| 0 <= i < slots.len() implies slot_map(slots).contains_key(
                (#[trigger] slots[i]).at(),
            ) && slot_map(slots)[slots[i].at()] == slots[i].ino by {
                if i < front.len() {
                    assert(front[i] == slots[i]);
                    assert(slots[i].at() != slots[slots.len() - 1].at());
                }
            }
        }
    }
}

proof fn lemma_drop_slot(slots: Seq<PathSlot>, i: int)
    requires
        distinct(slots),
        0 <= i < slots.len(),
    ensures
        distinct(slots.remove(i)),
        slot_map(slots.remove(i)) == slot_map(slots).remove(slots[i].at()),
    decreases slots.len(),
{
    let front = slots.drop_last();
    let rest = slots.remove(i);
    assert forall|a: int, b: int| 0 <= a < b < rest.len() implies (#[trigger] rest[a]).at() != (
    #[trigger] rest[b]).at() by {
        let a2 = if a < i { a } else { a + 1 };
        let b2 = if b < i { b } else { b + 1 };
        assert(rest[a] == slots[a2] && rest[b] == slots[b2]);
        assert(slots[a2].at() != slots[b2].at());
    }
    assert forall|a: int, b: int| 0 <= a < b < front.len() implies (#[trigger] front[a]).at() != (
    #[trigger] front[b]).at() by {
        assert(front[a] == slots[a] && front[b] == slots[b]);
        assert(slots[a].at() != slots[b].at());
    }
    if i == slots.len() - 1 {
        assert(rest =~= front);
        lemma_slot_map(front);
        if slot_map(front).contains_key(slots[i].at()) {
            let j = choose|j: int|
                0 <= j < front.len() && (#[trigger] front[j]).at() == slots[i].at();
            assert(slots[j].at() != slots[i].at());
        }
        assert(slot_map(rest) =~= slot_map(slots).remove(slots[i].at()));
    } else {
        lemma_drop_slot(front, i);
        assert(rest.drop_last() =~= front.remove(i));
        assert(rest.last() == slots.last());
        assert(slots[i].at() != slots[slots.len() - 1].at());
        assert(front[i] == slots[i]);
        assert(slot_map(rest) =~= slot_map(slots).remove(slots[i].at()));
    }
}

/// The table of inode numbers.
pub struct InodeStore {
    map: HashMap<u64, InodeEntry>,
    paths: Vec<PathSlot>,
    mode: InodeMode,
    next_ino: u64,
}

impl View for InodeStore {
    type V = Inodes;

    closed spec fn view(&self) -> Inodes {
        Inodes {
            map: known_map(self.map@),
            paths: slot_map(self.paths@),
            mode: self.mode,
            next: self.next_ino,
        }
    }
}

impl InodeStore {
    /// No path is stored twice.
    pub closed spec fn wf(&self) -> bool {
        distinct(self.paths@)
    }

    /// A table that knows the root only.
    pub fn new(mode: InodeMode) -> (r: InodeStore)
        ensures
            r.wf(),
            r@ == Inodes::fresh(mode),
    {
        let mut map: HashMap<u64, InodeEntry> = HashMap::new();
        map.insert(ROOT_INO, InodeEntry { path: FsPath::empty(), lookup_count: 1 });
        let mut paths: Vec<PathSlot> = Vec::new();
        let root = FsPath::empty();
        let key = root.components();
        paths.push(PathSlot { key, ino: ROOT_INO });
        proof {
            assert(crate::path::components(root@) =~= Seq::empty());
            assert(paths@.drop_last() =~= Seq::empty());
            assert(paths@.last().at() =~= Seq::empty());
            assert(slot_map(Seq::<PathSlot>::empty()) =~= Map::empty());
            assert(slot_map(paths@) =~= Inodes::fresh(mode).paths);
            assert(known_map(map@) =~= Inodes::fresh(mode).map);
        }
        InodeStore { map, paths, mode, next_ino: 2 }
    }

    /// The path of a number.
    pub fn get_path(&self, ino: u64) -> (r: Option<FsPath>)
        ensures
            r is Some <==> self@.path_of(ino) is Some,
            r matches Some(p) ==> Some(p@) == self@.path_of(ino),
    {
        match self.map.get(&ino) {
            Some(e) => Some(e.path.clone()),
            None => None,
        }
    }

    fn find(&self, key: &Vec<Vec<u8>>) -> (r: Option<u64>)
        requires
            self.wf(),
        ensures
            r is Some <==> self@.paths.contains_key(crate::path::views(key@)),
            r matches Some(ino) ==> ino == self@.paths[crate::path::views(key@)],
    {
        proof {
            lemma_slot_map(self.paths@);
        }
        let mut i: usize = 0;
        while i < self.paths.len()
            invariant
                i <= self.paths.len(),
                forall|j: int|
                    0 <= j < self.paths.len() ==> self@.paths.contains_key(
                        (#[trigger] self.paths@[j]).at(),
                    ) && self@.paths[self.paths@[j].at()] == self.paths@[j].ino,
                forall|j: int|
                    0 <= j < i ==> (#[trigger] self.paths@[j]).at() != crate::path::views(key@),
            decreases self.paths.len() - i,
        {
            if same_list(&self.paths[i].key, key) {
                assert(self.paths@[i as int].at() == crate::path::views(key@));
                return Some(self.paths[i].ino);
            }
            i += 1;
        }
        None
    }

    /// The number of a path, without counting it as held by the kernel. A path without a
    /// number gets one that is held zero times.
    pub fn peek_ino(&mut self, rel_path: &FsPath) -> (r: u64)
        requires
            old(self).wf(),
        ensures
            final(self).wf(),
            r == old(self)@.ino_of(rel_path@),
            final(self)@ == old(self)@.peeked(rel_path@),
    {
        let key = rel_path.components();
        match self.find(&key) {
            Some(ino) => ino,
            None => self.allocate(rel_path, key, 0),
        }
    }

    /// The number of a path, counted as held by the kernel once more.
    pub fn get_ino(&mut self, rel_path: &FsPath) -> (r: u64)
        requires
            old(self).wf(),
        ensures
            final(self).wf(),
            r == old(self)@.ino_of(rel_path@),
            final(self)@ == old(self)@.looked_up(rel_path@),
    {
        let key = rel_path.components();
        match self.find(&key) {
            Some(ino) => {
                match self.map.remove(&ino) {
                    Some(e) => {
                        let lookup_count = e.lookup_count.wrapping_add(1);
                        self.map.insert(ino, InodeEntry { path: e.path, lookup_count });
                        assert(self@.map =~= old(self)@.looked_up(rel_path@).map);
                    },
                    None => {
                        assert(self@.map =~= old(self)@.map);
                    },
                }
                ino
            },
            None => self.allocate(rel_path, key, 1),
        }
    }

    fn allocate(&mut self, rel_path: &FsPath, key: Vec<Vec<u8>>, count: u64) -> (r: u64)
        requires
            old(self).wf(),
            crate::path::views(key@) == crate::path::components(rel_path@),
            !old(self)@.paths.contains_key(crate::path::views(key@)),
        ensures
            final(self).wf(),
            r == old(self)@.new_ino(rel_path@),
            final(self)@ == old(self)@.with_new(rel_path@, count),
    {
        let ino: u64 = match self.mode {
            InodeMode::Virtual => {
                let n = self.next_ino;
                self.next_ino = n.wrapping_add(1);
                n
            },
            InodeMode::Persistent => self.generate_persistent_ino(rel_path),
        };
        proof {
            lemma_slot_map(self.paths@);
        }
        let slot = PathSlot { key, ino };
        self.paths.push(slot);
        self.map.insert(ino, InodeEntry { path: rel_path.clone(), lookup_count: count });
        proof {
            assert(self.paths@.drop_last() =~= old(self).paths@);
            assert(self@.map =~= old(self)@.with_new(rel_path@, count).map);
        }
        ino
    }

    /// Takes a path out of the path list.
    fn drop_path(&mut self, key: &Vec<Vec<u8>>)
        requires
            old(self).wf(),
        ensures
            final(self).wf(),
            final(self)@ == (Inodes {
                paths: old(self)@.paths.remove(crate::path::views(key@)),
                ..old(self)@
            }),
    {
        let ghost slots = self.paths@;
        let ghost k = crate::path::views(key@);
        proof {
            lemma_slot_map(slots);
        }
        let mut i: usize = 0;
        while i < self.paths.len()
            invariant
                i <= self.paths.len(),
                self.paths@ == slots,
                distinct(slots),
                *self == *old(self),
                k == crate::path::views(key@),
                forall|j: int| 0 <= j < i ==> (#[trigger] slots[j]).at() != k,
            decreases self.paths.len() - i,
        {
            if same_list(&self.paths[i].key, key) {
                self.paths.remove(i);
                proof {
                    assert(slots[i as int].at() == k);
                    lemma_slot_map(slots);
                    lemma_drop_slot(slots, i as int);
                }
                return;
            }
            i += 1;
        }
        assert(self@.paths =~= old(self)@.paths.remove(k));
    }

    /// Gives up `nlookup` of the kernel's holds on a number, and forgets the number and its
    /// path once none is left. The root is never forgotten.
    pub fn forget_ino(&mut self, ino: u64, nlookup: u64)
        requires
            old(self).wf(),
        ensures
            final(self).wf(),
            final(self)@ == old(self)@.forgotten(ino, nlookup),
    {
        if ino == ROOT_INO {
            return;
        }
        match self.map.remove(&ino) {
            Some(e) => {
                if e.lookup_count <= nlookup {
                    assert(self@.map =~= old(self)@.map.remove(ino));
                    let key = e.path.components();
                    self.drop_path(&key);
                } else {
                    let lookup_count: u64 = e.lookup_count - nlookup;
                    self.map.insert(ino, InodeEntry { path: e.path, lookup_count });
                    assert(self@.map =~= old(self)@.forgotten(ino, nlookup).map);
                }
            },
            None => {
                assert(self@.map =~= old(self)@.map);
            },
        }
    }

    /// Forgets a path and its number.
    pub fn remove_ino(&mut self, rel_path: &FsPath)
        requires
            old(self).wf(),
        ensures
            final(self).wf(),
            final(self)@ == old(self)@.removed(rel_path@),
    {
        let key = rel_path.components();
        if let Some(ino) = self.find(&key) {
            self.drop_path(&key);
            self.map.remove(&ino);
            assert(self@.map =~= old(self)@.map.remove(ino));
        }
    }

    /// Forgets a path, all that lies below it, and their numbers.
    pub fn remove_subtree(&mut self, rel_path: &FsPath)
        requires
            old(self).wf(),
        ensures
            final(self).wf(),
            final(self)@ == old(self)@.pruned(rel_path@),
    {
        let prefix = rel_path.components();
        let ghost was = self@;
        let ghost pre = crate::path::components(rel_path@);
        let mut i: usize = 0;
        assert(known_map(self.map@) =~= was.map);
        while i < self.paths.len()
            invariant
                i <= self.paths.len(),
                self.wf(),
                self@.mode == was.mode,
                self@.next == was.next,
                crate::path::views(prefix@) == pre,
                forall|j: int|
                    0 <= j < i ==> !pre.is_prefix_of((#[trigger] self.paths@[j]).at()),
                forall|k: Seq<Seq<u8>>| #[trigger]
                    self@.paths.contains_key(k) ==> was.paths.contains_key(k) && was.paths[k]
                        == self@.paths[k],
                forall|k: Seq<Seq<u8>>| #[trigger]
                    was.paths.contains_key(k) && !self@.paths.contains_key(k)
                        ==> pre.is_prefix_of(k),
                forall|ino: u64| #[trigger]
                    self@.map.contains_key(ino) ==> was.map.contains_key(ino) && was.map[ino]
                        == self@.map[ino],
                forall|ino: u64|
                    was.map.contains_key(ino) && !(#[trigger] self@.map.contains_key(ino))
                        ==> was.numbered_below(pre, ino),
                forall|k: Seq<Seq<u8>>| #[trigger]
                    was.paths.contains_key(k) && !self@.paths.contains_key(k)
                        ==> !self@.map.contains_key(was.paths[k]),
            decreases self.paths.len() - i,
        {
            proof {
                lemma_slot_map(self.paths@);
            }
            if list_starts_with(&self.paths[i].key, &prefix) {
                let ghost mid = self@;
                let ghost slots = self.paths@;
                let slot = self.paths.remove(i);
                self.map.remove(&slot.ino);
                proof {
                    lemma_drop_slot(slots, i as int);
                    assert(self@.paths =~= mid.paths.remove(slot.at()));
                    assert(self@.map =~= mid.map.remove(slot.ino));
                    assert(was.paths.contains_key(slot.at()));
                    assert(was.numbered_below(pre, slot.ino));
                    assert forall|j: int| 0 <= j < i implies !pre.is_prefix_of(
                        (#[trigger] self.paths@[j]).at(),
                    ) by {
                        assert(self.paths@[j] == slots[j]);
                    }
                }
            } else {
                i += 1;
            }
        }
        proof {
            lemma_slot_map(self.paths@);
            let want = was.pruned(rel_path@);
            assert(self@.paths =~= want.paths);
            assert forall|ino: u64| self@.map.contains_key(ino) == want.map.contains_key(ino) by {
                if was.map.contains_key(ino) && was.numbered_below(pre, ino) {
                    let key = choose|key: Seq<Seq<u8>>| #[trigger]
                        was.paths.contains_key(key) && pre.is_prefix_of(key) && was.paths[key]
                            == ino;
                    assert(!self@.paths.contains_key(key));
                }
            }
            assert(self@.map =~= want.map);
        }
    }

    /// The path of an entry of a directory.
    pub fn child_path(&self, parent: u64, name: &[u8]) -> (r: FsPath)
        ensures
            r@ == self@.child(parent, name@),
    {
        let dir = match self.get_path(parent) {
            Some(p) => p,
            None => FsPath::empty(),
        };
        assert(self@.path_of(parent) is None ==> dir@ =~= Seq::empty());
        match single_component(name) {
            Some(n) => dir.join(n.as_slice()),
            None => dir,
        }
    }

    fn generate_persistent_ino(&self, path: &FsPath) -> (r: u64)
        ensures
            r == self@.first_usable(path@, hashed(path@), all_numbers()),
    {
        let base = hash_path(path);
        let mut candidate: u64 = base;
        let ghost mut k: nat = 0;
        proof {
            assert(candidate == wrapped(base, 0));
        }
        loop
            invariant_except_break
                k < all_numbers(),
                candidate == wrapped(base, k),
                forall|j: nat|
                    j < k ==> self.map@.contains_key(#[trigger] wrapped(base, j)),
                self@.first_usable(path@, base, all_numbers()) == self@.first_usable(
                    path@,
                    candidate,
                    (all_numbers() - k) as nat,
                ),
            ensures
                candidate == self@.first_usable(path@, base, all_numbers()),
            decreases all_numbers() - k,
        {
            let free = match self.map.get(&candidate) {
                None => true,
                Some(e) => e.path.same(path),
            };
            assert(free == self@.usable(candidate, path@));
            if free {
                break;
            }
            proof {
                if k + 1 == all_numbers() {
                    lemma_pigeonhole(self.map@.dom(), base, all_numbers());
                    let _ = self.map.len();
                    assert(false);
                }
                lemma_wrapped_step(base, k);
                k = k + 1;
            }
            candidate = candidate.wrapping_add(1);
        }
        candidate
    }
}

/// The number `k` after `base`.
spec fn wrapped(base: u64, k: nat) -> u64 {
    ((base + k) % all_numbers() as int) as u64
}

proof fn lemma_wrapped_step(base: u64, k: nat)
    ensures
        wrapped(base, k).wrapping_add(1) == wrapped(base, k + 1),
{
    let n = all_numbers() as int;
    assert((base + k + 1) % n == ((base + k) % n + 1) % n) by (nonlinear_arith)
        requires
            n == 0x1_0000_0000_0000_0000,
    ;
}

proof fn lemma_pigeonhole(s: Set<u64>, base: u64, k: nat)
    requires
        s.finite(),
        k <= all_numbers(),
        forall|j: nat| j < k ==> s.contains(#[trigger] wrapped(base, j)),
    ensures
        k <= s.len(),
    decreases k,
{
    if k > 0 {
        let last = wrapped(base, (k - 1) as nat);
        let rest = s.remove(last);
        assert forall|j: nat| j < k - 1 implies rest.contains(#[trigger] wrapped(base, j)) by {
            let n = all_numbers() as int;
            let b = base as int;
            let m = k - 1;
            assert((b + j) % n != (b + m) % n) by (nonlinear_arith)
                requires
                    n == 0x1_0000_0000_0000_0000,
                    0 <= j < m < n,
                    0 <= b < n,
            ;
        }
        lemma_pigeonhole(rest, base, (k - 1) as nat);
    }
}

fn hash_path(path: &FsPath) -> (r: u64)
    ensures
        r == hashed(path@),
{
    let bytes = &path.bytes;
    let mut hash: u64 = 0xcbf29ce484222325;
    let mut i: usize = 0;
    assert(path@.take(0) =~= Seq::empty());
    while i < bytes.len()
        invariant
            i <= bytes.len(),
            bytes@ == path@,
            hash == fnv1a(path@.take(i as int)),
        decreases bytes.len() - i,
    {
        assert(path@.take(i + 1).drop_last() =~= path@.take(i as int));
        hash = (hash ^ bytes[i] as u64).wrapping_mul(0x100000001b3);
        i += 1;
    }
    assert(path@.take(i as int) =~= path@);
    if hash < FIRST_HASHED {
        hash + FIRST_HASHED
    } else {
        hash
    }
}

/// In a coherent table, the number that a new path gets is not in use.
proof fn lemma_new_ino_free(t: Inodes, path: Seq<u8>)
    requires
        t.coherent(),
        !t.paths.contains_key(crate::path::components(path)),
    ensures
        !t.map.contains_key(t.new_ino(path)),
{
    if t.mode is Persistent {
        let base = hashed(path);
        assert(wrapped(base, 0) == base);
        lemma_first_usable(t, path, base, 0);
    }
}

proof fn lemma_first_usable(t: Inodes, path: Seq<u8>, base: u64, k: nat)
    requires
        t.coherent(),
        !t.paths.contains_key(crate::path::components(path)),
        k < all_numbers(),
        forall|j: nat| j < k ==> t.map.contains_key(#[trigger] wrapped(base, j)),
    ensures
        !t.map.contains_key(
            t.first_usable(path, wrapped(base, k), (all_numbers() - k) as nat),
        ),
    decreases all_numbers() - k,
{
    let c = wrapped(base, k);
    if t.map.contains_key(c) {
        assert(!t.usable(c, path));
        if k + 1 == all_numbers() {
            lemma_pigeonhole(t.map.dom(), base, all_numbers());
        }
        lemma_wrapped_step(base, k);
        lemma_first_usable(t, path, base, k + 1);
    }
}

/// A table that knows the root only is coherent.
pub proof fn law_fresh_coherent(mode: InodeMode)
    ensures
        Inodes::fresh(mode).coherent(),
{
    assert(crate::path::components(Seq::empty()) =~= Seq::empty());
    let t = Inodes::fresh(mode);
    assert(t.map.dom() =~= Set::empty().insert(ROOT_INO));
}

/// Every operation keeps a coherent table coherent, as long as there are numbers left.
pub proof fn law_coherence_kept(t: Inodes, path: Seq<u8>, ino: u64, n: u64)
    requires
        t.coherent(),
    ensures
        t.has_room() ==> t.looked_up(path).coherent(),
        t.has_room() ==> t.peeked(path).coherent(),
        t.forgotten(ino, n).coherent(),
        t.removed(path).coherent(),
        t.pruned(path).coherent(),
{
    let key = crate::path::components(path);
    if t.has_room() {
        if !t.paths.contains_key(key) {
            lemma_new_ino_free(t, path);
            assert(t.looked_up(path).map.dom() =~= t.map.dom().insert(t.new_ino(path)));
            assert(t.peeked(path).map.dom() =~= t.map.dom().insert(t.new_ino(path)));
        } else {
            assert(t.looked_up(path).map.dom() =~= t.map.dom());
        }
    }
    if t.map.contains_key(ino) {
        assert(t.forgotten(ino, n).map.dom() =~= t.map.dom() || t.forgotten(ino, n).map.dom()
            =~= t.map.dom().remove(ino));
    }
    if t.paths.contains_key(key) {
        assert(t.removed(path).map.dom() =~= t.map.dom().remove(t.paths[key]));
    }
    let p = t.pruned(path);
    assert(p.map.dom().subset_of(t.map.dom()));
    vstd::set_lib::lemma_len_subset(p.map.dom(), t.map.dom());
    assert forall|i: u64| #[trigger] p.map.contains_key(i) implies {
        let k = crate::path::components(p.map[i].path);
        p.paths.contains_key(k) && p.paths[k] == i
    } by {
        let k = crate::path::components(t.map[i].path);
        assert(t.paths.contains_key(k));
    }
    assert forall|k: Seq<Seq<u8>>| #[trigger] p.paths.contains_key(k) implies p.map.contains_key(
        p.paths[k],
    ) && crate::path::components(p.map[p.paths[k]].path) == k by {
        assert(t.paths.contains_key(k));
        let i = t.paths[k];
        if t.numbered_below(key, i) {
            let other = choose|other: Seq<Seq<u8>>| #[trigger]
                t.paths.contains_key(other) && key.is_prefix_of(other) && t.paths[other] == i;
            assert(other == k);
        }
    }
}

/// A path keeps its number: asking for it again, or for any other path, does not change it.
pub proof fn law_number_is_stable(t: Inodes, path: Seq<u8>, other: Seq<u8>)
    ensures
        t.looked_up(path).ino_of(path) == t.ino_of(path),
        t.peeked(path).ino_of(path) == t.ino_of(path),
        t.looked_up(path).looked_up(other).ino_of(path) == t.ino_of(path),
        t.peeked(path).looked_up(other).ino_of(path) == t.ino_of(path),
{
}

/// Different paths have different numbers.
pub proof fn law_numbers_distinct(t: Inodes, path: Seq<u8>, other: Seq<u8>)
    requires
        t.coherent(),
        t.has_room(),
        crate::path::components(path) != crate::path::components(other),
    ensures
        t.looked_up(path).ino_of(other) != t.ino_of(path),
{
    let u = t.looked_up(path);
    law_coherence_kept(t, path, 0, 0);
    assert(u.paths.contains_key(crate::path::components(path)));
    if !u.paths.contains_key(crate::path::components(other)) {
        lemma_new_ino_free(u, other);
    }
}

/// A number leads back to the path it was given for.
pub proof fn law_number_leads_back(t: Inodes, path: Seq<u8>)
    requires
        t.coherent(),
    ensures
        t.looked_up(path).path_of(t.ino_of(path)) matches Some(p)
            && crate::path::components(p) == crate::path::components(path),
        t.peeked(path).path_of(t.ino_of(path)) matches Some(p)
            && crate::path::components(p) == crate::path::components(path),
{
}

/// A hashed number depends on the path alone wherever no other path holds it already; so
/// it is the same in every table.
pub proof fn law_hashed_number(t: Inodes, path: Seq<u8>)
    requires
        t.mode is Persistent,
        !t.paths.contains_key(crate::path::components(path)),
        t.usable(hashed(path), path),
    ensures
        t.ino_of(path) == hashed(path),
        t.ino_of(path) >= FIRST_HASHED,
{
}

/// In a table that knows the root only, every other path gets the number it hashes to.
pub proof fn law_hashed_number_fresh(path: Seq<u8>)
    requires
        crate::path::components(path).len() > 0,
    ensures
        Inodes::fresh(InodeMode::Persistent).ino_of(path) == hashed(path),
{
    law_hashed_number(Inodes::fresh(InodeMode::Persistent), path);
}

/// Counted numbers follow one another.
pub proof fn law_counted_numbers(t: Inodes, path: Seq<u8>, other: Seq<u8>)
    requires
        t.mode is Virtual,
        t.next < u64::MAX,
        !t.paths.contains_key(crate::path::components(path)),
        !t.paths.contains_key(crate::path::components(other)),
        crate::path::components(path) != crate::path::components(other),
    ensures
        t.ino_of(path) == t.next,
        t.looked_up(path).ino_of(other) == t.next + 1,
{
}

/// Handing out a new number once and giving it up once leaves the table as it was, but
/// for the next number to count from.
pub proof fn law_forget_undoes_lookup(t: Inodes, path: Seq<u8>)
    requires
        t.coherent(),
        !t.paths.contains_key(crate::path::components(path)),
        t.ino_of(path) != ROOT_INO,
    ensures
        t.looked_up(path).forgotten(t.ino_of(path), 1).map == t.map,
        t.looked_up(path).forgotten(t.ino_of(path), 1).paths == t.paths,
{
    lemma_new_ino_free(t, path);
    let u = t.looked_up(path).forgotten(t.ino_of(path), 1);
    assert(u.map =~= t.map);
    assert(u.paths =~= t.paths);
}

/// A number that was only looked at is gone at the first forget, however many holds that
/// gives up.
pub proof fn law_forget_undoes_peek(t: Inodes, path: Seq<u8>, n: u64)
    requires
        t.coherent(),
        !t.paths.contains_key(crate::path::components(path)),
        t.ino_of(path) != ROOT_INO,
    ensures
        t.peeked(path).forgotten(t.ino_of(path), n).map == t.map,
        t.peeked(path).forgotten(t.ino_of(path), n).paths == t.paths,
{
    lemma_new_ino_free(t, path);
    let u = t.peeked(path).forgotten(t.ino_of(path), n);
    assert(u.map =~= t.map);
    assert(u.paths =~= t.paths);
}

/// Looking at the number of a known path does not count as a hold.
pub proof fn law_peek_counts_nothing(t: Inodes, path: Seq<u8>)
    requires
        t.paths.contains_key(crate::path::components(path)),
    ensures
        t.peeked(path) == t,
{
}

/// A number that is held more often than it is given up stays.
pub proof fn law_forget_keeps_held(t: Inodes, ino: u64, n: u64)
    requires
        t.map.contains_key(ino),
        t.map[ino].count > n,
    ensures
        t.forgotten(ino, n).path_of(ino) == t.path_of(ino),
        t.forgotten(ino, n).paths == t.paths,
        ino != ROOT_INO ==> t.forgotten(ino, n).map[ino].count == t.map[ino].count - n,
{
}

/// The root is never forgotten.
pub proof fn law_root_stays(t: Inodes, n: u64)
    ensures
        t.forgotten(ROOT_INO, n) == t,
{
}

/// A removed path is unknown; every other path keeps its number, and that number its path.
pub proof fn law_removed_alone(t: Inodes, path: Seq<u8>, other: Seq<u8>)
    requires
        t.coherent(),
        t.paths.contains_key(crate::path::components(path)),
        t.paths.contains_key(crate::path::components(other)),
        crate::path::components(path) != crate::path::components(other),
    ensures
        !t.removed(path).paths.contains_key(crate::path::components(path)),
        t.removed(path).path_of(t.ino_of(path)) is None,
        t.removed(path).ino_of(other) == t.ino_of(other),
        t.removed(path).path_of(t.ino_of(other)) == t.path_of(t.ino_of(other)),
{
}

/// After a subtree is removed, no path in it is known, and every path outside of it keeps
/// its number, and that number its path.
pub proof fn law_pruned_alone(t: Inodes, path: Seq<u8>, other: Seq<u8>)
    requires
        t.coherent(),
        t.paths.contains_key(crate::path::components(other)),
    ensures
        crate::path::within(other, path) ==> {
            &&& !t.pruned(path).paths.contains_key(crate::path::components(other))
            &&& t.pruned(path).path_of(t.ino_of(other)) is None
        },
        !crate::path::within(other, path) ==> {
            &&& t.pruned(path).ino_of(other) == t.ino_of(other)
            &&& t.pruned(path).path_of(t.ino_of(other)) == t.path_of(t.ino_of(other))
        },
{
    let prefix = crate::path::components(path);
    let key = crate::path::components(other);
    let ino = t.paths[key];
    if prefix.is_prefix_of(key) {
        assert(t.numbered_below(prefix, ino));
    } else if t.numbered_below(prefix, ino) {
        let k = choose|k: Seq<Seq<u8>>| #[trigger]
            t.paths.contains_key(k) && prefix.is_prefix_of(k) && t.paths[k] == ino;
        assert(k == key);
    }
}

/// The path of an entry is that of its directory, followed by its name.
pub proof fn law_child_extends_parent(t: Inodes, parent: u64, name: Seq<u8>)
    requires
        t.map.contains_key(parent),
        crate::path::is_segment(name),
        crate::path::is_normal(name),
    ensures
        crate::path::components(t.child(parent, name)) == crate::path::components(
            t.map[parent].path,
        ).push(name),
{
    crate::path::lemma_join_segment(Seq::empty(), name);
    assert(crate::path::join(Seq::empty(), name) =~= name) by {
        assert(name.contains(name[0]));
    }
    assert(crate::path::components(Seq::<u8>::empty()) =~= Seq::empty());
    assert(crate::path::components(name) =~= seq![name]);
    crate::path::lemma_join_segment(t.map[parent].path, name);
}

/// A call that may change the table.
pub enum Call {
    /// The number of a path is handed to the kernel.
    Look(Seq<u8>),
    /// The number of a path is looked at.
    Peek(Seq<u8>),
    /// The kernel gives up holds on a number.
    Forget(u64, u64),
    /// A path is removed.
    Remove(Seq<u8>),
    /// A path is removed with all that lies below it.
    Prune(Seq<u8>),
}

impl Call {
    /// The call may take its number from a path.
    pub open spec fn drops(self, path: Seq<u8>, ino: u64) -> bool {
        match self {
            Call::Forget(i, _) => i == ino,
            Call::Remove(p) => crate::path::components(p) == crate::path::components(path),
            Call::Prune(p) => crate::path::within(path, p),
            _ => false,
        }
    }
}

impl Inodes {
    /// The table after a call.
    pub open spec fn called(self, call: Call) -> Inodes {
        match call {
            Call::Look(path) => self.looked_up(path),
            Call::Peek(path) => self.peeked(path),
            Call::Forget(ino, n) => self.forgotten(ino, n),
            Call::Remove(path) => self.removed(path),
            Call::Prune(path) => self.pruned(path),
        }
    }

    /// The table after a run of calls.
    pub open spec fn ran(self, calls: Seq<Call>) -> Inodes
        decreases calls.len(),
    {
        if calls.len() == 0 {
            self
        } else {
            self.ran(calls.drop_last()).called(calls.last())
        }
    }

    /// The path has a number.
    pub open spec fn knows(self, path: Seq<u8>) -> bool {
        self.paths.contains_key(crate::path::components(path))
    }
}

/// So many calls can be made before numbers could run out.
pub open spec fn enough_numbers(calls: Seq<Call>) -> bool {
    calls.len() < 0xffff_ffff_ffff_fff0
}

proof fn lemma_call_counts(t: Inodes, call: Call, n: nat)
    requires
        t.coherent(),
        t.has_room(),
        t.map.dom().len() <= n + 1,
        t.next <= n + 2,
        n < 0xffff_ffff_ffff_fff0,
    ensures
        t.called(call).map.dom().len() <= n + 2,
        t.called(call).next <= n + 3,
        t.called(call).mode == t.mode,
{
    let u = t.called(call);
    let all = t.map.dom();
    match call {
        Call::Look(path) => {
            if t.knows(path) {
                assert(u.map.dom() =~= all);
            } else {
                assert(u.map.dom() =~= all.insert(t.new_ino(path)));
            }
        },
        Call::Peek(path) => {
            if !t.knows(path) {
                assert(u.map.dom() =~= all.insert(t.new_ino(path)));
            }
        },
        _ => {
            assert(u.map.dom().subset_of(all));
            vstd::set_lib::lemma_len_subset(u.map.dom(), all);
        },
    }
}

proof fn lemma_run_counts(mode: InodeMode, calls: Seq<Call>)
    requires
        enough_numbers(calls),
    ensures
        ({
            let t = Inodes::fresh(mode).ran(calls);
            &&& t.coherent()
            &&& t.has_room()
            &&& t.map.dom().len() <= calls.len() + 1
            &&& t.next <= calls.len() + 2
            &&& t.mode == mode
        }),
    decreases calls.len(),
{
    if calls.len() == 0 {
        law_fresh_coherent(mode);
        let t = Inodes::fresh(mode);
        assert(t.map.dom() =~= Set::empty().insert(ROOT_INO));
    } else {
        let front = calls.drop_last();
        lemma_run_counts(mode, front);
        let t = Inodes::fresh(mode).ran(front);
        lemma_call_counts(t, calls.last(), front.len());
        match calls.last() {
            Call::Look(path) => law_coherence_kept(t, path, 0, 0),
            Call::Peek(path) => law_coherence_kept(t, path, 0, 0),
            Call::Forget(ino, n) => law_coherence_kept(t, Seq::empty(), ino, n),
            Call::Remove(path) => law_coherence_kept(t, path, 0, 0),
            Call::Prune(path) => law_coherence_kept(t, path, 0, 0),
        }
    }
}

/// After any run of calls the number of a path that has one leads back to it, and two paths
/// never have the same number; a path that has none gets one that no other has.
pub proof fn law_any_run(mode: InodeMode, calls: Seq<Call>, path: Seq<u8>, other: Seq<u8>)
    requires
        enough_numbers(calls),
    ensures
        ({
            let t = Inodes::fresh(mode).ran(calls);
            &&& t.coherent()
            &&& t.knows(path) ==> (t.path_of(t.ino_of(path)) matches Some(p)
                && crate::path::components(p) == crate::path::components(path))
            &&& t.knows(other) && crate::path::components(path) != crate::path::components(other)
                ==> t.ino_of(path) != t.ino_of(other)
        }),
{
    lemma_run_counts(mode, calls);
    let t = Inodes::fresh(mode).ran(calls);
    if !t.knows(path) {
        lemma_new_ino_free(t, path);
    }
}

/// A path keeps its number over any run of calls that does not drop it, and the number its
/// path.
pub proof fn law_untouched_over_run(
    mode: InodeMode,
    calls: Seq<Call>,
    more: Seq<Call>,
    path: Seq<u8>,
)
    requires
        enough_numbers(calls + more),
        Inodes::fresh(mode).ran(calls).knows(path),
        forall|i: int|
            0 <= i < more.len() ==> !(#[trigger] more[i]).drops(
                path,
                Inodes::fresh(mode).ran(calls).ino_of(path),
            ),
    ensures
        ({
            let t = Inodes::fresh(mode).ran(calls);
            let u = Inodes::fresh(mode).ran(calls + more);
            &&& u.knows(path)
            &&& u.ino_of(path) == t.ino_of(path)
            &&& u.path_of(u.ino_of(path)) == t.path_of(t.ino_of(path))
        }),
    decreases more.len(),
{
    let t = Inodes::fresh(mode).ran(calls);
    if more.len() == 0 {
        assert(calls + more =~= calls);
        lemma_run_counts(mode, calls);
    } else {
        let front = more.drop_last();
        let call = more.last();
        assert((calls + more).drop_last() =~= calls + front);
        assert((calls + more).last() == call);
        assert forall|i: int| 0 <= i < front.len() implies !(#[trigger] front[i]).drops(
            path,
            t.ino_of(path),
        ) by {
            assert(front[i] == more[i]);
        }
        law_untouched_over_run(mode, calls, front, path);
        lemma_run_counts(mode, calls + front);
        let v = Inodes::fresh(mode).ran(calls + front);
        assert(!more[more.len() - 1].drops(path, t.ino_of(path)));
        match call {
            Call::Look(p) => {
                if !v.knows(p) {
                    lemma_new_ino_free(v, p);
                }
            },
            Call::Peek(p) => {
                if !v.knows(p) {
                    lemma_new_ino_free(v, p);
                }
            },
            Call::Forget(_, _) => {},
            Call::Remove(_) => {},
            Call::Prune(p) => {
                law_pruned_alone(v, p, path);
            },
        }
    }
}

/// A new table knows the root under its number, which the kernel holds once, and nothing
/// else.
pub proof fn law_fresh_table(mode: InodeMode, ino: u64, path: Seq<u8>)
    ensures
        Inodes::fresh(mode).path_of(1) == Some(Seq::<u8>::empty()),
        Inodes::fresh(mode).map[1].count == 1,
        Inodes::fresh(mode).ino_of(Seq::empty()) == 1,
        ino != 1 ==> Inodes::fresh(mode).path_of(ino) is None,
        Inodes::fresh(mode).knows(path) <==> crate::path::components(path).len() == 0,
        Inodes::fresh(mode).mode == mode,
        mode is Virtual && crate::path::components(path).len() > 0 ==> Inodes::fresh(mode).ino_of(
            path,
        ) == 2,
{
    assert(crate::path::components(Seq::<u8>::empty()) =~= Seq::empty());
    if crate::path::components(path).len() == 0 {
        assert(crate::path::components(path) =~= Seq::empty());
    }
}

/// Handing a number to the kernel counts one hold: the first for a path that had no number,
/// one more for one that had. Nothing is known otherwise of any other number.
pub proof fn law_lookup_counts(t: Inodes, path: Seq<u8>, other: u64)
    requires
        t.coherent(),
    ensures
        ({
            let ino = t.ino_of(path);
            let u = t.looked_up(path);
            &&& u.map.contains_key(ino)
            &&& !t.knows(path) ==> u.map[ino].count == 1 && u.map[ino].path == path
            &&& t.knows(path) ==> u.map[ino].path == t.map[ino].path && (t.map[ino].count
                < u64::MAX ==> u.map[ino].count == t.map[ino].count + 1)
            &&& other != ino ==> u.map.contains_key(other) == t.map.contains_key(other)
            &&& other != ino && t.map.contains_key(other) ==> u.map[other] == t.map[other]
        }),
{
}

/// Looking at the number of a path that had none gives it one that nobody holds. Nothing is
/// known otherwise of any other number.
pub proof fn law_peek_adds_unheld(t: Inodes, path: Seq<u8>, other: u64)
    requires
        t.coherent(),
        !t.knows(path),
    ensures
        ({
            let ino = t.ino_of(path);
            let u = t.peeked(path);
            &&& u.map.contains_key(ino) && u.map[ino].count == 0 && u.map[ino].path == path
            &&& !t.map.contains_key(ino)
            &&& other != ino ==> u.map.contains_key(other) == t.map.contains_key(other)
            &&& other != ino && t.map.contains_key(other) ==> u.map[other] == t.map[other]
        }),
{
    lemma_new_ino_free(t, path);
}

/// A number that is given up as often as it is held, or more often, is unknown then, and so
/// is its path; every other number stays as it is. An unknown number makes no difference.
pub proof fn law_forget_drops(t: Inodes, ino: u64, n: u64, other: u64)
    requires
        t.coherent(),
        ino != ROOT_INO,
        t.map.contains_key(ino) ==> t.map[ino].count <= n,
    ensures
        t.forgotten(ino, n).path_of(ino) is None,
        t.map.contains_key(ino) ==> !t.forgotten(ino, n).knows(t.map[ino].path),
        !t.map.contains_key(ino) ==> t.forgotten(ino, n) == t,
        other != ino ==> t.forgotten(ino, n).map.contains_key(other) == t.map.contains_key(other),
        other != ino && t.map.contains_key(other) ==> t.forgotten(ino, n).map[other]
            == t.map[other],
{
}

/// Giving up holds on one number makes no difference to any other.
pub proof fn law_forget_is_local(t: Inodes, ino: u64, n: u64, other: u64)
    requires
        other != ino,
    ensures
        t.forgotten(ino, n).map.contains_key(other) == t.map.contains_key(other),
        t.map.contains_key(other) ==> t.forgotten(ino, n).map[other] == t.map[other],
{
}

/// Removing a path that is not known makes no difference, nor does removing one to the holds
/// on any other.
pub proof fn law_removal_is_local(t: Inodes, path: Seq<u8>, other: u64)
    requires
        t.coherent(),
    ensures
        !t.knows(path) ==> t.removed(path) == t,
        t.map.contains_key(other) && crate::path::components(t.map[other].path)
            != crate::path::components(path) ==> t.removed(path).map.contains_key(other)
            && t.removed(path).map[other] == t.map[other],
        t.map.contains_key(other) && !crate::path::within(t.map[other].path, path) ==> t.pruned(
            path,
        ).map.contains_key(other) && t.pruned(path).map[other] == t.map[other],
        t.map.contains_key(other) && crate::path::within(t.map[other].path, path) ==> !t.pruned(
            path,
        ).map.contains_key(other),
{
    if t.map.contains_key(other) {
        law_pruned_alone(t, path, t.map[other].path);
    }
}

/// The hash of a path starts from a fixed number and takes in one byte after the other, to
/// the last; the numbers kept back are not used.
pub proof fn law_hash_of_path(path: Seq<u8>, byte: u8)
    ensures
        fnv1a(Seq::empty()) == 14695981039346656037,
        fnv1a(path.push(byte)) == (fnv1a(path) ^ byte as u64).wrapping_mul(1099511628211),
        fnv1a(path) >= 100 ==> hashed(path) == fnv1a(path),
        fnv1a(path) < 100 ==> hashed(path) == fnv1a(path) + 100,
{
    assert(path.push(byte).drop_last() =~= path);
}

proof fn lemma_first_usable_at(t: Inodes, path: Seq<u8>, base: u64, k: nat) -> (j: nat)
    requires
        t.coherent(),
        !t.knows(path),
        k < all_numbers(),
        forall|i: nat| i < k ==> t.map.contains_key(#[trigger] wrapped(base, i)),
    ensures
        k <= j < all_numbers(),
        t.first_usable(path, wrapped(base, k), (all_numbers() - k) as nat) == wrapped(base, j),
        !t.map.contains_key(wrapped(base, j)),
        forall|i: nat| i < j ==> t.map.contains_key(#[trigger] wrapped(base, i)),
    decreases all_numbers() - k,
{
    let c = wrapped(base, k);
    if t.map.contains_key(c) {
        assert(!t.usable(c, path));
        if k + 1 == all_numbers() {
            lemma_pigeonhole(t.map.dom(), base, all_numbers());
        }
        lemma_wrapped_step(base, k);
        lemma_first_usable_at(t, path, base, k + 1)
    } else {
        k
    }
}

/// Where another path holds the number that a path hashes to, it gets the next one that is
/// free, counting up and starting over behind the last.
pub proof fn law_collision(t: Inodes, path: Seq<u8>) -> (j: nat)
    requires
        t.coherent(),
        t.mode is Persistent,
        !t.knows(path),
    ensures
        t.ino_of(path) == (hashed(path) + j) % 0x1_0000_0000_0000_0000,
        !t.map.contains_key(t.ino_of(path)),
        forall|i: nat|
            i < j ==> t.map.contains_key(
                #[trigger] (((hashed(path) + i) % 0x1_0000_0000_0000_0000) as u64),
            ),
{
    let base = hashed(path);
    assert(wrapped(base, 0) == base);
    let j = lemma_first_usable_at(t, path, base, 0);
    assert forall|i: nat| i < j implies t.map.contains_key(
        #[trigger] (((base + i) % 0x1_0000_0000_0000_0000) as u64),
    ) by {
        assert(t.map.contains_key(wrapped(base, i)));
    }
    j
}

/// A name that is not that of a single entry stands for the directory itself: one with a
/// separator in it, `.`, `..` and the empty name. In an unknown directory a name is taken to
/// lie at the root.
pub proof fn law_child_of_odd_name(t: Inodes, parent: u64, name: Seq<u8>)
    ensures
        t.map.contains_key(parent) && (name.len() == 0 || name.contains(crate::path::SLASH) || name
            == seq![crate::path::DOT] || name == seq![crate::path::DOT, crate::path::DOT])
            ==> t.child(parent, name) == t.map[parent].path,
        !t.map.contains_key(parent) && crate::path::is_segment(name) && crate::path::is_normal(
            name,
        ) ==> t.child(parent, name) == name,
{
    crate::path::law_single_name(name);
    if crate::path::is_segment(name) && crate::path::is_normal(name) {
        assert(name.contains(name[0]));
        assert(Seq::<u8>::empty() + name =~= name);
    }
}

} // verus!
