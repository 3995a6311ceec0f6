//! Going through a directory and all that lies below it, one directory at a time.

use crate::path::FsPath;
use crate::protocol::{DirItem, Named};
use vstd::prelude::*;

verus! {

/// How far a walk has got: the directories still to be entered, of which the last comes
/// next; the directory at hand, what it holds, and how many of its items are done.
#[verifier::ext_equal]
pub struct Progress {
    pub stack: Seq<Seq<u8>>,
    pub dir: Seq<u8>,
    pub items: Seq<Named>,
    pub at: int,
}

/// What a walk asks for next.
pub enum Next {
    /// The items of this directory.
    Enter(Seq<u8>),
    /// That the item at hand is dealt with.
    Visit(Seq<u8>, Named),
    /// Nothing: the walk is over.
    Done,
}

impl Progress {
    /// A walk that starts at a directory.
    pub open spec fn start(root: Seq<u8>) -> Progress {
        Progress { stack: seq![root], dir: root, items: Seq::empty(), at: 0 }
    }

    /// What the walk asks for.
    pub open spec fn next(self) -> Next {
        if self.at < self.items.len() {
            Next::Visit(self.dir, self.items[self.at])
        } else if self.stack.len() > 0 {
            Next::Enter(self.stack.last())
        } else {
            Next::Done
        }
    }

    /// The next directory is entered; it holds these items.
    pub open spec fn entered(self, items: Seq<Named>) -> Progress {
        Progress { stack: self.stack.drop_last(), dir: self.stack.last(), items, at: 0 }
    }

    /// The path of the item at hand.
    pub open spec fn path(self) -> Seq<u8> {
        crate::commit::item_paths(self.dir, self.items[self.at]).0
    }

    /// The item at hand is dealt with; if it is to be entered, that comes next.
    pub open spec fn visited(self, descend: bool) -> Progress {
        Progress {
            stack: if descend {
                self.stack.push(self.path())
            } else {
                self.stack
            },
            at: self.at + 1,
            ..self
        }
    }
}

/// What a walk asks for next.
pub enum WalkStep<'a> {
    /// The items of this directory.
    Enter(FsPath),
    /// That the item of this directory is dealt with.
    Visit(&'a FsPath, &'a DirItem),
    /// Nothing: the walk is over.
    Done,
}

impl<'a> View for WalkStep<'a> {
    type V = Next;

    open spec fn view(&self) -> Next {
        match self {
            WalkStep::Enter(p) => Next::Enter(p@),
            WalkStep::Visit(p, item) => Next::Visit(p@, item@),
            WalkStep::Done => Next::Done,
        }
    }
}

/// A walk through a directory and all that lies below it.
pub struct TreeWalk {
    stack: Vec<FsPath>,
    dir: FsPath,
    items: Vec<DirItem>,
    at: usize,
}

spec fn path_views(list: Seq<FsPath>) -> Seq<Seq<u8>> {
    Seq::new(list.len(), |i: int| list[i]@)
}

impl View for TreeWalk {
    type V = Progress;

    closed spec fn view(&self) -> Progress {
        Progress {
            stack: path_views(self.stack@),
            dir: self.dir@,
            items: crate::protocol::listed(self.items@),
            at: self.at as int,
        }
    }
}

impl TreeWalk {
    /// A walk that starts at a directory.
    pub fn new(root: &FsPath) -> (r: TreeWalk)
        ensures
            r@ == Progress::start(root@),
    {
        let mut stack: Vec<FsPath> = Vec::new();
        stack.push(root.clone());
        let r = TreeWalk { stack, dir: root.clone(), items: Vec::new(), at: 0 };
        assert(r@ =~= Progress::start(root@));
        r
    }

    /// What the walk asks for.
    pub fn next(&self) -> (r: WalkStep)
        ensures
            r@ == self@.next(),
    {
        assert(self@.items.len() == self.items@.len() && self@.stack.len() == self.stack@.len());
        if self.at < self.items.len() {
            WalkStep::Visit(&self.dir, &self.items[self.at])
        } else if self.stack.len() > 0 {
            WalkStep::Enter(self.stack[self.stack.len() - 1].clone())
        } else {
            WalkStep::Done
        }
    }

    /// The next directory is entered.
    pub fn enter(&mut self, items: Vec<DirItem>)
        requires
            old(self)@.next() is Enter,
        ensures
            final(self)@ == old(self)@.entered(crate::protocol::listed(items@)),
    {
        assert(self@.stack.len() == self.stack@.len());
        if let Some(dir) = self.stack.pop() {
            self.dir = dir;
        }
        self.items = items;
        self.at = 0;
        assert(self@ =~= old(self)@.entered(crate::protocol::listed(items@)));
    }

    /// The item at hand is dealt with.
    pub fn visited(&mut self, descend: bool)
        requires
            old(self)@.next() is Visit,
        ensures
            final(self)@ == old(self)@.visited(descend),
    {
        assert(self@.items.len() == self.items@.len());
        if descend {
            let (path, _) = crate::commit::commit_paths(&self.dir, &self.items[self.at]);
            self.stack.push(path);
            assert(path_views(self.stack@) =~= old(self)@.stack.push(path@));
        }
        assert(old(self).at < old(self).items.len());
        self.at = self.at + 1;
        assert(self@ =~= old(self)@.visited(descend));
    }
}

} // verus!
