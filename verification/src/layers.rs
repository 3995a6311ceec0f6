//! The two layers: where an overlay path is found, how it is hidden, and how it is brought
//! up to be written.

use crate::errno::ENOENT;
use crate::files::OverlayFiles;
use crate::path::{append_bytes, FsPath};
use crate::protocol::{
    Action, Answer, FileKind, Flow, Item, Layer, Meta, Reply, Spot, Stop, Tape, TimeSet, Which,
    World,
};
use crate::text::{text_bytes, to_lossy};
use crate::xattr::is_opaque_dir;
use vstd::prelude::*;

verus! {

/// What the name of a marker that hides an entry starts with.
pub const WH_PREFIX: &'static str = ".wh.";

/// The bytes that the name of a marker starts with.
pub open spec fn wh_prefix() -> Seq<u8> {
    vstd::utf8::encode_utf8(WH_PREFIX@)
}

/// The bytes that the name of a marker starts with.
pub fn wh_bytes() -> (r: Vec<u8>)
    ensures
        r@ == wh_prefix(),
{
    text_bytes(WH_PREFIX)
}

/// What finding a path depends on besides what is there: whether it names an entry, so that
/// a marker can hide it, and how many directories lie above it.
pub struct Place {
    pub named: bool,
    pub depth: nat,
}

/// The stacked layers of an overlay.
pub struct LayerManager {
    pub backend: OverlayFiles,
}

impl LayerManager {
    /// Whether a path names an entry of a directory, so that a marker can hide it.
    pub open spec fn named(rel: Seq<u8>) -> bool {
        crate::path::file_name(rel) is Some
    }

    /// What finding a path depends on besides what is there.
    pub open spec fn place(rel: Seq<u8>) -> Place {
        Place { named: Self::named(rel), depth: crate::path::components(rel).len() }
    }

    /// Where the marker for a path lies, in the given upper directory.
    pub open spec fn whiteout_at(upper: Seq<u8>, rel: Seq<u8>) -> Option<Seq<u8>> {
        match (crate::path::parent(rel), crate::path::file_name(rel)) {
            (Some(dir), Some(name)) => Some(
                crate::path::join(
                    crate::path::join(upper, dir),
                    wh_prefix() + crate::text::lossy(name),
                ),
            ),
            _ => None,
        }
    }

    /// Whether a marker hides the path.
    pub open spec fn hiding(named: bool, which: Which, w: World) -> Flow<bool> {
        if named {
            Action::Lstat(Spot::whiteout(which)).probe(w).bind(
                |m: Option<Meta>, w: World| Flow::Got(m is Some, w),
            )
        } else {
            Flow::Got(false, w)
        }
    }

    /// Whether a directory of the upper layer above the path, from the `k`-th of `n` on,
    /// replaces its counterpart in the lower layer.
    pub open spec fn covering(which: Which, k: nat, n: nat, w: World) -> Flow<bool>
        decreases n - k,
    {
        if k >= n {
            Flow::Got(false, w)
        } else {
            match crate::xattr::sealed(Spot::above(which, k as usize), w) {
                Flow::Got(yes, v) => if yes {
                    Flow::Got(true, v)
                } else {
                    Self::covering(which, k + 1, n, v)
                },
                Flow::Fail(c, v) => Flow::Fail(c, v),
                Flow::Ask(a) => Flow::Ask(a),
            }
        }
    }

    /// Where an entry of the lower layer is found that nothing hides by itself: nowhere if
    /// a directory above it replaces its counterpart.
    pub open spec fn uncovering(which: Which, depth: nat, w: World) -> Flow<Option<Layer>> {
        Self::covering(which, 0, depth, w).bind(
            |covered: bool, w: World|
                if covered {
                    Flow::Got(None, w)
                } else {
                    Flow::Got(Some(Layer::Lower), w)
                },
        )
    }

    /// The layer in which a path is found: the upper one first, and none if it is hidden or
    /// if a directory above it replaces its counterpart in the lower layer.
    pub open spec fn resolving(place: Place, which: Which, w: World) -> Flow<Option<Layer>> {
        Self::hiding(place.named, which, w).bind(
            |hidden: bool, w: World|
                if hidden {
                    Flow::Got(None, w)
                } else {
                    Action::Lstat(Spot::upper(which)).probe(w).bind(
                        |up: Option<Meta>, w: World|
                            if up is Some {
                                Flow::Got(Some(Layer::Upper), w)
                            } else {
                                Action::Lstat(Spot::lower(which)).probe(w).bind(
                                    |low: Option<Meta>, w: World|
                                        if low is Some {
                                            Self::uncovering(which, place.depth, w)
                                        } else {
                                            Flow::Got(None, w)
                                        },
                                )
                            },
                    )
                },
        )
    }

    /// Hides a path.
    pub open spec fn whiting_out(named: bool, which: Which, w: World) -> Flow<()> {
        if named {
            Action::MakeParents(Spot::whiteout(which)).run(w).bind(
                |u: (), w: World| Action::CreateFile(Spot::whiteout(which)).run(w),
            )
        } else {
            Flow::Got((), w)
        }
    }

    /// Stops hiding a path, if it was hidden.
    pub open spec fn clearing(named: bool, which: Which, w: World) -> Flow<()> {
        if named {
            Action::RemoveFile(Spot::whiteout(which)).attempt(w)
        } else {
            Flow::Got((), w)
        }
    }

    /// Stops hiding a path; ends with an error if its marker is there but cannot be removed.
    pub open spec fn unhiding(named: bool, which: Which, w: World) -> Flow<()> {
        if named {
            Action::RemoveFile(Spot::whiteout(which)).ask(w).bind(
                |r: Answer, w: World|
                    if r is Done || r == Answer::Failed(Some(ENOENT)) {
                        Flow::Got((), w)
                    } else {
                        Flow::Fail(r.code(), w)
                    },
            )
        } else {
            Flow::Got((), w)
        }
    }

    /// Creates the upper entry after the lower one, whose metadata is given: a link to the
    /// same target, an empty directory, or a file with the same content.
    pub open spec fn duplicating(which: Which, meta: Meta, w: World) -> Flow<()> {
        let up = Spot::upper(which);
        let low = Spot::lower(which);
        if meta.kind is Symlink {
            Action::ReadLink(low).data(w).bind(
                |target: Seq<u8>, w: World| Action::MakeLink(up).run(w),
            )
        } else if meta.kind is Directory {
            Action::MakeDirs(up).run(w).bind(
                |u: (), w: World| Action::SetMode(up, meta.mode).run(w),
            )
        } else {
            Action::CopyFile(low, up).run(w).bind(
                |u: (), w: World| Action::SetMode(up, meta.mode).run(w),
            )
        }
    }

    /// Creates the upper entry after the lower one and gives it the times, the owner and
    /// the extended attributes of that.
    pub open spec fn carrying(which: Which, meta: Meta, w: World) -> Flow<()> {
        let up = Spot::upper(which);
        let low = Spot::lower(which);
        Self::duplicating(which, meta, w).bind(
            |u: (), w: World|
                Action::SetTimes(up, TimeSet::At(meta.atime), TimeSet::At(meta.mtime)).attempt(
                    w,
                ).bind(
                    |u: (), w: World|
                        Action::SetOwner(up, meta.uid, meta.gid).attempt(w).bind(
                            |u: (), w: World| Action::CopyXattrs(low, up).run(w),
                        ),
                ),
        )
    }

    /// Makes sure that the upper layer has its own entry for the path.
    pub open spec fn promoting(place: Place, which: Which, w: World) -> Flow<()> {
        let up = Spot::upper(which);
        let low = Spot::lower(which);
        Self::resolving(place, which, w).bind(
            |at: Option<Layer>, w: World|
                match at {
                    None => Flow::Fail(ENOENT, w),
                    Some(Layer::Upper) => Flow::Got((), w),
                    Some(Layer::Lower) => Action::MakeParents(up).run(w).bind(
                        |u: (), w: World|
                            Action::Lstat(low).meta(w).bind(
                                |meta: Meta, w: World| Self::carrying(which, meta, w),
                            ),
                    ),
                },
        )
    }

    /// The layers of the given directories.
    pub fn new(backend: OverlayFiles) -> (r: LayerManager)
        ensures
            r.backend == backend,
    {
        LayerManager { backend }
    }

    /// The path of an entry in a layer.
    pub fn entry_path(&self, layer: Layer, rel: &FsPath) -> (r: FsPath)
        ensures
            layer is Upper ==> r@ == crate::path::join(self.backend.upper@, rel@),
            layer is Lower ==> r@ == crate::path::join(self.backend.lower@, rel@),
    {
        match layer {
            Layer::Upper => self.backend.upper.join(rel.bytes.as_slice()),
            Layer::Lower => self.backend.lower.join(rel.bytes.as_slice()),
        }
    }

    /// The path of the marker that hides an entry; a path that names none has none.
    pub fn whiteout_path(&self, rel: &FsPath) -> (r: Option<FsPath>)
        ensures
            r is Some <==> Self::whiteout_at(self.backend.upper@, rel@) is Some,
            r matches Some(p) ==> Some(p@) == Self::whiteout_at(self.backend.upper@, rel@),
    {
        match (rel.parent(), rel.file_name()) {
            (Some(dir), Some(name)) => {
                let mut marker = wh_bytes();
                append_bytes(&mut marker, to_lossy(name.as_slice()).as_slice());
                Some(self.backend.upper.join(dir.bytes.as_slice()).join(marker.as_slice()))
            },
            _ => None,
        }
    }

    /// The path of a directory of the upper layer above an entry: the one that holds it, or
    /// the one that many levels further up.
    pub fn above_path(&self, rel: &FsPath, k: usize) -> (r: FsPath)
        ensures
            r@ == crate::path::join(
                self.backend.upper@,
                crate::path::ancestor(rel@, (k + 1) as nat),
            ),
    {
        self.backend.upper.join(rel.ancestor(k).bytes.as_slice())
    }

    /// Where a place lies, if the operation is about the two given paths. A marker and a
    /// directory above an entry are always those of the upper layer; a path that names no
    /// entry has no marker.
    pub open spec fn spot_at(self, s: Spot, first: Seq<u8>, second: Seq<u8>) -> Option<Seq<u8>> {
        let rel = if s.which is First {
            first
        } else {
            second
        };
        let upper = self.backend.upper@;
        match s.item {
            Item::Entry => Some(
                crate::path::join(
                    if s.layer is Upper {
                        upper
                    } else {
                        self.backend.lower@
                    },
                    rel,
                ),
            ),
            Item::Whiteout => Self::whiteout_at(upper, rel),
            Item::Above(k) => Some(
                crate::path::join(upper, crate::path::ancestor(rel, (k + 1) as nat)),
            ),
        }
    }

    /// The path of a place, if the operation is about the two given paths.
    pub fn spot_path(&self, s: Spot, first: &FsPath, second: &FsPath) -> (r: Option<FsPath>)
        ensures
            r is Some <==> self.spot_at(s, first@, second@) is Some,
            r matches Some(p) ==> Some(p@) == self.spot_at(s, first@, second@),
    {
        let rel = match s.which {
            Which::First => first,
            Which::Second => second,
        };
        match s.item {
            Item::Entry => Some(self.entry_path(s.layer, rel)),
            Item::Whiteout => self.whiteout_path(rel),
            Item::Above(k) => Some(self.above_path(rel, k)),
        }
    }

    /// Whether a marker hides the path.
    pub fn is_hidden(&self, t: &mut Tape, rel: &FsPath, which: Which) -> (r: Result<bool, Stop>)
        ensures
            final(t).flow(r) == Self::hiding(Self::named(rel@), which, old(t).world()),
            crate::protocol::spares_lower(r),
    {
        if rel.file_name().is_none() {
            return Ok(false);
        }
        let m = t.probe(Action::Lstat(Spot::whiteout(which)))?;
        Ok(m.is_some())
    }

    /// Whether a directory of the upper layer above the path replaces its counterpart in the
    /// lower layer, so that nothing of the lower layer is found below it.
    pub fn is_covered(&self, t: &mut Tape, rel: &FsPath, which: Which) -> (r: Result<bool, Stop>)
        ensures
            final(t).flow(r) == Self::covering(which, 0, Self::place(rel@).depth, old(t).world()),
            crate::protocol::spares_lower(r),
    {
        let c = rel.components();
        let n = c.len();
        assert(crate::path::views(c@).len() == n);
        let ghost start = t.world();
        let mut k: usize = 0;
        while k < n
            invariant
                k <= n,
                Self::covering(which, 0, n as nat, start) == Self::covering(
                    which,
                    k as nat,
                    n as nat,
                    t.world(),
                ),
                start == old(t).world(),
                n == Self::place(rel@).depth,
            decreases n - k,
        {
            if is_opaque_dir(t, Spot::above(which, k))? {
                return Ok(true);
            }
            k += 1;
        }
        Ok(false)
    }

    /// The layer in which a path is found. A link that leads nowhere is found like any
    /// other entry.
    pub fn resolve(&self, t: &mut Tape, rel: &FsPath, which: Which) -> (r: Result<
        Option<Layer>,
        Stop,
    >)
        ensures
            final(t).flow(r) == Self::resolving(Self::place(rel@), which, old(t).world()),
            crate::protocol::spares_lower(r),
    {
        if self.is_hidden(t, rel, which)? {
            return Ok(None);
        }
        if t.probe(Action::Lstat(Spot::upper(which)))?.is_some() {
            return Ok(Some(Layer::Upper));
        }
        if t.probe(Action::Lstat(Spot::lower(which)))?.is_none() {
            return Ok(None);
        }
        if self.is_covered(t, rel, which)? {
            Ok(None)
        } else {
            Ok(Some(Layer::Lower))
        }
    }

    /// Hides a path.
    pub fn create_whiteout(&self, t: &mut Tape, rel: &FsPath, which: Which) -> (r: Result<(), Stop>)
        ensures
            final(t).flow(r) == Self::whiting_out(Self::named(rel@), which, old(t).world()),
            crate::protocol::spares_lower(r),
    {
        if rel.file_name().is_some() {
            t.run(Action::MakeParents(Spot::whiteout(which)))?;
            t.run(Action::CreateFile(Spot::whiteout(which)))?;
        }
        Ok(())
    }

    /// Stops hiding a path, if it was hidden.
    pub fn clear_whiteout(&self, t: &mut Tape, rel: &FsPath, which: Which) -> (r: Result<(), Stop>)
        ensures
            final(t).flow(r) == Self::clearing(Self::named(rel@), which, old(t).world()),
            crate::protocol::spares_lower(r),
    {
        if rel.file_name().is_some() {
            t.attempt(Action::RemoveFile(Spot::whiteout(which)))?;
        }
        Ok(())
    }

    /// Stops hiding a path, or says why that cannot be done.
    pub fn unhide(&self, t: &mut Tape, rel: &FsPath, which: Which) -> (r: Result<(), Stop>)
        ensures
            final(t).flow(r) == Self::unhiding(Self::named(rel@), which, old(t).world()),
            crate::protocol::spares_lower(r),
    {
        if rel.file_name().is_some() {
            let reply = t.ask(Action::RemoveFile(Spot::whiteout(which)))?;
            match reply {
                Reply::Done => {},
                Reply::Failed(Some(c)) => {
                    if *c != ENOENT {
                        return Err(Stop::Fail(*c));
                    }
                },
                _ => {
                    return Err(Stop::Fail(reply.error_code()));
                },
            }
        }
        Ok(())
    }

    fn duplicate(&self, t: &mut Tape, which: Which, meta: Meta) -> (r: Result<(), Stop>)
        ensures
            final(t).flow(r) == Self::duplicating(which, meta, old(t).world()),
            crate::protocol::spares_lower(r),
    {
        let up = Spot::upper(which);
        let low = Spot::lower(which);
        match meta.kind {
            FileKind::Symlink => {
                t.data(Action::ReadLink(low))?;
                t.run(Action::MakeLink(up))
            },
            FileKind::Directory => {
                t.run(Action::MakeDirs(up))?;
                t.run(Action::SetMode(up, meta.mode))
            },
            _ => {
                t.run(Action::CopyFile(low, up))?;
                t.run(Action::SetMode(up, meta.mode))
            },
        }
    }

    /// Creates the upper entry after the lower one, whose metadata is given.
    pub fn carry(&self, t: &mut Tape, which: Which, meta: Meta) -> (r: Result<(), Stop>)
        ensures
            final(t).flow(r) == Self::carrying(which, meta, old(t).world()),
            crate::protocol::spares_lower(r),
    {
        let up = Spot::upper(which);
        self.duplicate(t, which, meta)?;
        t.attempt(Action::SetTimes(up, TimeSet::At(meta.atime), TimeSet::At(meta.mtime)))?;
        t.attempt(Action::SetOwner(up, meta.uid, meta.gid))?;
        t.run(Action::CopyXattrs(Spot::lower(which), up))
    }

    /// Makes sure that the upper layer has its own entry for the path: a lower file is
    /// copied, a lower link made anew without following it, a lower directory made anew
    /// without what it holds. Permissions, owner, times and extended attributes are taken
    /// over.
    pub fn copy_on_write(&self, t: &mut Tape, rel: &FsPath, which: Which) -> (r: Result<(), Stop>)
        ensures
            final(t).flow(r) == Self::promoting(Self::place(rel@), which, old(t).world()),
            crate::protocol::spares_lower(r),
    {
        match self.resolve(t, rel, which)? {
            None => Err(Stop::Fail(ENOENT)),
            Some(Layer::Upper) => Ok(()),
            Some(Layer::Lower) => {
                t.run(Action::MakeParents(Spot::upper(which)))?;
                let meta = t.meta(Action::Lstat(Spot::lower(which)))?;
                self.carry(t, which, meta)
            },
        }
    }
}

} // verus!
