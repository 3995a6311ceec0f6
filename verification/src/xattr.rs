//! Extended attributes.

use crate::errno::{ENODATA, ENOENT, ERANGE};
use crate::fuse_ops::OverlayOps;
use crate::layers::{LayerManager, Place};
use crate::overlay::OverlayFS;
use crate::path::{append_bytes, holds_bytes};
use crate::protocol::{
    Action, Answer, Flow, Layer, Load, Loaded, Mark, Meta, Reply, Spot, Stop, Tape, Which,
    World,
};
use crate::text::{text_bytes, to_lossy};
use vstd::prelude::*;

verus! {

/// The bytes after the last zero byte.
pub open spec fn unended(raw: Seq<u8>) -> Seq<u8>
    decreases raw.len(),
{
    if raw.len() == 0 || raw.last() == 0 {
        Seq::empty()
    } else {
        unended(raw.drop_last()).push(raw.last())
    }
}

/// The runs of bytes that a zero byte ends, in order.
pub open spec fn ended(raw: Seq<u8>) -> Seq<Seq<u8>>
    decreases raw.len(),
{
    if raw.len() == 0 {
        Seq::empty()
    } else if raw.last() == 0 {
        ended(raw.drop_last()).push(unended(raw.drop_last()))
    } else {
        ended(raw.drop_last())
    }
}

/// The texts of the names that are not empty.
pub open spec fn texts(names: Seq<Seq<u8>>) -> Seq<Seq<u8>>
    decreases names.len(),
{
    if names.len() == 0 {
        Seq::empty()
    } else if names.last().len() == 0 {
        texts(names.drop_last())
    } else {
        texts(names.drop_last()).push(crate::text::lossy(names.last()))
    }
}

/// The names in a list as the system gives it: runs of bytes with zero bytes between.
pub open spec fn parsed(raw: Seq<u8>) -> Seq<Seq<u8>> {
    texts(ended(raw).push(unended(raw)))
}

/// The names of one list, followed by those of another that are not among them.
pub open spec fn merged(names: Seq<Seq<u8>>, more: Seq<Seq<u8>>) -> Seq<Seq<u8>>
    decreases more.len(),
{
    if more.len() == 0 {
        names
    } else {
        let m = merged(names, more.drop_last());
        if m.contains(more.last()) {
            m
        } else {
            m.push(more.last())
        }
    }
}

/// Names as the system gives them: each ended by a zero byte.
pub open spec fn encoded(names: Seq<Seq<u8>>) -> Seq<u8>
    decreases names.len(),
{
    if names.len() == 0 {
        Seq::empty()
    } else {
        (encoded(names.drop_last()) + names.last()).push(0)
    }
}

/// Splits a list of names at its zero bytes: the runs that one ends, and the rest.
pub fn split_names(raw: &[u8]) -> (r: (Vec<Vec<u8>>, Vec<u8>))
    ensures
        crate::path::views(r.0@) == ended(raw@),
        r.1@ == unended(raw@),
{
    let mut out: Vec<Vec<u8>> = Vec::new();
    let mut run: Vec<u8> = Vec::new();
    let mut i: usize = 0;
    assert(raw@.take(0) =~= Seq::empty());
    assert(crate::path::views(out@) =~= Seq::empty());
    assert(run@ =~= Seq::empty());
    while i < raw.len()
        invariant
            i <= raw.len(),
            crate::path::views(out@) == ended(raw@.take(i as int)),
            run@ == unended(raw@.take(i as int)),
        decreases raw.len() - i,
    {
        let ghost next = raw@.take(i + 1);
        assert(next.drop_last() =~= raw@.take(i as int));
        assert(next.last() == raw@[i as int]);
        let b = raw[i];
        if b == 0 {
            let ghost was = out@;
            let done = run;
            out.push(done);
            run = Vec::new();
            assert(crate::path::views(out@) =~= crate::path::views(was).push(done@));
            assert(run@ =~= Seq::empty());
        } else {
            run.push(b);
        }
        i += 1;
    }
    assert(raw@.take(i as int) =~= raw@);
    (out, run)
}

/// The names in a list as the system gives it, as texts.
pub fn parse_names(raw: &[u8]) -> (r: Vec<Vec<u8>>)
    ensures
        crate::path::views(r@) == parsed(raw@),
{
    let (runs, rest) = split_names(raw);
    let mut all = runs;
    all.push(rest);
    let ghost names = ended(raw@).push(unended(raw@));
    assert(crate::path::views(all@) =~= names);
    let mut out: Vec<Vec<u8>> = Vec::new();
    let mut i: usize = 0;
    assert(names.take(0) =~= Seq::empty());
    assert(crate::path::views(out@) =~= Seq::empty());
    while i < all.len()
        invariant
            i <= all.len(),
            crate::path::views(all@) == names,
            names.len() == all@.len(),
            crate::path::views(out@) == texts(names.take(i as int)),
        decreases all.len() - i,
    {
        let ghost next = names.take(i + 1);
        assert(next.drop_last() =~= names.take(i as int));
        assert(next.last() == all@[i as int]@) by {
            assert(crate::path::views(all@)[i as int] == all@[i as int]@);
        }
        if all[i].len() > 0 {
            let text = to_lossy(all[i].as_slice());
            let ghost was = out@;
            out.push(text);
            assert(crate::path::views(out@) =~= crate::path::views(was).push(text@));
        }
        i += 1;
    }
    assert(names.take(i as int) =~= names);
    out
}

/// Adds to a list the names of another that it does not have.
fn merge_names(names: &mut Vec<Vec<u8>>, more: Vec<Vec<u8>>)
    ensures
        crate::path::views(final(names)@) == merged(
            crate::path::views(old(names)@),
            crate::path::views(more@),
        ),
{
    let ghost was = crate::path::views(names@);
    let ghost all = crate::path::views(more@);
    let mut i: usize = 0;
    assert(all.take(0) =~= Seq::empty());
    while i < more.len()
        invariant
            i <= more.len(),
            all == crate::path::views(more@),
            crate::path::views(names@) == merged(was, all.take(i as int)),
        decreases more.len() - i,
    {
        let ghost next = all.take(i + 1);
        assert(next.drop_last() =~= all.take(i as int));
        assert(next.last() == more@[i as int]@);
        if !holds_bytes(names, more[i].as_slice()) {
            let ghost before = names@;
            let name = crate::path::copy_range(more[i].as_slice(), 0, more[i].len());
            assert(name@ =~= more@[i as int]@);
            names.push(name);
            assert(crate::path::views(names@) =~= crate::path::views(before).push(name@));
        }
        i += 1;
    }
    assert(all.take(i as int) =~= all);
}

/// Names as the system gives them.
fn encode_names(names: &Vec<Vec<u8>>) -> (r: Vec<u8>)
    ensures
        r@ == encoded(crate::path::views(names@)),
{
    let ghost all = crate::path::views(names@);
    let mut out: Vec<u8> = Vec::new();
    let mut i: usize = 0;
    assert(all.take(0) =~= Seq::empty());
    assert(out@ =~= Seq::empty());
    while i < names.len()
        invariant
            i <= names.len(),
            all == crate::path::views(names@),
            out@ == encoded(all.take(i as int)),
        decreases names.len() - i,
    {
        let ghost next = all.take(i + 1);
        assert(next.drop_last() =~= all.take(i as int));
        assert(next.last() == names@[i as int]@);
        append_bytes(&mut out, names[i].as_slice());
        out.push(0);
        i += 1;
    }
    assert(all.take(i as int) =~= all);
    out
}

/// An answer about extended attributes: how long it would be, or the bytes of it.
pub enum XattrReply {
    Size(u32),
    Data(Vec<u8>),
}

/// The view of an answer about extended attributes.
pub enum XattrAnswer {
    Size(u32),
    Data(Seq<u8>),
}

impl View for XattrReply {
    type V = XattrAnswer;

    open spec fn view(&self) -> XattrAnswer {
        match self {
            XattrReply::Size(n) => XattrAnswer::Size(*n),
            XattrReply::Data(b) => XattrAnswer::Data(b@),
        }
    }
}

/// The name of the extended attribute that carries a mark.
pub fn mark_bytes(mark: Mark) -> (r: Vec<u8>)
    ensures
        r@ == crate::model::mark_name(mark),
{
    match mark {
        Mark::Trusted => text_bytes("trusted.overlay.opaque"),
        Mark::User => text_bytes("user.overlay.opaque"),
    }
}

/// The result of an operation agrees with a flow.
pub open spec fn agrees(flow: Flow<XattrAnswer>, r: Result<XattrReply, Stop>, w: World) -> bool {
    match r {
        Ok(x) => flow == Flow::Got(x@, w),
        Err(s) => flow == s.flow::<XattrAnswer>(w),
    }
}

impl OverlayOps {
    /// Sets an extended attribute of the first entry, which is brought up.
    pub open spec fn setting_xattr(place: Place, w: World) -> Flow<()> {
        LayerManager::promoting(place, Which::First, w).bind(
            |u: (), w: World| Action::SetXattr(Spot::upper(Which::First)).run(w),
        )
    }

    fn setxattr_steps(&self, t: &mut Tape, ino: u64) -> (r: Result<(), Stop>)
        ensures
            final(t).flow(r) == self.from_path(
                ino,
                old(t).world(),
                |path: Seq<u8>, w: World| Self::setting_xattr(LayerManager::place(path), w),
            ),
            crate::protocol::spares_lower(r),
    {
        let path = self.path(ino)?;
        self.layers.copy_on_write(t, &path, Which::First)?;
        t.run(Action::SetXattr(Spot::upper(Which::First)))
    }

    /// Sets an extended attribute. Its name and value are what goes out.
    pub fn setxattr(&self, t: &mut Tape, ino: u64, name: &[u8], value: &[u8]) -> (r: Result<
        (),
        Stop,
    >)
        ensures
            final(t).flow(r) == self.from_path(
                ino,
                old(t).world(),
                |path: Seq<u8>, w: World| Self::setting_xattr(LayerManager::place(path), w),
            ),
            final(t).load@ == (Loaded { name: name@, value: value@, ..Loaded::none() }),
            crate::protocol::spares_lower(r),
    {
        let r = self.setxattr_steps(t, ino);
        t.carry(Load::of_attribute(name, value));
        r
    }

    /// Removes an extended attribute of the first entry, which is brought up.
    pub open spec fn removing_xattr(place: Place, w: World) -> Flow<()> {
        LayerManager::promoting(place, Which::First, w).bind(
            |u: (), w: World| Action::RemoveXattr(Spot::upper(Which::First)).run(w),
        )
    }

    fn removexattr_steps(&self, t: &mut Tape, ino: u64) -> (r: Result<(), Stop>)
        ensures
            final(t).flow(r) == self.from_path(
                ino,
                old(t).world(),
                |path: Seq<u8>, w: World| Self::removing_xattr(LayerManager::place(path), w),
            ),
            crate::protocol::spares_lower(r),
    {
        let path = self.path(ino)?;
        self.layers.copy_on_write(t, &path, Which::First)?;
        t.run(Action::RemoveXattr(Spot::upper(Which::First)))
    }

    /// Removes an extended attribute. Its name is what goes out.
    pub fn removexattr(&self, t: &mut Tape, ino: u64, name: &[u8]) -> (r: Result<(), Stop>)
        ensures
            final(t).flow(r) == self.from_path(
                ino,
                old(t).world(),
                |path: Seq<u8>, w: World| Self::removing_xattr(LayerManager::place(path), w),
            ),
            final(t).load@ == (Loaded { name: name@, ..Loaded::none() }),
            crate::protocol::spares_lower(r),
    {
        let r = self.removexattr_steps(t, ino);
        t.carry(Load::of_attribute(name, &[]));
        r
    }

    /// The value of an extended attribute of an entry; its length, if no room is given.
    pub open spec fn valuing(s: Spot, size: u32, w: World) -> Flow<XattrAnswer> {
        if size == 0 {
            Action::XattrSize(s).count(w).bind(
                |n: i64, w: World| Flow::Got(XattrAnswer::Size(n as u32), w),
            )
        } else {
            Action::GetXattr(s, size).data(w).bind(
                |b: Seq<u8>, w: World| Flow::Got(XattrAnswer::Data(b), w),
            )
        }
    }

    /// The value of an extended attribute of the entry found under the first path.
    pub open spec fn getting_xattr(place: Place, size: u32, w: World) -> Flow<XattrAnswer> {
        LayerManager::resolving(place, Which::First, w).bind(
            |at: Option<Layer>, w: World|
                match at {
                    None => Flow::Fail(ENOENT, w),
                    Some(layer) => Self::valuing(Spot::entry(layer, Which::First), size, w),
                },
        )
    }

    fn getxattr_steps(&self, t: &mut Tape, ino: u64, size: u32) -> (r: Result<XattrReply, Stop>)
        ensures
            agrees(
                self.from_path(
                    ino,
                    old(t).world(),
                    |path: Seq<u8>, w: World|
                        Self::getting_xattr(LayerManager::place(path), size, w),
                ),
                r,
                final(t).world(),
            ),
            crate::protocol::spares_lower(r),
    {
        let path = self.path(ino)?;
        let layer = match self.layers.resolve(t, &path, Which::First)? {
            None => return Err(Stop::Fail(ENOENT)),
            Some(layer) => layer,
        };
        let s = Spot::entry(layer, Which::First);
        if size == 0 {
            let n = t.count(Action::XattrSize(s))?;
            Ok(XattrReply::Size(#[verifier::truncate] (n as u32)))
        } else {
            let b = t.data(Action::GetXattr(s, size))?;
            let c = crate::path::copy_range(b.as_slice(), 0, b.len());
            assert(c@ =~= b@);
            Ok(XattrReply::Data(c))
        }
    }

    /// The value of an extended attribute. Its name is what goes out.
    pub fn getxattr(&self, t: &mut Tape, ino: u64, name: &[u8], size: u32) -> (r: Result<
        XattrReply,
        Stop,
    >)
        ensures
            agrees(
                self.from_path(
                    ino,
                    old(t).world(),
                    |path: Seq<u8>, w: World|
                        Self::getting_xattr(LayerManager::place(path), size, w),
                ),
                r,
                final(t).world(),
            ),
            final(t).load@ == (Loaded { name: name@, ..Loaded::none() }),
            crate::protocol::spares_lower(r),
    {
        let r = self.getxattr_steps(t, ino, size);
        t.carry(Load::of_attribute(name, &[]));
        r
    }

    /// The other layer.
    pub open spec fn other_layer(layer: Layer) -> Layer {
        match layer {
            Layer::Upper => Layer::Lower,
            Layer::Lower => Layer::Upper,
        }
    }

    /// The names of the extended attributes of the entry found under the first path, and
    /// those of its counterpart in the other layer.
    pub open spec fn naming(place: Place, w: World) -> Flow<Seq<Seq<u8>>> {
        LayerManager::resolving(place, Which::First, w).bind(
            |at: Option<Layer>, w: World|
                match at {
                    None => Flow::Fail(ENOENT, w),
                    Some(layer) => Action::ListXattr(Spot::entry(layer, Which::First)).some_data(
                        w,
                    ).bind(
                        |raw: Seq<u8>, w: World|
                            Self::naming_more(
                                Spot::entry(Self::other_layer(layer), Which::First),
                                parsed(raw),
                                w,
                            ),
                    ),
                },
        )
    }

    /// Adds the names of another entry, if there is one.
    pub open spec fn naming_more(s: Spot, names: Seq<Seq<u8>>, w: World) -> Flow<Seq<Seq<u8>>> {
        Action::Lstat(s).probe(w).bind(
            |m: Option<Meta>, w: World|
                if m is Some {
                    Action::ListXattr(s).some_data(w).bind(
                        |raw: Seq<u8>, w: World| Flow::Got(merged(names, parsed(raw)), w),
                    )
                } else {
                    Flow::Got(names, w)
                },
        )
    }

    fn xattr_names(&self, t: &mut Tape, path: &crate::path::FsPath) -> (r: Result<
        Vec<Vec<u8>>,
        Stop,
    >)
        ensures
            ({
                let flow = Self::naming(LayerManager::place(path@), old(t).world());
                match r {
                    Ok(n) => flow == Flow::Got(crate::path::views(n@), final(t).world()),
                    Err(s) => flow == s.flow::<Seq<Seq<u8>>>(final(t).world()),
                }
            }),
            crate::protocol::spares_lower(r),
    {
        let layer = match self.layers.resolve(t, path, Which::First)? {
            None => return Err(Stop::Fail(ENOENT)),
            Some(layer) => layer,
        };
        let raw = t.some_data(Action::ListXattr(Spot::entry(layer, Which::First)))?;
        let mut names = parse_names(raw.as_slice());
        let other = match layer {
            Layer::Upper => Spot::lower(Which::First),
            Layer::Lower => Spot::upper(Which::First),
        };
        if t.probe(Action::Lstat(other))?.is_some() {
            let more = t.some_data(Action::ListXattr(other))?;
            merge_names(&mut names, parse_names(more.as_slice()));
        }
        Ok(names)
    }

    /// The answer with a list: its length if no room is given, `ERANGE` if the room is too
    /// small, else the list.
    pub open spec fn fitting(out: Seq<u8>, size: u32, w: World) -> Flow<XattrAnswer> {
        if size == 0 {
            Flow::Got(XattrAnswer::Size(out.len() as u32), w)
        } else if size < out.len() {
            Flow::Fail(ERANGE, w)
        } else {
            Flow::Got(XattrAnswer::Data(out), w)
        }
    }

    /// The names of the extended attributes of an entry.
    pub fn listxattr(&self, t: &mut Tape, ino: u64, size: u32) -> (r: Result<XattrReply, Stop>)
        ensures
            agrees(
                self.from_path(
                    ino,
                    old(t).world(),
                    |path: Seq<u8>, w: World|
                        Self::naming(LayerManager::place(path), w).bind(
                            |names: Seq<Seq<u8>>, w: World|
                                Self::fitting(encoded(names), size, w),
                        ),
                ),
                r,
                final(t).world(),
            ),
            crate::protocol::spares_lower(r),
    {
        let path = self.path(ino)?;
        let names = self.xattr_names(t, &path)?;
        let out = encode_names(&names);
        if size == 0 {
            Ok(XattrReply::Size(#[verifier::truncate] (out.len() as u32)))
        } else if (size as usize) < out.len() {
            Err(Stop::Fail(ERANGE))
        } else {
            Ok(XattrReply::Data(out))
        }
    }
}

/// A mark is set to `y`.
pub open spec fn marked(dir: Spot, mark: Mark, w: World) -> Flow<bool> {
    Action::ReadMark(dir, mark).some_data(w).bind(
        |b: Seq<u8>, w: World| Flow::Got(b == crate::model::mark_value(), w),
    )
}

/// Whether a directory of the upper layer replaces its counterpart below.
pub open spec fn sealed(dir: Spot, w: World) -> Flow<bool> {
    marked(dir, Mark::Trusted, w).bind(
        |yes: bool, w: World|
            if yes {
                Flow::Got(true, w)
            } else {
                marked(dir, Mark::User, w)
            },
    )
}

fn is_marked(t: &mut Tape, dir: Spot, mark: Mark) -> (r: Result<bool, Stop>)
    ensures
        final(t).flow(r) == marked(dir, mark, old(t).world()),
        crate::protocol::spares_lower(r),
        crate::protocol::spares_upper(r),
{
    let b = t.some_data(Action::ReadMark(dir, mark))?;
    proof {
        if b@.len() == 1 && b@[0] == 121 {
            assert(b@ =~= crate::model::mark_value());
        }
    }
    Ok(b.len() == 1 && b[0] == 121)
}

/// Whether a directory of the upper layer replaces its counterpart below.
pub fn is_opaque_dir(t: &mut Tape, dir: Spot) -> (r: Result<bool, Stop>)
    ensures
        final(t).flow(r) == sealed(dir, old(t).world()),
        crate::protocol::spares_lower(r),
        crate::protocol::spares_upper(r),
{
    if is_marked(t, dir, Mark::Trusted)? {
        return Ok(true);
    }
    is_marked(t, dir, Mark::User)
}

/// Leaves an attribute out whose value cannot be read because it is gone; any other failure
/// ends the copy.
pub open spec fn leaving_out(r: Answer, w: World) -> Flow<()> {
    if r == Answer::Failed(Some(ENODATA)) {
        Flow::Got((), w)
    } else {
        Flow::Fail(r.code(), w)
    }
}

/// Copies the value of the numbered attribute, which was found to have that length. If it
/// has grown since, its length is asked for once more.
pub open spec fn copying_value(k: usize, n: i64, w: World) -> Flow<()> {
    Action::NthValue(k, n).ask(w).bind(
        |r: Answer, w: World|
            match r {
                Answer::Data(_) => Action::SetNth(k).run(w),
                Answer::Failed(Some(c)) => if c == ERANGE {
                    copying_again(k, w)
                } else {
                    leaving_out(r, w)
                },
                _ => leaving_out(r, w),
            },
    )
}

/// Copies the value of the numbered attribute, once more.
pub open spec fn copying_again(k: usize, w: World) -> Flow<()> {
    Action::NthSize(k).ask(w).bind(
        |r: Answer, w: World|
            match r {
                Answer::Count(m) => if m > 0 {
                    Action::NthValue(k, m).ask(w).bind(
                        |r: Answer, w: World|
                            match r {
                                Answer::Data(_) => Action::SetNth(k).run(w),
                                _ => leaving_out(r, w),
                            },
                    )
                } else {
                    Action::SetNthEmpty(k).run(w)
                },
                _ => leaving_out(r, w),
            },
    )
}

/// Copies the numbered attribute. One that is gone is left out.
pub open spec fn copying_nth(k: usize, w: World) -> Flow<()> {
    Action::NthSize(k).ask(w).bind(
        |r: Answer, w: World|
            match r {
                Answer::Count(n) => if n > 0 {
                    copying_value(k, n, w)
                } else {
                    Action::SetNthEmpty(k).run(w)
                },
                _ => leaving_out(r, w),
            },
    )
}

/// Copies the attributes from number `k` up to number `n`.
pub open spec fn copying_from(k: nat, n: nat, w: World) -> Flow<()>
    decreases n - k,
{
    if k < n {
        match copying_nth(k as usize, w) {
            Flow::Got(_, v) => copying_from(k + 1, n, v),
            Flow::Fail(c, v) => Flow::Fail(c, v),
            Flow::Ask(a) => Flow::Ask(a),
        }
    } else {
        Flow::Got((), w)
    }
}

/// Copies all extended attributes of an entry, if it has any.
pub open spec fn copying_all(src: Spot, w: World) -> Flow<()> {
    Action::ListXattr(src).data(w).bind(
        |raw: Seq<u8>, w: World| copying_from(0, ended(raw).len(), w),
    )
}

fn leave_out(r: &Reply) -> (res: Result<(), Stop>)
    ensures
        forall|w: World|
            #[trigger] leaving_out(r@, w) == match res {
                Ok(_) => Flow::Got((), w),
                Err(s) => s.flow::<()>(w),
            },
        res matches Err(s) ==> s is Fail,
{
    match r {
        Reply::Failed(Some(c)) => {
            if *c == ENODATA {
                Ok(())
            } else {
                Err(Stop::Fail(*c))
            }
        },
        _ => Err(Stop::Fail(r.error_code())),
    }
}

fn copy_again(t: &mut Tape, k: usize) -> (r: Result<(), Stop>)
    ensures
        final(t).flow(r) == copying_again(k, old(t).world()),
{
    let reply = t.ask(Action::NthSize(k))?;
    match reply {
        Reply::Count(m) => {
            if *m <= 0 {
                return t.run(Action::SetNthEmpty(k));
            }
            let value = t.ask(Action::NthValue(k, *m))?;
            match value {
                Reply::Data(_) => t.run(Action::SetNth(k)),
                _ => leave_out(value),
            }
        },
        _ => leave_out(reply),
    }
}

fn copy_value(t: &mut Tape, k: usize, n: i64) -> (r: Result<(), Stop>)
    ensures
        final(t).flow(r) == copying_value(k, n, old(t).world()),
{
    let reply = t.ask(Action::NthValue(k, n))?;
    match reply {
        Reply::Data(_) => t.run(Action::SetNth(k)),
        Reply::Failed(Some(c)) => {
            if *c == ERANGE {
                copy_again(t, k)
            } else {
                leave_out(reply)
            }
        },
        _ => leave_out(reply),
    }
}

fn copy_nth(t: &mut Tape, k: usize) -> (r: Result<(), Stop>)
    ensures
        final(t).flow(r) == copying_nth(k, old(t).world()),
{
    let reply = t.ask(Action::NthSize(k))?;
    match reply {
        Reply::Count(n) => {
            if *n > 0 {
                copy_value(t, k, *n)
            } else {
                t.run(Action::SetNthEmpty(k))
            }
        },
        _ => leave_out(reply),
    }
}

impl OverlayFS {
    /// Copies all extended attributes of an entry.
    pub fn copy_xattrs(t: &mut Tape, src: Spot) -> (r: Result<(), Stop>)
        ensures
            final(t).flow(r) == copying_all(src, old(t).world()),
    {
        let raw = t.data(Action::ListXattr(src))?;
        let (names, _) = split_names(raw.as_slice());
        let n = names.len();
        let ghost start = t.world();
        assert(crate::path::views(names@).len() == n);
        let mut k: usize = 0;
        while k < n
            invariant
                k <= n,
                copying_from(0, n as nat, start) == copying_from(k as nat, n as nat, t.world()),
                n == ended(raw@).len(),
                copying_all(src, old(t).world()) == copying_from(0, n as nat, start),
            decreases n - k,
        {
            copy_nth(t, k)?;
            k += 1;
        }
        Ok(())
    }
}

} // verus!
