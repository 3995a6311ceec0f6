//! Requests to the host filesystem, its replies, and how an operation consumes them.
//!
//! An operation never touches the disk itself. It is a function from the replies received
//! so far to the next request, to an error code, or to its result; whoever drives it
//! performs the request, appends the reply and calls it again.
//!
//! What an operation asks and concludes is stated once, as a [`Flow`] over a [`World`].
//! On a record of replies the flow is what the executable code does, step by step; on a
//! model of the disk it is what the operation brings about.

use crate::errno::EIO;
use crate::model::Disk;
use crate::path::copy_range;
use vstd::prelude::*;

verus! {

/// One of the two stacked directories.
#[derive(Clone, Copy, PartialEq, Eq, Structural, Debug)]
pub enum Layer {
    Lower,
    Upper,
}

/// One of the at most two overlay paths that an operation is about.
#[derive(Clone, Copy, PartialEq, Eq, Structural, Debug)]
pub enum Which {
    First,
    Second,
}

/// The entry itself, the marker that hides it, or a directory above it: the one that holds
/// it, or the one that many levels further up.
#[derive(Clone, Copy, PartialEq, Eq, Structural, Debug)]
pub enum Item {
    Entry,
    Whiteout,
    Above(usize),
}

/// A place on disk, relative to the paths that an operation is about.
#[derive(Clone, Copy, PartialEq, Eq, Structural, Debug)]
pub struct Spot {
    pub layer: Layer,
    pub which: Which,
    pub item: Item,
}

impl Spot {
    /// The entry in the given layer.
    #[verifier::allow_in_spec]
    pub fn entry(layer: Layer, which: Which) -> Spot
        returns
            (Spot { layer, which, item: Item::Entry }),
    {
        Spot { layer, which, item: Item::Entry }
    }

    /// The entry in the upper layer.
    #[verifier::allow_in_spec]
    pub fn upper(which: Which) -> Spot
        returns
            (Spot { layer: Layer::Upper, which, item: Item::Entry }),
    {
        Spot { layer: Layer::Upper, which, item: Item::Entry }
    }

    /// The entry in the lower layer.
    #[verifier::allow_in_spec]
    pub fn lower(which: Which) -> Spot
        returns
            (Spot { layer: Layer::Lower, which, item: Item::Entry }),
    {
        Spot { layer: Layer::Lower, which, item: Item::Entry }
    }

    /// A directory of the upper layer above the entry.
    #[verifier::allow_in_spec]
    pub fn above(which: Which, k: usize) -> Spot
        returns
            (Spot { layer: Layer::Upper, which, item: Item::Above(k) }),
    {
        Spot { layer: Layer::Upper, which, item: Item::Above(k) }
    }

    /// The marker in the upper layer that hides the entry.
    #[verifier::allow_in_spec]
    pub fn whiteout(which: Which) -> Spot
        returns
            (Spot { layer: Layer::Upper, which, item: Item::Whiteout }),
    {
        Spot { layer: Layer::Upper, which, item: Item::Whiteout }
    }
}

/// The two extended attributes that mark a directory as replacing its counterpart below:
/// the one that the kernel uses, and the one that needs no privilege.
#[derive(Clone, Copy, PartialEq, Eq, Structural, Debug)]
pub enum Mark {
    Trusted,
    User,
}

/// One of the directories that the life of an overlay is about.
#[derive(Clone, Copy, PartialEq, Eq, Structural, Debug)]
pub enum Site {
    Lower,
    Upper,
    MountPoint,
    /// The directory that holds the mount point.
    MountParent,
    /// The copy of the lower directory that a commit prepares.
    NewLower,
    /// The lower directory set aside while the copy takes its place.
    Backup,
}

/// The type of a directory entry.
#[derive(Clone, Copy, PartialEq, Eq, Structural, Debug)]
pub enum FileKind {
    Directory,
    Symlink,
    NamedPipe,
    Socket,
    CharDevice,
    BlockDevice,
    RegularFile,
}

/// A point in time, in seconds and nanoseconds since the epoch.
#[derive(Clone, Copy, PartialEq, Eq, Structural, Debug)]
pub struct Stamp {
    pub secs: i64,
    pub nanos: i64,
}

/// A time to set: none, the moment of the call, or a given one.
#[derive(Clone, Copy, PartialEq, Eq, Structural, Debug)]
pub enum TimeSet {
    /// The time stays as it is.
    Keep,
    Now,
    At(Stamp),
}

/// What the host filesystem knows of an entry.
#[derive(Clone, Copy, PartialEq, Eq, Structural, Debug)]
pub struct Meta {
    pub kind: FileKind,
    pub mode: u32,
    pub size: u64,
    pub blocks: u64,
    pub nlink: u64,
    pub uid: u32,
    pub gid: u32,
    pub rdev: u64,
    pub blksize: u64,
    pub atime: Stamp,
    pub mtime: Stamp,
    pub ctime: i64,
}

/// The size and the fill of a filesystem.
#[derive(Clone, Copy, PartialEq, Eq, Structural, Debug)]
pub struct Space {
    pub blocks: u64,
    pub bfree: u64,
    pub bavail: u64,
    pub files: u64,
    pub ffree: u64,
    pub bsize: u64,
    pub namemax: u64,
    pub frsize: u64,
}

/// What reading a directory yields, item by item: a name with the type of its entry, or
/// the code of the error in its place.
pub enum DirItem {
    Entry(Vec<u8>, Result<FileKind, i32>),
    Broken(i32),
}

/// The view of an item of a directory.
pub enum Named {
    Entry(Seq<u8>, Result<FileKind, i32>),
    Broken(i32),
}

impl View for DirItem {
    type V = Named;

    open spec fn view(&self) -> Named {
        match self {
            DirItem::Entry(name, kind) => Named::Entry(name@, *kind),
            DirItem::Broken(c) => Named::Broken(*c),
        }
    }
}

/// The views of the items of a directory.
pub open spec fn listed(items: Seq<DirItem>) -> Seq<Named> {
    Seq::new(items.len(), |i: int| items[i]@)
}

/// A request to the host filesystem.
#[derive(Clone, Copy, PartialEq, Eq, Structural, Debug)]
pub enum Action {
    /// Metadata of the entry itself.
    Lstat(Spot),
    /// Metadata of what the entry leads to.
    Stat(Spot),
    /// What a directory holds.
    ReadDir(Spot),
    /// Create every missing directory above the place.
    MakeParents(Spot),
    /// Create a directory where nothing is yet.
    MakeDir(Spot),
    /// Create a directory and every missing one above it.
    MakeDirs(Spot),
    /// Create a file, or empty the one that is there.
    CreateFile(Spot),
    /// Create a node with the given mode and device.
    MakeNode(Spot, u32, u32),
    /// The target of a symbolic link.
    ReadLink(Spot),
    /// Create a symbolic link to the target that was read last, else to the one that goes out
    /// with the request.
    MakeLink(Spot),
    /// Copy the content and the permissions of a file.
    CopyFile(Spot, Spot),
    /// Copy a directory with all that it holds; to one that is there, all that is seen in it
    /// and that it does not have.
    CopyTree(Spot, Spot),
    /// Copy the extended attributes of an entry.
    CopyXattrs(Spot, Spot),
    /// Remove an entry that is no directory.
    RemoveFile(Spot),
    /// Remove a directory with all that it holds.
    RemoveTree(Spot),
    /// Remove all that a directory holds.
    EmptyDir(Spot),
    /// Move an entry.
    Rename(Spot, Spot),
    /// Give an entry a second name.
    HardLink(Spot, Spot),
    /// Set the permissions of what the entry leads to.
    SetMode(Spot, u32),
    /// Set user and group of the entry itself; the largest number leaves one as it is.
    SetOwner(Spot, u32, u32),
    /// Set access and modification time of the entry itself.
    SetTimes(Spot, TimeSet, TimeSet),
    /// Set the length of a file.
    SetLen(Spot, u64),
    /// The value of a mark, of at most two bytes.
    ReadMark(Spot, Mark),
    /// Set a mark.
    SetMark(Spot, Mark),
    /// Open for reading.
    OpenRead(Spot),
    /// Open for writing, keeping the content.
    OpenWrite(Spot),
    /// Open for writing and empty the file.
    Truncate(Spot),
    /// Move to a position in the file opened last.
    SeekTo(u64),
    /// Read at most that many bytes from the file opened for reading.
    ReadSome(u32),
    /// Write the data that goes out with the request to the file opened for writing.
    WriteData,
    /// Flush the file opened for writing.
    SyncAll,
    /// Flush the file opened for writing; with `true`, its data alone.
    Fsync(bool),
    /// Change the allocation of the file opened for writing: offset, length and mode.
    Allocate(u64, u64, i32),
    /// Seek in the file opened for reading, as the host system defines it.
    SeekBy(i64, i32),
    /// Copy from the file opened for reading to the one opened for writing: both
    /// positions and the length.
    CopyRange(u64, u64, u64),
    /// Set the extended attribute that goes out with the request.
    SetXattr(Spot),
    /// The value of the extended attribute whose name goes out, of at most that many bytes.
    GetXattr(Spot, u32),
    /// The length of the value of the extended attribute whose name goes out.
    XattrSize(Spot),
    /// The names of the extended attributes, each ended by a zero byte.
    ListXattr(Spot),
    /// Remove the extended attribute whose name goes out.
    RemoveXattr(Spot),
    /// The length of the value of the numbered extended attribute of the source.
    NthSize(usize),
    /// The value of the numbered extended attribute of the source, of at most that many
    /// bytes.
    NthValue(usize, i64),
    /// Give the destination the numbered extended attribute, with the value just read.
    SetNth(usize),
    /// Give the destination the numbered extended attribute, with an empty value.
    SetNthEmpty(usize),
    /// The digest of the content of a file.
    Digest(Spot),
    /// The size and the fill of the filesystem of a layer.
    Space(Layer),
    /// Whether the directory is there.
    Exists(Site),
    /// The device that the directory lies on.
    Device(Site),
    /// Create the directory and every missing one above it.
    MakeSite(Site),
    /// Start to serve the mount point.
    Spawn,
    /// Stop to serve the mount point.
    EndSession,
    /// Wait for a tenth of a second.
    Pause,
    /// Unmount the mount point; with `true`, detach it even if it is busy.
    Unmount(bool),
    /// Remove the directory with all that it holds.
    RemoveSite(Site),
    /// Remove the directory, whatever it holds.
    Obliterate(Site),
    /// Copy the first directory to the second, with all that it holds.
    CloneSite(Site, Site),
    /// Merge the upper directory into the given one: prepare that, then deal with every item
    /// of a walk through the upper one.
    Merge(Site),
    /// Flush the directory.
    SyncSite(Site),
    /// Move the first directory to the second.
    MoveSite(Site, Site),
    /// Tell the user that the commit failed.
    Report,
}

/// The reply to a request.
pub enum Reply {
    Done,
    /// The request failed, with the code that the system gave for it, if it gave one.
    Failed(Option<i32>),
    Meta(Meta),
    Names(Vec<DirItem>),
    Data(Vec<u8>),
    Count(i64),
    Space(Space),
}

/// The view of a reply.
pub enum Answer {
    Done,
    Failed(Option<i32>),
    Meta(Meta),
    Names(Seq<Named>),
    Data(Seq<u8>),
    Count(i64),
    Space(Space),
}

impl View for Reply {
    type V = Answer;

    open spec fn view(&self) -> Answer {
        match self {
            Reply::Done => Answer::Done,
            Reply::Failed(c) => Answer::Failed(*c),
            Reply::Meta(m) => Answer::Meta(*m),
            Reply::Names(n) => Answer::Names(listed(n@)),
            Reply::Data(b) => Answer::Data(b@),
            Reply::Count(n) => Answer::Count(*n),
            Reply::Space(s) => Answer::Space(*s),
        }
    }
}

/// The views of a record of replies.
pub open spec fn answers(replies: Seq<Reply>) -> Seq<Answer> {
    Seq::new(replies.len(), |i: int| replies[i]@)
}

impl Answer {
    /// The error code of a reply that is not the expected one: the one that the system
    /// gave, else `EIO`.
    pub open spec fn code(self) -> i32 {
        match self {
            Answer::Failed(Some(c)) => c,
            _ => EIO,
        }
    }
}

impl Reply {
    /// The error code of a reply that is not the expected one.
    pub fn error_code(&self) -> (r: i32)
        ensures
            r == self@.code(),
    {
        match self {
            Reply::Failed(Some(c)) => *c,
            _ => EIO,
        }
    }
}

/// Where the replies come from: a record of them, or a model of the disk.
pub enum World {
    Tape(Seq<Answer>, int),
    Disk(Disk),
}

/// How far an operation gets: to a request that has no reply yet, to an error code, or to
/// a result.
pub enum Flow<T> {
    Ask(Action),
    Fail(i32, World),
    Got(T, World),
}

impl<T> Flow<T> {
    /// Goes on with the result, if there is one.
    pub open spec fn bind<U>(self, next: spec_fn(T, World) -> Flow<U>) -> Flow<U> {
        match self {
            Flow::Ask(a) => Flow::Ask(a),
            Flow::Fail(c, w) => Flow::Fail(c, w),
            Flow::Got(v, w) => next(v, w),
        }
    }

    /// Goes on whether or not there is a result.
    pub open spec fn settle<U>(self, next: spec_fn(Result<T, i32>, World) -> Flow<U>) -> Flow<U> {
        match self {
            Flow::Ask(a) => Flow::Ask(a),
            Flow::Fail(c, w) => next(Err(c), w),
            Flow::Got(v, w) => next(Ok(v), w),
        }
    }
}

impl Action {
    /// The request changes at most the given layer.
    pub open spec fn changes_only(self, layer: Layer) -> bool {
        match self {
            Action::MakeParents(s) => s.layer == layer,
            Action::MakeDir(s) => s.layer == layer,
            Action::MakeDirs(s) => s.layer == layer,
            Action::CreateFile(s) => s.layer == layer,
            Action::MakeNode(s, _, _) => s.layer == layer,
            Action::MakeLink(s) => s.layer == layer,
            Action::CopyFile(_, d) => d.layer == layer,
            Action::CopyTree(_, d) => d.layer == layer,
            Action::CopyXattrs(_, d) => d.layer == layer,
            Action::RemoveFile(s) => s.layer == layer,
            Action::RemoveTree(s) => s.layer == layer,
            Action::Rename(s, d) => s.layer == layer && d.layer == layer,
            Action::HardLink(s, d) => s.layer == layer && d.layer == layer,
            Action::SetMode(s, _) => s.layer == layer,
            Action::SetOwner(s, _, _) => s.layer == layer,
            Action::SetTimes(s, _, _) => s.layer == layer,
            Action::SetLen(s, _) => s.layer == layer,
            Action::SetMark(s, _) => s.layer == layer,
            Action::EmptyDir(s) => s.layer == layer,
            Action::OpenWrite(s) => s.layer == layer,
            Action::Truncate(s) => s.layer == layer,
            Action::SetXattr(s) => s.layer == layer,
            Action::RemoveXattr(s) => s.layer == layer,
            _ => true,
        }
    }

    /// The request changes nothing in the lower layer.
    pub open spec fn spares_lower(self) -> bool {
        self.changes_only(Layer::Upper)
    }

    /// The reply to a request.
    pub open spec fn ask(self, w: World) -> Flow<Answer> {
        match w {
            World::Tape(t, p) => if 0 <= p < t.len() {
                Flow::Got(t[p], World::Tape(t, p + 1))
            } else {
                Flow::Ask(self)
            },
            World::Disk(d) => Flow::Got(d.reply(self), World::Disk(d.after(self))),
        }
    }

    /// A request that is either done or fails.
    pub open spec fn run(self, w: World) -> Flow<()> {
        self.ask(w).bind(
            |r: Answer, w: World|
                if r is Done {
                    Flow::Got((), w)
                } else {
                    Flow::Fail(r.code(), w)
                },
        )
    }

    /// A request whose failure is of no account.
    pub open spec fn attempt(self, w: World) -> Flow<()> {
        self.ask(w).bind(|r: Answer, w: World| Flow::Got((), w))
    }

    /// A request that is either done or not.
    pub open spec fn test(self, w: World) -> Flow<bool> {
        self.ask(w).bind(|r: Answer, w: World| Flow::Got(r is Done, w))
    }

    /// A request for metadata.
    pub open spec fn meta(self, w: World) -> Flow<Meta> {
        self.ask(w).bind(
            |r: Answer, w: World|
                match r {
                    Answer::Meta(m) => Flow::Got(m, w),
                    _ => Flow::Fail(r.code(), w),
                },
        )
    }

    /// A request for metadata that may not be there.
    pub open spec fn probe(self, w: World) -> Flow<Option<Meta>> {
        self.ask(w).bind(
            |r: Answer, w: World|
                match r {
                    Answer::Meta(m) => Flow::Got(Some(m), w),
                    _ => Flow::Got(None, w),
                },
        )
    }

    /// A request for a number.
    pub open spec fn count(self, w: World) -> Flow<i64> {
        self.ask(w).bind(
            |r: Answer, w: World|
                match r {
                    Answer::Count(n) => Flow::Got(n, w),
                    _ => Flow::Fail(r.code(), w),
                },
        )
    }

    /// A request for bytes.
    pub open spec fn data(self, w: World) -> Flow<Seq<u8>> {
        self.ask(w).bind(
            |r: Answer, w: World|
                match r {
                    Answer::Data(b) => Flow::Got(b, w),
                    _ => Flow::Fail(r.code(), w),
                },
        )
    }

    /// A request for bytes; none where they cannot be had.
    pub open spec fn some_data(self, w: World) -> Flow<Seq<u8>> {
        self.ask(w).bind(
            |r: Answer, w: World|
                match r {
                    Answer::Data(b) => Flow::Got(b, w),
                    _ => Flow::Got(Seq::empty(), w),
                },
        )
    }

    /// A request for the items of a directory; none where it cannot be read.
    pub open spec fn names(self, w: World) -> Flow<Seq<Named>> {
        self.ask(w).bind(
            |r: Answer, w: World|
                match r {
                    Answer::Names(n) => Flow::Got(n, w),
                    _ => Flow::Got(Seq::empty(), w),
                },
        )
    }
}

/// Why an operation does not end with a result.
#[derive(Clone, Copy, PartialEq, Eq, Structural, Debug)]
pub enum Stop {
    /// It needs the reply to a request.
    Ask(Action),
    /// It ends with an error code.
    Fail(i32),
}

impl Stop {
    /// The operation does not stop for a request that changes another than the given layer.
    pub open spec fn changes_only(self, layer: Layer) -> bool {
        self matches Stop::Ask(a) ==> a.changes_only(layer)
    }

    /// How far an operation got that stopped in this way.
    pub open spec fn flow<T>(self, w: World) -> Flow<T> {
        match self {
            Stop::Ask(a) => Flow::Ask(a),
            Stop::Fail(c) => Flow::Fail(c, w),
        }
    }
}

/// An operation does not ask for anything that changes the lower layer.
pub open spec fn spares_lower<T>(r: Result<T, Stop>) -> bool {
    r matches Err(s) ==> s.changes_only(Layer::Upper)
}

/// An operation does not ask for anything that changes the upper layer.
pub open spec fn spares_upper<T>(r: Result<T, Stop>) -> bool {
    r matches Err(s) ==> s.changes_only(Layer::Lower)
}

/// The bytes that go out with the requests of an operation.
#[verifier::ext_equal]
pub struct Loaded {
    /// Where a new symbolic link points.
    pub target: Seq<u8>,
    /// What is written to a file.
    pub data: Seq<u8>,
    /// The name of an extended attribute.
    pub name: Seq<u8>,
    /// The value of an extended attribute.
    pub value: Seq<u8>,
}

impl Loaded {
    /// Nothing goes out.
    pub open spec fn none() -> Loaded {
        Loaded {
            target: Seq::empty(),
            data: Seq::empty(),
            name: Seq::empty(),
            value: Seq::empty(),
        }
    }
}

/// The bytes that go out with the requests of an operation.
pub struct Load {
    pub target: Vec<u8>,
    pub data: Vec<u8>,
    pub name: Vec<u8>,
    pub value: Vec<u8>,
}

impl View for Load {
    type V = Loaded;

    open spec fn view(&self) -> Loaded {
        Loaded {
            target: self.target@,
            data: self.data@,
            name: self.name@,
            value: self.value@,
        }
    }
}

fn owned(bytes: &[u8]) -> (r: Vec<u8>)
    ensures
        r@ == bytes@,
{
    let r = crate::path::copy_range(bytes, 0, bytes.len());
    assert(r@ =~= bytes@);
    r
}

impl Load {
    /// Nothing goes out.
    pub fn none() -> (r: Load)
        ensures
            r@ == Loaded::none(),
    {
        let r = Load {
            target: Vec::new(),
            data: Vec::new(),
            name: Vec::new(),
            value: Vec::new(),
        };
        assert(r@ =~= Loaded::none());
        r
    }

    /// What is written to a file.
    pub fn of_data(data: &[u8]) -> (r: Load)
        ensures
            r@ == (Loaded { data: data@, ..Loaded::none() }),
    {
        Load { data: owned(data), ..Load::none() }
    }

    /// Where a new symbolic link points.
    pub fn of_target(target: &[u8]) -> (r: Load)
        ensures
            r@ == (Loaded { target: target@, ..Loaded::none() }),
    {
        Load { target: owned(target), ..Load::none() }
    }

    /// An extended attribute.
    pub fn of_attribute(name: &[u8], value: &[u8]) -> (r: Load)
        ensures
            r@ == (Loaded { name: name@, value: value@, ..Loaded::none() }),
    {
        Load { name: owned(name), value: owned(value), ..Load::none() }
    }

    /// Where the link points that is made next: where the link points that was read last,
    /// else where the request says.
    pub fn link_target(&self, read: &Option<Vec<u8>>) -> (r: Vec<u8>)
        ensures
            r@ == (match read {
                Some(t) => t@,
                None => self@.target,
            }),
    {
        match read {
            Some(t) => owned(t.as_slice()),
            None => owned(self.target.as_slice()),
        }
    }
}

/// A record of replies, read up to a position, and the bytes that go out with what is asked
/// for next.
pub struct Tape<'a> {
    pub replies: &'a Vec<Reply>,
    pub pos: usize,
    pub load: Load,
}

/// The items of an unreadable directory: none.
fn no_items<'a>() -> (r: &'a [DirItem])
    ensures
        r@ == Seq::<DirItem>::empty(),
{
    let r: &'a [DirItem] = &[];
    assert(r@ =~= Seq::<DirItem>::empty());
    r
}

impl<'a> Tape<'a> {
    /// The record as the source of replies.
    pub open spec fn world(self) -> World {
        World::Tape(answers(self.replies@), self.pos as int)
    }

    /// How far an operation got that returned `r` and left the record at this position.
    pub open spec fn flow<T>(self, r: Result<T, Stop>) -> Flow<T> {
        match r {
            Ok(v) => Flow::Got(v, self.world()),
            Err(s) => s.flow(self.world()),
        }
    }

    /// A record, to be read from its start.
    pub fn new(replies: &'a Vec<Reply>) -> (t: Tape<'a>)
        ensures
            t.world() == World::Tape(answers(replies@), 0),
            t.load@ == Loaded::none(),
    {
        Tape { replies, pos: 0, load: Load::none() }
    }

    /// Sets the bytes that go out with what is asked for.
    pub fn carry(&mut self, load: Load)
        ensures
            final(self).world() == old(self).world(),
            final(self).load@ == load@,
    {
        self.load = load;
    }

    /// The next reply.
    pub fn ask(&mut self, a: Action) -> (r: Result<&'a Reply, Stop>)
        ensures
            match r {
                Ok(v) => a.ask(old(self).world()) == Flow::Got(v@, final(self).world()),
                Err(s) => s == Stop::Ask(a) && a.ask(old(self).world()) == Flow::<Answer>::Ask(a),
            },
    {
        if self.pos < self.replies.len() {
            let r = &self.replies[self.pos];
            self.pos = self.pos + 1;
            Ok(r)
        } else {
            Err(Stop::Ask(a))
        }
    }

    /// A request that is either done or fails.
    pub fn run(&mut self, a: Action) -> (r: Result<(), Stop>)
        ensures
            final(self).flow(r) == a.run(old(self).world()),
            r matches Err(Stop::Ask(b)) ==> b == a,
    {
        let reply = self.ask(a)?;
        match reply {
            Reply::Done => Ok(()),
            _ => Err(Stop::Fail(reply.error_code())),
        }
    }

    /// A request whose failure is of no account.
    pub fn attempt(&mut self, a: Action) -> (r: Result<(), Stop>)
        ensures
            final(self).flow(r) == a.attempt(old(self).world()),
            r matches Err(Stop::Ask(b)) ==> b == a,
    {
        self.ask(a)?;
        Ok(())
    }

    /// A request that is either done or not.
    pub fn test(&mut self, a: Action) -> (r: Result<bool, Stop>)
        ensures
            final(self).flow(r) == a.test(old(self).world()),
            r matches Err(Stop::Ask(b)) ==> b == a,
    {
        let reply = self.ask(a)?;
        match reply {
            Reply::Done => Ok(true),
            _ => Ok(false),
        }
    }

    /// A request for metadata.
    pub fn meta(&mut self, a: Action) -> (r: Result<Meta, Stop>)
        ensures
            final(self).flow(r) == a.meta(old(self).world()),
            r matches Err(Stop::Ask(b)) ==> b == a,
    {
        let reply = self.ask(a)?;
        match reply {
            Reply::Meta(m) => Ok(*m),
            _ => Err(Stop::Fail(reply.error_code())),
        }
    }

    /// A request for metadata that may not be there.
    pub fn probe(&mut self, a: Action) -> (r: Result<Option<Meta>, Stop>)
        ensures
            final(self).flow(r) == a.probe(old(self).world()),
            r matches Err(Stop::Ask(b)) ==> b == a,
    {
        let reply = self.ask(a)?;
        match reply {
            Reply::Meta(m) => Ok(Some(*m)),
            _ => Ok(None),
        }
    }

    /// A request for a number.
    pub fn count(&mut self, a: Action) -> (r: Result<i64, Stop>)
        ensures
            final(self).flow(r) == a.count(old(self).world()),
            r matches Err(Stop::Ask(b)) ==> b == a,
    {
        let reply = self.ask(a)?;
        match reply {
            Reply::Count(n) => Ok(*n),
            _ => Err(Stop::Fail(reply.error_code())),
        }
    }

    /// A request for bytes.
    pub fn data(&mut self, a: Action) -> (r: Result<&'a Vec<u8>, Stop>)
        ensures
            match r {
                Ok(b) => a.data(old(self).world()) == Flow::Got(b@, final(self).world()),
                Err(s) => a.data(old(self).world()) == s.flow::<Seq<u8>>(final(self).world()),
            },
            r matches Err(Stop::Ask(b)) ==> b == a,
    {
        let reply = self.ask(a)?;
        match reply {
            Reply::Data(b) => Ok(b),
            _ => Err(Stop::Fail(reply.error_code())),
        }
    }

    /// A request for bytes; none where they cannot be had.
    pub fn some_data(&mut self, a: Action) -> (r: Result<Vec<u8>, Stop>)
        ensures
            match r {
                Ok(b) => a.some_data(old(self).world()) == Flow::Got(b@, final(self).world()),
                Err(s) => a.some_data(old(self).world()) == s.flow::<Seq<u8>>(
                    final(self).world(),
                ),
            },
            r matches Err(s) ==> s == Stop::Ask(a),
    {
        let reply = self.ask(a)?;
        match reply {
            Reply::Data(b) => {
                let c = copy_range(b.as_slice(), 0, b.len());
                assert(c@ =~= b@);
                Ok(c)
            },
            _ => {
                let c: Vec<u8> = Vec::new();
                assert(c@ =~= Seq::<u8>::empty());
                Ok(c)
            },
        }
    }

    /// A request for the items of a directory; none where it cannot be read.
    pub fn names(&mut self, a: Action) -> (r: Result<&'a [DirItem], Stop>)
        ensures
            match r {
                Ok(n) => a.names(old(self).world()) == Flow::Got(
                    listed(n@),
                    final(self).world(),
                ),
                Err(s) => a.names(old(self).world()) == s.flow::<Seq<Named>>(
                    final(self).world(),
                ),
            },
            r matches Err(s) ==> s == Stop::Ask(a),
    {
        let reply = self.ask(a)?;
        match reply {
            Reply::Names(n) => Ok(n.as_slice()),
            _ => {
                let none = no_items();
                assert(listed(none@) =~= Seq::<Named>::empty());
                Ok(none)
            },
        }
    }
}

/// The code of a failure is the one that the system gave; a failure without one, and a reply
/// of another kind than the expected one, count as `EIO`.
pub proof fn law_error_code(a: Answer, c: i32)
    ensures
        Answer::Failed(Some(c)).code() == c,
        (a matches Answer::Failed(x) ==> x is None) ==> a.code() == EIO,
{
}

/// A request takes the next reply, whatever that is, and no other; where there is none, it
/// is what the operation needs. What it yields is what the reply holds, and a reply of
/// another kind is a failure with its code, or is as good as nothing where a failure is of no
/// account.
pub proof fn law_requests(a: Action, t: Seq<Answer>, p: int)
    requires
        0 <= p < t.len(),
    ensures
        ({
            let w = World::Tape(t, p);
            let v = World::Tape(t, p + 1);
            let end = World::Tape(t, t.len() as int);
            let r = t[p];
            &&& a.run(end) == Flow::<()>::Ask(a) && a.meta(end) == Flow::<Meta>::Ask(a)
            &&& a.data(end) == Flow::<Seq<u8>>::Ask(a) && a.count(end) == Flow::<i64>::Ask(a)
            &&& a.attempt(end) == Flow::<()>::Ask(a) && a.test(end) == Flow::<bool>::Ask(a)
            &&& a.attempt(w) == Flow::Got((), v)
            &&& a.test(w) == Flow::Got(r is Done, v)
            &&& a.run(w) is Got <==> r is Done
            &&& a.meta(w) is Got <==> r is Meta
            &&& a.data(w) is Got <==> r is Data
            &&& a.count(w) is Got <==> r is Count
            &&& r is Done ==> a.run(w) == Flow::Got((), v)
            &&& r matches Answer::Meta(m) ==> a.meta(w) == Flow::Got(m, v) && a.probe(w)
                == Flow::Got(Some(m), v)
            &&& r matches Answer::Data(b) ==> a.data(w) == Flow::Got(b, v) && a.some_data(w)
                == Flow::Got(b, v)
            &&& r matches Answer::Count(n) ==> a.count(w) == Flow::Got(n, v)
            &&& r matches Answer::Names(n) ==> a.names(w) == Flow::Got(n, v)
            &&& !(r is Done) ==> a.run(w) == Flow::<()>::Fail(r.code(), v)
            &&& !(r is Meta) ==> a.meta(w) == Flow::<Meta>::Fail(r.code(), v) && a.probe(w)
                == Flow::Got(None::<Meta>, v)
            &&& !(r is Data) ==> a.data(w) == Flow::<Seq<u8>>::Fail(r.code(), v) && a.some_data(w)
                == Flow::Got(Seq::<u8>::empty(), v)
            &&& !(r is Count) ==> a.count(w) == Flow::<i64>::Fail(r.code(), v)
            &&& !(r is Names) ==> a.names(w) == Flow::Got(Seq::<Named>::empty(), v)
        }),
{
}

} // verus!
