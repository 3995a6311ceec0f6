//! The life of an overlay: set up, mounted, unmounted, and what becomes of its changes.

use crate::commit::commit_entry;
use crate::files::OverlayFiles;
use crate::filter::{CommitFilter, Rules};
use crate::inode::InodeMode;
use crate::path::FsPath;
use crate::protocol::{Action, Answer, DirItem, Flow, Reply, Site, Stop, Tape, World};
use crate::text::text_bytes;
use vstd::prelude::*;

verus! {

/// How often the end of a session is waited for.
pub const WAITS: u32 = 10;

/// What becomes of the changes when an overlay is closed.
#[derive(Clone, Copy, PartialEq, Eq, Structural, Debug)]
pub enum OverlayAction {
    /// Keep the upper layer as it is.
    Preserve,
    /// Delete the upper layer.
    Discard,
    /// Merge the upper layer into the lower one, then delete it.
    Commit,
    /// Merge the upper layer into a copy of the lower one, swap the two, then delete the
    /// upper layer.
    CommitAtomic,
}

/// The paths of an overlay, to be read.
pub struct OverlayHandle {
    lower_path: FsPath,
    mount_point: FsPath,
    upper_path: FsPath,
}

impl OverlayHandle {
    /// The path of the mount point.
    pub closed spec fn at_mount_point(self) -> Seq<u8> {
        self.mount_point@
    }

    /// The path of the upper layer.
    pub closed spec fn at_upper(self) -> Seq<u8> {
        self.upper_path@
    }

    /// The path of the lower layer.
    pub closed spec fn at_lower(self) -> Seq<u8> {
        self.lower_path@
    }

    /// The path of the mount point.
    pub fn mount_point(&self) -> (r: &FsPath)
        ensures
            r@ == self.at_mount_point(),
    {
        &self.mount_point
    }

    /// The path of the upper layer.
    pub fn upper(&self) -> (r: &FsPath)
        ensures
            r@ == self.at_upper(),
    {
        &self.upper_path
    }

    /// The path of the lower layer.
    pub fn lower(&self) -> (r: &FsPath)
        ensures
            r@ == self.at_lower(),
    {
        &self.lower_path
    }
}

/// The state of an overlay.
pub struct Setup {
    pub mode: InodeMode,
    /// Whether the mount point is served.
    pub serving: bool,
    pub lower: Seq<u8>,
    pub upper: Seq<u8>,
    pub mount_point: Seq<u8>,
    pub filter: Option<Rules>,
}

impl Setup {
    /// The mount point is the root, which is always mounted.
    pub open spec fn at_root(self) -> bool {
        crate::path::components(self.mount_point) == seq![seq![crate::path::SLASH]]
    }

    /// Where a directory of the overlay lies.
    pub open spec fn site(self, site: Site) -> Seq<u8> {
        match site {
            Site::Lower => self.lower,
            Site::Upper => self.upper,
            Site::MountPoint => self.mount_point,
            Site::MountParent => match crate::path::parent(self.mount_point) {
                Some(p) => p,
                None => self.mount_point,
            },
            Site::NewLower => crate::path::appended(
                self.lower,
                vstd::utf8::encode_utf8(".new"@),
            ),
            Site::Backup => crate::path::appended(
                self.lower,
                vstd::utf8::encode_utf8(".backup"@),
            ),
        }
    }
}

/// The device of a directory, where it can be told.
pub open spec fn locating(site: Site, w: World) -> Flow<Option<i64>> {
    Action::Device(site).ask(w).bind(
        |r: Answer, w: World|
            match r {
                Answer::Count(n) => Flow::Got(Some(n), w),
                _ => Flow::Got(None, w),
            },
    )
}

/// Whether the mount point is mounted: it lies on another device than the directory that
/// holds it. The root is; what cannot be read is not; and what can be read, in a directory
/// that cannot, is.
pub open spec fn checking(at_root: bool, w: World) -> Flow<bool> {
    if at_root {
        Flow::Got(true, w)
    } else {
        locating(Site::MountPoint, w).bind(
            |here: Option<i64>, w: World|
                match here {
                    None => Flow::Got(false, w),
                    Some(a) => locating(Site::MountParent, w).bind(
                        |there: Option<i64>, w: World|
                            match there {
                                None => Flow::Got(true, w),
                                Some(b) => Flow::Got(a != b, w),
                            },
                    ),
                },
        )
    }
}

/// Creates a directory if it is not there.
pub open spec fn providing(site: Site, w: World) -> Flow<()> {
    Action::Exists(site).test(w).bind(
        |there: bool, w: World|
            if there {
                Flow::Got((), w)
            } else {
                Action::MakeSite(site).run(w)
            },
    )
}

/// Mounts the overlay.
pub open spec fn mounting(w: World) -> Flow<()> {
    providing(Site::MountPoint, w).bind(
        |u: (), w: World|
            providing(Site::Upper, w).bind(|u: (), w: World| Action::Spawn.run(w)),
    )
}

/// Waits until the mount point is no longer mounted, for a limited number of times.
pub open spec fn waiting(at_root: bool, n: nat, w: World) -> Flow<()>
    decreases n,
{
    if n == 0 {
        Flow::Got((), w)
    } else {
        match checking(at_root, w) {
            Flow::Got(mounted, v) => if !mounted {
                Flow::Got((), v)
            } else {
                match Action::Pause.attempt(v) {
                    Flow::Got(_, x) => waiting(at_root, (n - 1) as nat, x),
                    Flow::Fail(c, x) => Flow::Fail(c, x),
                    Flow::Ask(a) => Flow::Ask(a),
                }
            },
            Flow::Fail(c, v) => Flow::Fail(c, v),
            Flow::Ask(a) => Flow::Ask(a),
        }
    }
}

/// Ends the session, where there is one.
pub open spec fn ending(serving: bool, at_root: bool, w: World) -> Flow<()> {
    if serving {
        Action::EndSession.attempt(w).bind(
            |u: (), w: World| waiting(at_root, WAITS as nat, w),
        )
    } else {
        Flow::Got((), w)
    }
}

/// Unmounts what is still mounted: first in the ordinary way, then by detaching it.
pub open spec fn forcing(at_root: bool, w: World) -> Flow<()> {
    checking(at_root, w).bind(
        |mounted: bool, w: World|
            if !mounted {
                Flow::Got((), w)
            } else {
                Action::Unmount(false).attempt(w).bind(
                    |u: (), w: World|
                        checking(at_root, w).bind(
                            |mounted: bool, w: World|
                                if !mounted {
                                    Flow::Got((), w)
                                } else {
                                    Action::Unmount(true).attempt(w)
                                },
                        ),
                )
            },
    )
}

/// Removes the mount point, where it is there.
pub open spec fn tidying(w: World) -> Flow<()> {
    Action::Exists(Site::MountPoint).test(w).bind(
        |there: bool, w: World|
            if there {
                Action::RemoveSite(Site::MountPoint).attempt(w)
            } else {
                Flow::Got((), w)
            },
    )
}

/// Unmounts the overlay and removes the mount point.
pub open spec fn unmounting(serving: bool, at_root: bool, w: World) -> Flow<()> {
    ending(serving, at_root, w).bind(
        |u: (), w: World|
            forcing(at_root, w).bind(|u: (), w: World| tidying(w)),
    )
}

/// Merges the upper directory into the lower one. Without an upper directory there is
/// nothing to do.
pub open spec fn committing_changes(w: World) -> Flow<()> {
    Action::Exists(Site::Upper).test(w).bind(
        |there: bool, w: World|
            if !there {
                Flow::Got((), w)
            } else {
                Action::Merge(Site::Lower).run(w).bind(
                    |u: (), w: World| Action::SyncSite(Site::Lower).run(w),
                )
            },
    )
}

/// Removes a directory that was left over, where it is there.
pub open spec fn clearing_site(site: Site, w: World) -> Flow<()> {
    Action::Exists(site).test(w).bind(
        |there: bool, w: World|
            if there {
                Action::Obliterate(site).attempt(w)
            } else {
                Flow::Got((), w)
            },
    )
}

/// Prepares the new lower directory: a copy of the old one, with the upper one merged in.
/// If the merge fails, the copy is removed. The copy is whole on purpose: the new directory
/// takes the place of the old one, so that what the filter keeps out of a commit has to be
/// copied too, or files that were there before would be lost.
pub open spec fn preparing(w: World) -> Flow<()> {
    Action::CloneSite(Site::Lower, Site::NewLower).run(w).bind(
        |u: (), w: World|
            Action::Merge(Site::NewLower).run(w).settle(
                |r: Result<(), i32>, w: World|
                    match r {
                        Ok(_) => Action::SyncSite(Site::NewLower).run(w),
                        Err(c) => Action::Obliterate(Site::NewLower).attempt(w).bind(
                            |u: (), w: World| Flow::Fail(c, w),
                        ),
                    },
            ),
    )
}

/// Puts the new lower directory in the place of the old one, which is removed. If that
/// fails, the old one is put back.
pub open spec fn swapping(w: World) -> Flow<()> {
    Action::MoveSite(Site::Lower, Site::Backup).run(w).bind(
        |u: (), w: World|
            Action::MoveSite(Site::NewLower, Site::Lower).run(w).settle(
                |r: Result<(), i32>, w: World|
                    match r {
                        Ok(_) => Action::Obliterate(Site::Backup).attempt(w),
                        Err(c) => Action::MoveSite(Site::Backup, Site::Lower).attempt(w).bind(
                            |u: (), w: World| Flow::Fail(c, w),
                        ),
                    },
            ),
    )
}

/// Merges the upper directory into a copy of the lower one and swaps the two.
pub open spec fn committing_atomic(w: World) -> Flow<()> {
    Action::Exists(Site::Upper).test(w).bind(
        |there: bool, w: World|
            if !there {
                Flow::Got((), w)
            } else {
                clearing_site(Site::NewLower, w).bind(
                    |u: (), w: World|
                        clearing_site(Site::Backup, w).bind(
                            |u: (), w: World|
                                preparing(w).bind(|u: (), w: World| swapping(w)),
                        ),
                )
            },
    )
}

/// Deletes the upper directory after a commit; after one that failed, the user is told.
pub open spec fn concluding(commit: Flow<()>) -> Flow<()> {
    commit.settle(
        |r: Result<(), i32>, w: World|
            match r {
                Ok(_) => Action::Obliterate(Site::Upper).attempt(w),
                Err(_) => Action::Report.attempt(w),
            },
    )
}

/// Deals with the changes.
pub open spec fn finishing(action: OverlayAction, w: World) -> Flow<()> {
    match action {
        OverlayAction::Preserve => Flow::Got((), w),
        OverlayAction::Discard => Action::Obliterate(Site::Upper).attempt(w),
        OverlayAction::Commit => concluding(committing_changes(w)),
        OverlayAction::CommitAtomic => concluding(committing_atomic(w)),
    }
}

/// Unmounts the overlay if it is served, then deals with the changes.
pub open spec fn closing(
    serving: bool,
    at_root: bool,
    action: OverlayAction,
    w: World,
) -> Flow<()> {
    if serving {
        unmounting(true, at_root, w).bind(|u: (), w: World| finishing(action, w))
    } else {
        finishing(action, w)
    }
}

/// An overlay: its directories, its configuration, and whether it is served.
pub struct OverlayFS {
    mode: InodeMode,
    session: bool,
    files: OverlayFiles,
    commit_filter: Option<CommitFilter>,
}

impl View for OverlayFS {
    type V = Setup;

    closed spec fn view(&self) -> Setup {
        Setup {
            mode: self.mode,
            serving: self.session,
            lower: self.files.lower@,
            upper: self.files.upper@,
            mount_point: self.files.mount_point@,
            filter: crate::commit::rules_of(self.commit_filter),
        }
    }
}

impl OverlayFS {
    /// An overlay over a directory, set up by the process `pid` at `nanos` nanoseconds since
    /// the epoch: its upper layer lies beside the directory, its mount point in `temp_dir`.
    pub fn new(lower_dir: FsPath, pid: u32, nanos: u128, temp_dir: &FsPath) -> (r: OverlayFS)
        ensures
            r@ == (Setup {
                mode: InodeMode::Virtual,
                serving: false,
                lower: lower_dir@,
                upper: OverlayFiles::default_upper(lower_dir@),
                mount_point: crate::path::join(
                    temp_dir@,
                    OverlayFiles::mount_name(lower_dir@, pid, nanos as int),
                ),
                filter: None,
            }),
    {
        let files = OverlayFiles::new(lower_dir, pid, nanos, temp_dir);
        OverlayFS { files, mode: InodeMode::Virtual, session: false, commit_filter: None }
    }

    /// Changes the upper directory. Not while the overlay is mounted.
    pub fn set_upper(&mut self, mounted: bool, path: FsPath)
        requires
            !mounted,
        ensures
            final(self)@ == (Setup { upper: path@, ..old(self)@ }),
    {
        self.files.upper = path;
    }

    /// Changes how inode numbers are made. Not while the overlay is mounted.
    pub fn set_inode_mode(&mut self, mounted: bool, mode: InodeMode)
        requires
            !mounted,
        ensures
            final(self)@ == (Setup { mode, ..old(self)@ }),
    {
        self.mode = mode;
    }

    /// Moves the mount point to the cache directory of the user and returns that directory.
    /// Where the user has none, the mount point stays where it is. Not while the overlay is
    /// mounted.
    pub fn mountpoint_as_home(
        &mut self,
        mounted: bool,
        cache: Option<FsPath>,
        home: Option<FsPath>,
    ) -> (r: Option<FsPath>)
        requires
            !mounted,
        ensures
            ({
                let c = match cache {
                    Some(c) => Some(c@),
                    None => None,
                };
                let h = match home {
                    Some(h) => Some(h@),
                    None => None,
                };
                match OverlayFiles::cache_dir(c, h) {
                    Some(dir) => {
                        &&& r matches Some(d)
                        &&& d@ == dir
                        &&& final(self)@ == (Setup {
                            mount_point: OverlayFiles::moved(old(self)@.mount_point, dir),
                            ..old(self)@
                        })
                    },
                    None => r is None && final(self)@ == old(self)@,
                }
            }),
    {
        self.files.mountpoint_as_home(cache, home)
    }

    /// Sets the filter for commits.
    pub fn set_commit_filter(&mut self, filter: CommitFilter)
        ensures
            final(self)@ == (Setup { filter: Some(filter@), ..old(self)@ }),
    {
        self.commit_filter = Some(filter);
    }

    /// Removes the filter: a commit leaves nothing out.
    pub fn clear_commit_filter(&mut self)
        ensures
            final(self)@ == (Setup { filter: None, ..old(self)@ }),
    {
        self.commit_filter = None;
    }

    /// The paths of the overlay.
    pub fn handle(&self) -> (r: OverlayHandle)
        ensures
            r.at_lower() == self@.lower,
            r.at_upper() == self@.upper,
            r.at_mount_point() == self@.mount_point,
    {
        OverlayHandle {
            lower_path: self.files.lower.clone(),
            mount_point: self.files.mount_point.clone(),
            upper_path: self.files.upper.clone(),
        }
    }

    /// The directories of the overlay.
    pub fn files(&self) -> (r: OverlayFiles)
        ensures
            r.lower@ == self@.lower,
            r.upper@ == self@.upper,
            r.mount_point@ == self@.mount_point,
    {
        self.files.clone()
    }

    /// How inode numbers are made.
    pub fn inode_mode(&self) -> (r: InodeMode)
        ensures
            r == self@.mode,
    {
        self.mode
    }

    /// Whether the mount point is served.
    pub fn is_serving(&self) -> (r: bool)
        ensures
            r == self@.serving,
    {
        self.session
    }

    /// Merges an item of a directory of the upper layer by the filter of the overlay; says
    /// whether it is a directory to be entered.
    pub fn commit_item(&self, t: &mut Tape, dir: &FsPath, item: &DirItem) -> (r: Result<
        bool,
        Stop,
    >)
        ensures
            final(t).flow(r) == crate::commit::committing(
                self@.filter,
                dir@,
                item@,
                old(t).world(),
            ),
            crate::protocol::spares_upper(r),
    {
        commit_entry(t, &self.commit_filter, dir, item)
    }

    /// Where a directory of the overlay lies.
    pub fn site_path(&self, site: Site) -> (r: FsPath)
        ensures
            r@ == self@.site(site),
    {
        match site {
            Site::Lower => self.files.lower.clone(),
            Site::Upper => self.files.upper.clone(),
            Site::MountPoint => self.files.mount_point.clone(),
            Site::MountParent => match self.files.mount_point.parent() {
                Some(p) => p,
                None => self.files.mount_point.clone(),
            },
            Site::NewLower => self.files.lower.appended(text_bytes(".new").as_slice()),
            Site::Backup => self.files.lower.appended(text_bytes(".backup").as_slice()),
        }
    }

    fn is_at_root(&self) -> (r: bool)
        ensures
            r == self@.at_root(),
    {
        let c = self.files.mount_point.components();
        let ghost views = crate::path::views(c@);
        assert(views.len() == c@.len());
        if c.len() == 1 && c[0].len() == 1 && c[0][0] == crate::path::SLASH {
            assert(views[0] =~= seq![crate::path::SLASH]);
            assert(views =~= seq![seq![crate::path::SLASH]]);
            true
        } else {
            proof {
                if views == seq![seq![crate::path::SLASH]] {
                    assert(views[0] == seq![crate::path::SLASH]);
                    assert(views[0][0] == crate::path::SLASH);
                    assert(c@[0]@ == views[0]);
                }
            }
            false
        }
    }

    fn device(t: &mut Tape, site: Site) -> (r: Result<Option<i64>, Stop>)
        ensures
            final(t).flow(r) == locating(site, old(t).world()),
    {
        match t.ask(Action::Device(site))? {
            Reply::Count(n) => Ok(Some(*n)),
            _ => Ok(None),
        }
    }

    fn check(t: &mut Tape, at_root: bool) -> (r: Result<bool, Stop>)
        ensures
            final(t).flow(r) == checking(at_root, old(t).world()),
            r matches Err(s) ==> s is Ask,
    {
        if at_root {
            return Ok(true);
        }
        match Self::device(t, Site::MountPoint)? {
            None => Ok(false),
            Some(a) => match Self::device(t, Site::MountParent)? {
                None => Ok(true),
                Some(b) => Ok(a != b),
            },
        }
    }

    /// Whether the mount point is mounted.
    pub fn is_mounted(&self, t: &mut Tape) -> (r: Result<bool, Stop>)
        ensures
            final(t).flow(r) == checking(self@.at_root(), old(t).world()),
    {
        Self::check(t, self.is_at_root())
    }

    fn provide(t: &mut Tape, site: Site) -> (r: Result<(), Stop>)
        ensures
            final(t).flow(r) == providing(site, old(t).world()),
    {
        if !t.test(Action::Exists(site))? {
            t.run(Action::MakeSite(site))?;
        }
        Ok(())
    }

    /// Mounts the overlay: the mount point and the upper directory are created where they
    /// are missing, then the mount point is served.
    pub fn mount(&mut self, t: &mut Tape) -> (r: Result<(), Stop>)
        ensures
            final(t).flow(r) == mounting(old(t).world()),
            final(self)@ == if r is Ok {
                Setup { serving: true, ..old(self)@ }
            } else {
                old(self)@
            },
    {
        Self::provide(t, Site::MountPoint)?;
        Self::provide(t, Site::Upper)?;
        t.run(Action::Spawn)?;
        self.session = true;
        Ok(())
    }

    fn wait(t: &mut Tape, at_root: bool) -> (r: Result<(), Stop>)
        ensures
            final(t).flow(r) == waiting(at_root, WAITS as nat, old(t).world()),
    {
        let ghost start = t.world();
        let mut n: u32 = WAITS;
        while n > 0
            invariant
                n <= WAITS,
                waiting(at_root, WAITS as nat, start) == waiting(at_root, n as nat, t.world()),
                start == old(t).world(),
            decreases n,
        {
            if !Self::check(t, at_root)? {
                return Ok(());
            }
            t.attempt(Action::Pause)?;
            n = n - 1;
        }
        Ok(())
    }

    fn unmount_all(t: &mut Tape, serving: bool, at_root: bool) -> (r: Result<(), Stop>)
        ensures
            final(t).flow(r) == unmounting(serving, at_root, old(t).world()),
    {
        if serving {
            t.attempt(Action::EndSession)?;
            Self::wait(t, at_root)?;
        }
        if Self::check(t, at_root)? {
            t.attempt(Action::Unmount(false))?;
            if Self::check(t, at_root)? {
                t.attempt(Action::Unmount(true))?;
            }
        }
        if t.test(Action::Exists(Site::MountPoint))? {
            t.attempt(Action::RemoveSite(Site::MountPoint))?;
        }
        Ok(())
    }

    /// Unmounts the overlay, with force if need be, and removes the mount point.
    pub fn umount(&mut self, t: &mut Tape) -> (r: Result<(), Stop>)
        ensures
            final(t).flow(r) == unmounting(
                old(self)@.serving,
                old(self)@.at_root(),
                old(t).world(),
            ),
            final(self)@ == if r is Ok {
                Setup { serving: false, ..old(self)@ }
            } else {
                old(self)@
            },
    {
        Self::unmount_all(t, self.session, self.is_at_root())?;
        self.session = false;
        Ok(())
    }

    fn commit_changes(t: &mut Tape) -> (r: Result<(), Stop>)
        ensures
            final(t).flow(r) == committing_changes(old(t).world()),
    {
        if !t.test(Action::Exists(Site::Upper))? {
            return Ok(());
        }
        t.run(Action::Merge(Site::Lower))?;
        t.run(Action::SyncSite(Site::Lower))
    }

    fn clear_site(t: &mut Tape, site: Site) -> (r: Result<(), Stop>)
        ensures
            final(t).flow(r) == clearing_site(site, old(t).world()),
    {
        if t.test(Action::Exists(site))? {
            t.attempt(Action::Obliterate(site))?;
        }
        Ok(())
    }

    fn prepare(t: &mut Tape) -> (r: Result<(), Stop>)
        ensures
            final(t).flow(r) == preparing(old(t).world()),
    {
        t.run(Action::CloneSite(Site::Lower, Site::NewLower))?;
        match t.run(Action::Merge(Site::NewLower)) {
            Ok(_) => t.run(Action::SyncSite(Site::NewLower)),
            Err(Stop::Ask(a)) => Err(Stop::Ask(a)),
            Err(Stop::Fail(c)) => {
                t.attempt(Action::Obliterate(Site::NewLower))?;
                Err(Stop::Fail(c))
            },
        }
    }

    fn swap(t: &mut Tape) -> (r: Result<(), Stop>)
        ensures
            final(t).flow(r) == swapping(old(t).world()),
    {
        t.run(Action::MoveSite(Site::Lower, Site::Backup))?;
        match t.run(Action::MoveSite(Site::NewLower, Site::Lower)) {
            Ok(_) => t.attempt(Action::Obliterate(Site::Backup)),
            Err(Stop::Ask(a)) => Err(Stop::Ask(a)),
            Err(Stop::Fail(c)) => {
                t.attempt(Action::MoveSite(Site::Backup, Site::Lower))?;
                Err(Stop::Fail(c))
            },
        }
    }

    fn commit_atomic(t: &mut Tape) -> (r: Result<(), Stop>)
        ensures
            final(t).flow(r) == committing_atomic(old(t).world()),
    {
        if !t.test(Action::Exists(Site::Upper))? {
            return Ok(());
        }
        Self::clear_site(t, Site::NewLower)?;
        Self::clear_site(t, Site::Backup)?;
        Self::prepare(t)?;
        Self::swap(t)
    }

    fn finish(t: &mut Tape, action: OverlayAction) -> (r: Result<(), Stop>)
        ensures
            final(t).flow(r) == finishing(action, old(t).world()),
    {
        let done = match action {
            OverlayAction::Preserve => {
                return Ok(());
            },
            OverlayAction::Discard => {
                return t.attempt(Action::Obliterate(Site::Upper));
            },
            OverlayAction::Commit => Self::commit_changes(t),
            OverlayAction::CommitAtomic => Self::commit_atomic(t),
        };
        match done {
            Ok(_) => t.attempt(Action::Obliterate(Site::Upper)),
            Err(Stop::Ask(a)) => Err(Stop::Ask(a)),
            Err(Stop::Fail(_)) => t.attempt(Action::Report),
        }
    }

    /// Unmounts the overlay if it is served, then deals with the changes as asked. A commit
    /// that fails leaves the upper layer as it is, and the user is told.
    pub fn overlay_action(&mut self, t: &mut Tape, action: OverlayAction) -> (r: Result<(), Stop>)
        ensures
            final(t).flow(r) == closing(
                old(self)@.serving,
                old(self)@.at_root(),
                action,
                old(t).world(),
            ),
            final(self)@ == if r is Ok {
                Setup { serving: false, ..old(self)@ }
            } else {
                old(self)@
            },
    {
        if self.session {
            Self::unmount_all(t, true, self.is_at_root())?;
        }
        Self::finish(t, action)?;
        self.session = false;
        Ok(())
    }
}

} // verus!
