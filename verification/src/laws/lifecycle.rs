//! Mounting, unmounting and closing an overlay.

use crate::model::Disk;
use crate::overlay::{OverlayAction, Setup};
use crate::protocol::{Action, Answer, Flow, Site, World};
use crate::tree::{Changes, Tree};
use vstd::prelude::*;

verus! {

/// The directories, the devices and what is left open are the same.
pub open spec fn grounds_kept(d: Disk, e: Disk) -> bool {
    &&& e.sites == d.sites
    &&& e.devices == d.devices
    &&& e.oracle == d.oracle
}

/// Every directory that was there is as it was.
pub open spec fn sites_kept(d: Disk, e: Disk) -> bool {
    forall|s: Site| #[trigger]
        d.sites.contains_key(s) ==> e.sites.contains_key(s) && e.sites[s] == d.sites[s]
}

/// The mount point lies on another device than the directory that holds it; it does so if
/// only the latter cannot be read, and does not if it cannot be read itself. The root does.
pub open spec fn mounted(d: Disk, at_root: bool) -> bool {
    at_root || d.devices.contains_key(Site::MountPoint) && (d.devices.contains_key(
        Site::MountParent,
    ) ==> d.devices[Site::MountPoint] != d.devices[Site::MountParent])
}

/// Asking whether the mount point is mounted tells the truth and changes nothing.
pub proof fn law_is_mounted(d: Disk, at_root: bool)
    ensures
        crate::overlay::checking(at_root, World::Disk(d)) matches Flow::Got(yes, World::Disk(e))
            && yes == mounted(d, at_root) && grounds_kept(d, e),
{
    crate::model::step_look(d, Site::MountPoint);
    crate::model::step_look(d.after(Action::Device(Site::MountPoint)), Site::MountParent);
}

proof fn lemma_providing(d: Disk, site: Site)
    ensures
        match crate::overlay::providing(site, World::Disk(d)) {
            Flow::Got(_, World::Disk(e)) => {
                &&& e.sites.contains_key(site)
                &&& sites_kept(d, e)
                &&& forall|s: Site|
                    s != site ==> #[trigger] e.sites.contains_key(s) == d.sites.contains_key(s)
                &&& e.oracle == d.oracle && e.devices == d.devices
            },
            Flow::Fail(code, World::Disk(e)) => sites_kept(d, e)
                && !crate::model::never_faults(d) && crate::model::blames(e, code) && forall|s: Site|
                s != site ==> #[trigger] e.sites.contains_key(s) == d.sites.contains_key(s),
            _ => false,
        },
{
    crate::model::step_look(d, site);
    let d1 = d.after(Action::Exists(site));
    crate::model::step_upkeep(d1, Action::MakeSite(site));
    reveal(Disk::possible);
}

/// A mounted overlay has its mount point and its upper directory, and the mount point is
/// served; what was there before is as it was, and nothing else has been made. Where
/// nothing fails, mounting succeeds; otherwise the last request has failed.
pub proof fn law_mount(d: Disk)
    ensures
        match crate::overlay::mounting(World::Disk(d)) {
            Flow::Got(_, World::Disk(e)) => {
                &&& e.sites.contains_key(Site::MountPoint) && e.sites.contains_key(Site::Upper)
                &&& sites_kept(d, e)
                &&& forall|s: Site| #[trigger]
                    e.sites.contains_key(s) ==> d.sites.contains_key(s) || s == Site::MountPoint
                        || s == Site::Upper
                &&& crate::model::worked(e) && crate::model::asked_last(e, Action::Spawn)
            },
            Flow::Fail(code, World::Disk(e)) => {
                &&& sites_kept(d, e)
                &&& forall|s: Site| #[trigger]
                    e.sites.contains_key(s) ==> d.sites.contains_key(s) || s == Site::MountPoint
                        || s == Site::Upper
                &&& !crate::model::never_faults(d)
                &&& crate::model::blames(e, code)
            },
            _ => false,
        },
{
    lemma_providing(d, Site::MountPoint);
    if let Flow::Got(_, World::Disk(d1)) = crate::overlay::providing(
        Site::MountPoint,
        World::Disk(d),
    ) {
        lemma_providing(d1, Site::Upper);
        match crate::overlay::providing(Site::Upper, World::Disk(d1)) {
            Flow::Got(_, World::Disk(d2)) => {
                crate::model::step_upkeep(d2, Action::Spawn);
                crate::model::step_log(d2, Action::Spawn);
                assert(d2.possible(Action::Spawn)) by {
                    reveal(Disk::possible);
                }
                assert(d1.sites.contains_key(Site::MountPoint));
                assert(d2.sites.contains_key(Site::MountPoint));
            },
            _ => {},
        }
    }
}

proof fn lemma_waiting(d: Disk, at_root: bool, n: nat)
    ensures
        crate::overlay::waiting(at_root, n, World::Disk(d)) matches Flow::Got(_, World::Disk(e))
            && grounds_kept(d, e),
    decreases n,
{
    if n > 0 {
        law_is_mounted(d, at_root);
        if let Flow::Got(yes, World::Disk(d1)) = crate::overlay::checking(
            at_root,
            World::Disk(d),
        ) {
            if yes {
                crate::model::step_upkeep(d1, Action::Pause);
                lemma_waiting(d1.after(Action::Pause), at_root, (n - 1) as nat);
            }
        }
    }
}

proof fn lemma_forcing(d: Disk, at_root: bool)
    ensures
        crate::overlay::forcing(at_root, World::Disk(d)) matches Flow::Got(_, World::Disk(e))
            && grounds_kept(d, e),
{
    law_is_mounted(d, at_root);
    if let Flow::Got(yes, World::Disk(d1)) = crate::overlay::checking(at_root, World::Disk(d)) {
        if yes {
            crate::model::step_upkeep(d1, Action::Unmount(false));
            let d2 = d1.after(Action::Unmount(false));
            law_is_mounted(d2, at_root);
            if let Flow::Got(_, World::Disk(d3)) = crate::overlay::checking(
                at_root,
                World::Disk(d2),
            ) {
                crate::model::step_upkeep(d3, Action::Unmount(true));
            }
        }
    }
}

/// Unmounting always comes to an end. It removes the mount point, where nothing fails, and
/// leaves every other directory as it was.
pub proof fn law_umount(d: Disk, serving: bool, at_root: bool)
    ensures
        crate::overlay::unmounting(serving, at_root, World::Disk(d)) matches Flow::Got(
            _,
            World::Disk(e),
        ) && {
            &&& e.sites.remove(Site::MountPoint) == d.sites.remove(Site::MountPoint)
            &&& crate::model::never_faults(d) ==> !e.sites.contains_key(Site::MountPoint)
            &&& e.oracle == d.oracle
        },
{
    let d1 = if serving {
        crate::model::step_upkeep(d, Action::EndSession);
        let x = d.after(Action::EndSession);
        lemma_waiting(x, at_root, crate::overlay::WAITS as nat);
        match crate::overlay::waiting(at_root, crate::overlay::WAITS as nat, World::Disk(x)) {
            Flow::Got(_, World::Disk(e)) => e,
            _ => x,
        }
    } else {
        d
    };
    lemma_forcing(d1, at_root);
    if let Flow::Got(_, World::Disk(d2)) = crate::overlay::forcing(at_root, World::Disk(d1)) {
        crate::model::step_look(d2, Site::MountPoint);
        let d3 = d2.after(Action::Exists(Site::MountPoint));
        let remove = Action::RemoveSite(Site::MountPoint);
        crate::model::step_upkeep(d3, remove);
        assert(d3.sites.contains_key(Site::MountPoint) ==> d3.possible(remove)) by {
            reveal(Disk::possible);
        }
        let m = d3.sites;
        assert(m.remove(Site::MountPoint).remove(Site::MountPoint) =~= m.remove(
            Site::MountPoint,
        ));
    }
}

/// A tree holds under every path what the overlay of the upper layer over another tree
/// shows there, of what the rules let through.
pub open spec fn is_overlay_of(now: Tree, c: Changes, was: Tree) -> bool {
    forall|key: Seq<Seq<u8>>| #[trigger]
        now.shows(key) == c.shown(
            was,
            crate::laws::merging::all_items(c.scene(), Seq::empty()),
            key,
        )
}

/// What is merged into a directory is what the overlay showed.
proof fn lemma_merged(c: Changes, was: Tree)
    requires
        c.sane(),
        c.fit(was),
    ensures
        is_overlay_of(c.merged(was), c, was),
{
    assert forall|key: Seq<Seq<u8>>| #[trigger]
        c.merged(was).shows(key) == c.shown(
            was,
            crate::laws::merging::all_items(c.scene(), Seq::empty()),
            key,
        ) by {
        crate::laws::merging::law_merge_yields_overlay(c, was, key);
    }
}

/// A commit: if it succeeds, the lower directory holds what merging the items of the upper
/// one leaves, which is what the overlay showed, of what the filter lets through, and has
/// been flushed; without an upper directory nothing has changed. No other directory changes
/// in any case. Where nothing fails and every item fits, it succeeds.
pub proof fn law_commit(d: Disk)
    requires
        d.sites.contains_key(Site::Lower),
    ensures
        match crate::overlay::committing_changes(World::Disk(d)) {
            Flow::Got(_, World::Disk(e)) => {
                let c = d.oracle.changes;
                let lower = d.sites[Site::Lower];
                &&& e.sites == if d.sites.contains_key(Site::Upper) {
                    d.sites.insert(Site::Lower, c.merged(lower))
                } else {
                    d.sites
                }
                &&& d.sites.contains_key(Site::Upper) && c.sane() ==> is_overlay_of(
                    e.sites[Site::Lower],
                    c,
                    lower,
                )
                &&& d.sites.contains_key(Site::Upper) ==> crate::model::worked(e)
                    && crate::model::asked_last(e, Action::SyncSite(Site::Lower))
                &&& e.oracle == d.oracle
            },
            Flow::Fail(code, World::Disk(e)) => {
                &&& e.sites.remove(Site::Lower) == d.sites.remove(Site::Lower)
                &&& e.oracle == d.oracle
                &&& d.sites.contains_key(Site::Upper)
                &&& crate::model::blames(e, code)
                &&& !crate::model::never_faults(d) || !d.oracle.changes.fit(d.sites[Site::Lower])
            },
            _ => false,
        },
{
    crate::model::step_look(d, Site::Upper);
    let d1 = d.after(Action::Exists(Site::Upper));
    let merge = Action::Merge(Site::Lower);
    crate::model::step_upkeep(d1, merge);
    let d2 = d1.after(merge);
    crate::model::step_upkeep(d2, Action::SyncSite(Site::Lower));
    crate::model::step_log(d2, Action::SyncSite(Site::Lower));
    assert(d1.possible(merge) == (d.sites.contains_key(Site::Upper) && d.oracle.changes.fit(
        d.sites[Site::Lower],
    ))) by {
        reveal(Disk::possible);
    }
    assert(d2.sites.contains_key(Site::Lower) ==> d2.possible(Action::SyncSite(Site::Lower))) by {
        reveal(Disk::possible);
    }
    if d1.possible(merge) && d.oracle.changes.sane() {
        lemma_merged(d.oracle.changes, d.sites[Site::Lower]);
    }
    let m = d1.sites;
    assert(forall|v: Tree| #[trigger]
        m.insert(Site::Lower, v).remove(Site::Lower) =~= m.remove(Site::Lower));
}

/// The content of the directories that matter to an atomic commit.
pub open spec fn holds(d: Disk, site: Site, content: Tree) -> bool {
    d.sites.contains_key(site) && d.sites[site] == content
}

/// What the lower directory held is set aside as the backup, after moving it back came to
/// nothing.
pub open spec fn stranded(e: Disk, content: Tree) -> bool {
    let back = Action::MoveSite(Site::Backup, Site::Lower);
    &&& holds(e, Site::Backup, content)
    &&& exists|x: Disk| #[trigger]
        x.after(back) == e && holds(x, Site::Backup, content) && !x.works(back)
}

/// The lower directory, its copy and its backup lie in different places, so that an atomic
/// commit never mistakes one for another.
pub proof fn law_sites_differ(o: Setup)
    ensures
        crate::path::components(o.site(Site::NewLower)) != crate::path::components(
            o.site(Site::Lower),
        ),
        crate::path::components(o.site(Site::Backup)) != crate::path::components(
            o.site(Site::Lower),
        ),
        crate::path::components(o.site(Site::NewLower)) != crate::path::components(
            o.site(Site::Backup),
        ),
{
    reveal_strlit(".new");
    reveal_strlit(".backup");
    vstd::utf8::is_ascii_chars_encode_utf8(".new"@);
    vstd::utf8::is_ascii_chars_encode_utf8(".backup"@);
    let a = vstd::utf8::encode_utf8(".new"@);
    let b = vstd::utf8::encode_utf8(".backup"@);
    assert(a =~= seq![46u8, 110, 101, 119]) by {
        assert(".new"@[0] == '.' && ".new"@[1] == 'n' && ".new"@[2] == 'e' && ".new"@[3] == 'w');
    }
    assert(b =~= seq![46u8, 98, 97, 99, 107, 117, 112]) by {
        assert(".backup"@[0] == '.' && ".backup"@[1] == 'b' && ".backup"@[2] == 'a'
            && ".backup"@[3] == 'c' && ".backup"@[4] == 'k' && ".backup"@[5] == 'u'
            && ".backup"@[6] == 'p');
    }
    crate::path::lemma_appended_differ(o.lower, a, b);
}

/// Only the copy and the backup may differ.
pub open spec fn scratch_only(d: Disk, e: Disk) -> bool {
    &&& e.sites.remove(Site::NewLower).remove(Site::Backup) == d.sites.remove(
        Site::NewLower,
    ).remove(Site::Backup)
    &&& e.oracle == d.oracle
}

proof fn lemma_clearing_site(d: Disk, site: Site)
    requires
        site == Site::NewLower || site == Site::Backup,
    ensures
        crate::overlay::clearing_site(site, World::Disk(d)) matches Flow::Got(_, World::Disk(e))
            && scratch_only(d, e) && (crate::model::never_faults(d) ==> e.sites
            == d.sites.remove(site)),
{
    crate::model::step_look(d, site);
    let d1 = d.after(Action::Exists(site));
    crate::model::step_upkeep(d1, Action::Obliterate(site));
    reveal(Disk::possible);
    let m = d.sites;
    assert(m.remove(Site::Backup).remove(Site::NewLower).remove(Site::Backup) =~= m.remove(
        Site::NewLower,
    ).remove(Site::Backup));
    assert(m.remove(Site::NewLower).remove(Site::NewLower).remove(Site::Backup) =~= m.remove(
        Site::NewLower,
    ).remove(Site::Backup));
    if !m.contains_key(site) {
        assert(m.remove(site) =~= m);
    }
}

proof fn lemma_preparing(d: Disk)
    requires
        d.sites.contains_key(Site::Lower),
        d.sites.contains_key(Site::Upper),
    ensures
        match crate::overlay::preparing(World::Disk(d)) {
            Flow::Got(_, World::Disk(e)) => {
                &&& e.sites == d.sites.insert(
                    Site::NewLower,
                    d.oracle.changes.merged(d.sites[Site::Lower]),
                )
                &&& e.oracle == d.oracle
                &&& d.oracle.changes.fit(d.sites[Site::Lower])
            },
            Flow::Fail(_, World::Disk(e)) => {
                &&& scratch_only(d, e)
                &&& crate::model::never_faults(d) ==> !d.oracle.changes.fit(d.sites[Site::Lower])
                    && e.sites == d.sites.remove(Site::NewLower)
            },
            _ => false,
        },
{
    let copy = Action::CloneSite(Site::Lower, Site::NewLower);
    crate::model::step_upkeep(d, copy);
    let d1 = d.after(copy);
    let merge = Action::Merge(Site::NewLower);
    crate::model::step_upkeep(d1, merge);
    let d2 = d1.after(merge);
    crate::model::step_upkeep(d2, Action::SyncSite(Site::NewLower));
    crate::model::step_upkeep(d2, Action::Obliterate(Site::NewLower));
    reveal(Disk::possible);
    let m = d.sites;
    let t = m.remove(Site::NewLower).remove(Site::Backup);
    assert forall|v: Tree| #[trigger] m.insert(Site::NewLower, v).remove(Site::NewLower)
        == m.remove(Site::NewLower) by {
        assert(m.insert(Site::NewLower, v).remove(Site::NewLower) =~= m.remove(Site::NewLower));
    }
    assert forall|v: Tree| #[trigger]
        m.insert(Site::NewLower, v).remove(Site::NewLower).remove(Site::Backup) == t by {
        assert(m.insert(Site::NewLower, v).remove(Site::NewLower).remove(Site::Backup) =~= t);
    }
    assert forall|v: Tree, w: Tree| #[trigger]
        m.insert(Site::NewLower, v).insert(Site::NewLower, w) == m.insert(Site::NewLower, w) by {
        assert(m.insert(Site::NewLower, v).insert(Site::NewLower, w) =~= m.insert(
            Site::NewLower,
            w,
        ));
    }
    assert forall|v: Tree| #[trigger]
        m.insert(Site::NewLower, v).remove(Site::NewLower).remove(Site::NewLower).remove(
            Site::Backup,
        ) == t by {
        assert(m.insert(Site::NewLower, v).remove(Site::NewLower).remove(Site::NewLower).remove(
            Site::Backup,
        ) =~= t);
    }
}

/// An atomic commit: if it succeeds, the lower directory holds what merging the items of the
/// upper one leaves, which is what the overlay showed, of what the filter lets through;
/// without an upper directory nothing has changed. If it fails, the lower directory holds what
/// it held before, unless moving that back from the backup failed; then it is there still. The
/// upper directory is as it was in any case. Where nothing fails and every item fits, it
/// succeeds, and where nothing fails neither the copy nor the backup is left over.
pub proof fn law_commit_atomic(d: Disk)
    requires
        d.sites.contains_key(Site::Lower),
    ensures
        match crate::overlay::committing_atomic(World::Disk(d)) {
            Flow::Got(_, World::Disk(e)) => {
                &&& e.oracle == d.oracle
                &&& !d.sites.contains_key(Site::Upper) ==> e.sites == d.sites
                &&& d.sites.contains_key(Site::Upper) ==> {
                    &&& holds(
                        e,
                        Site::Lower,
                        d.oracle.changes.merged(d.sites[Site::Lower]),
                    )
                    &&& d.oracle.changes.sane() ==> is_overlay_of(
                        e.sites[Site::Lower],
                        d.oracle.changes,
                        d.sites[Site::Lower],
                    )
                    &&& holds(e, Site::Upper, d.sites[Site::Upper])
                    &&& crate::model::never_faults(d) ==> !e.sites.contains_key(Site::NewLower)
                        && !e.sites.contains_key(Site::Backup)
                }
            },
            Flow::Fail(_, World::Disk(e)) => {
                &&& holds(e, Site::Upper, d.sites[Site::Upper])
                &&& holds(e, Site::Lower, d.sites[Site::Lower]) || stranded(
                    e,
                    d.sites[Site::Lower],
                )
                &&& crate::model::never_faults(d) ==> !d.oracle.changes.fit(d.sites[Site::Lower])
                    && !e.sites.contains_key(Site::NewLower) && !e.sites.contains_key(Site::Backup)
            },
            _ => false,
        },
{
    crate::model::step_look(d, Site::Upper);
    let d1 = d.after(Action::Exists(Site::Upper));
    if d.sites.contains_key(Site::Upper) {
        lemma_clearing_site(d1, Site::NewLower);
        if let Flow::Got(_, World::Disk(d2)) = crate::overlay::clearing_site(
            Site::NewLower,
            World::Disk(d1),
        ) {
            lemma_scratch(d1, d2);
            lemma_clearing_site(d2, Site::Backup);
            if let Flow::Got(_, World::Disk(d3)) = crate::overlay::clearing_site(
                Site::Backup,
                World::Disk(d2),
            ) {
                lemma_scratch(d2, d3);
                lemma_preparing(d3);
                match crate::overlay::preparing(World::Disk(d3)) {
                    Flow::Got(_, World::Disk(d4)) => {
                        lemma_swapping(d4);
                        if d.oracle.changes.sane() {
                            lemma_merged(d.oracle.changes, d.sites[Site::Lower]);
                        }
                    },
                    Flow::Fail(_, World::Disk(d4)) => {
                        lemma_scratch(d3, d4);
                    },
                    _ => {},
                }
            }
        }
    }
}

/// A directory is the same.
pub open spec fn same_at(d: Disk, e: Disk, s: Site) -> bool {
    &&& e.sites.contains_key(s) == d.sites.contains_key(s)
    &&& d.sites.contains_key(s) ==> e.sites[s] == d.sites[s]
}

proof fn lemma_scratch(d: Disk, e: Disk)
    requires
        scratch_only(d, e),
    ensures
        same_at(d, e, Site::Lower),
        same_at(d, e, Site::Upper),
{
    let a = d.sites.remove(Site::NewLower).remove(Site::Backup);
    let b = e.sites.remove(Site::NewLower).remove(Site::Backup);
    assert(a.contains_key(Site::Lower) == d.sites.contains_key(Site::Lower));
    assert(b.contains_key(Site::Lower) == e.sites.contains_key(Site::Lower));
    assert(a.contains_key(Site::Upper) == d.sites.contains_key(Site::Upper));
    assert(b.contains_key(Site::Upper) == e.sites.contains_key(Site::Upper));
    if d.sites.contains_key(Site::Lower) {
        assert(a[Site::Lower] == d.sites[Site::Lower]);
        assert(b[Site::Lower] == e.sites[Site::Lower]);
    }
    if d.sites.contains_key(Site::Upper) {
        assert(a[Site::Upper] == d.sites[Site::Upper]);
        assert(b[Site::Upper] == e.sites[Site::Upper]);
    }
}

proof fn lemma_swapping(d: Disk)
    requires
        d.sites.contains_key(Site::Lower),
        d.sites.contains_key(Site::Upper),
        d.sites.contains_key(Site::NewLower),
    ensures
        match crate::overlay::swapping(World::Disk(d)) {
            Flow::Got(_, World::Disk(e)) => {
                &&& e.oracle == d.oracle
                &&& holds(e, Site::Lower, d.sites[Site::NewLower])
                &&& holds(e, Site::Upper, d.sites[Site::Upper])
                &&& crate::model::never_faults(d) ==> !e.sites.contains_key(Site::NewLower)
                    && !e.sites.contains_key(Site::Backup)
            },
            Flow::Fail(_, World::Disk(e)) => {
                &&& holds(e, Site::Upper, d.sites[Site::Upper])
                &&& holds(e, Site::Lower, d.sites[Site::Lower]) || stranded(
                    e,
                    d.sites[Site::Lower],
                )
                &&& !crate::model::never_faults(d)
            },
            _ => false,
        },
{
    let a = Action::MoveSite(Site::Lower, Site::Backup);
    let b = Action::MoveSite(Site::NewLower, Site::Lower);
    crate::model::step_upkeep(d, a);
    let d1 = d.after(a);
    crate::model::step_upkeep(d1, b);
    let d2 = d1.after(b);
    crate::model::step_upkeep(d2, Action::Obliterate(Site::Backup));
    let back = Action::MoveSite(Site::Backup, Site::Lower);
    crate::model::step_upkeep(d2, back);
    reveal(Disk::possible);
    if d.works(a) && !d1.works(b) && !d2.works(back) {
        assert(stranded(d2.after(back), d.sites[Site::Lower]));
    }
}

/// The commit that an action asks for.
pub open spec fn commit_of(action: OverlayAction, d: Disk) -> Flow<()> {
    if action is Commit {
        crate::overlay::committing_changes(World::Disk(d))
    } else {
        crate::overlay::committing_atomic(World::Disk(d))
    }
}

/// Dealing with the changes always comes to an end. Kept changes leave every directory as
/// it was. Discarded ones are gone, where nothing fails, and nothing else has changed.
pub proof fn law_preserve_and_discard(d: Disk)
    ensures
        crate::overlay::finishing(OverlayAction::Preserve, World::Disk(d)) == Flow::Got(
            (),
            World::Disk(d),
        ),
        crate::overlay::finishing(OverlayAction::Discard, World::Disk(d)) matches Flow::Got(
            _,
            World::Disk(e),
        ) && {
            &&& e.sites.remove(Site::Upper) == d.sites.remove(Site::Upper)
            &&& crate::model::never_faults(d) ==> !e.sites.contains_key(Site::Upper)
        },
{
    crate::model::step_upkeep(d, Action::Obliterate(Site::Upper));
    reveal(Disk::possible);
    let m = d.sites;
    assert(m.remove(Site::Upper).remove(Site::Upper) =~= m.remove(Site::Upper));
}

/// Committed changes: the upper directory is removed only after the commit succeeded. If
/// the commit failed, it is there as it was, and the user is told.
pub proof fn law_upper_outlives_failed_commit(d: Disk, action: OverlayAction)
    requires
        action is Commit || action is CommitAtomic,
        d.sites.contains_key(Site::Lower),
        d.sites.contains_key(Site::Upper),
    ensures
        crate::overlay::finishing(action, World::Disk(d)) matches Flow::Got(_, World::Disk(e)) && {
            &&& commit_of(action, d) is Fail ==> holds(e, Site::Upper, d.sites[Site::Upper])
                && crate::model::asked_last(e, Action::Report)
            &&& commit_of(action, d) is Got ==> holds(
                e,
                Site::Lower,
                d.oracle.changes.merged(d.sites[Site::Lower]),
            )
            &&& commit_of(action, d) is Got && crate::model::never_faults(d)
                ==> !e.sites.contains_key(Site::Upper)
        },
{
    law_commit(d);
    law_commit_atomic(d);
    match commit_of(action, d) {
        Flow::Got(_, World::Disk(d1)) => {
            crate::model::step_upkeep(d1, Action::Obliterate(Site::Upper));
            reveal(Disk::possible);
        },
        Flow::Fail(_, World::Disk(d1)) => {
            crate::model::step_upkeep(d1, Action::Report);
            crate::model::step_log(d1, Action::Report);
            if action is Commit {
                assert(d1.sites.remove(Site::Lower).contains_key(Site::Upper) == d.sites.remove(
                    Site::Lower,
                ).contains_key(Site::Upper));
                assert(d1.sites.remove(Site::Lower)[Site::Upper] == d.sites.remove(
                    Site::Lower,
                )[Site::Upper]);
            }
        },
        _ => {},
    }
}

/// Two answers tell that the mount point lies on another device than what holds it.
pub open spec fn told_mounted(t: Seq<Answer>, p: int) -> bool {
    t[p] is Count && t[p + 1] is Count && t[p] != t[p + 1]
}

/// Two answers tell that the mount point lies on the device of what holds it.
pub open spec fn told_free(t: Seq<Answer>, p: int) -> bool {
    t[p] is Count && t[p + 1] is Count && t[p] == t[p + 1]
}

/// An overlay counts as mounted only once its mount point is served: the last thing that is
/// asked for is to serve it, and that has been done.
pub proof fn law_mount_serves(t: Seq<Answer>, p: int)
    requires
        0 <= p <= t.len(),
    ensures
        crate::overlay::mounting(World::Tape(t, p)) matches Flow::Got(_, v) ==> v matches World::Tape(
            _,
            q,
        ) && p < q <= t.len() && t[q - 1] is Done && crate::overlay::mounting(
            World::Tape(t.take(q - 1), p),
        ) == Flow::<()>::Ask(Action::Spawn),
{
    if let Flow::Got(_, World::Tape(_, q)) = crate::overlay::mounting(World::Tape(t, p)) {
        let u = t.take(q - 1);
        assert(forall|i: int| 0 <= i < u.len() ==> #[trigger] u[i] == t[i]);
    }
}

/// Waiting for the end of a session asks at most as often as it is told to whether the mount
/// point is still mounted, pauses after each time that it is, and stops when it is not.
pub proof fn law_waiting_is_bounded(t: Seq<Answer>, p: int, n: nat)
    requires
        0 <= p,
    ensures
        p + 3 * n <= t.len() && (forall|i: int|
            0 <= i < n ==> #[trigger] told_mounted(t, p + 3 * i)) ==> crate::overlay::waiting(
            false,
            n,
            World::Tape(t, p),
        ) == Flow::Got((), World::Tape(t, p + 3 * n)),
        n > 0 && p + 2 == t.len() && told_mounted(t, p) ==> crate::overlay::waiting(
            false,
            n,
            World::Tape(t, p),
        ) == Flow::<()>::Ask(Action::Pause),
        n > 0 && p + 2 <= t.len() && told_free(t, p) ==> crate::overlay::waiting(
            false,
            n,
            World::Tape(t, p),
        ) == Flow::Got((), World::Tape(t, p + 2)),
    decreases n,
{
    if n > 0 {
        let m = (n - 1) as nat;
        law_waiting_is_bounded(t, p + 3, m);
        if p + 3 * n <= t.len() && (forall|i: int|
            0 <= i < n ==> #[trigger] told_mounted(t, p + 3 * i)) {
            assert(told_mounted(t, p + 3 * 0));
            assert forall|i: int| 0 <= i < m implies #[trigger] told_mounted(t, p + 3 + 3 * i) by {
                assert(told_mounted(t, p + 3 * (i + 1)));
            }
        }
    }
}

/// Unmounting a served overlay ends its session first. What is still mounted is unmounted,
/// and what is mounted even then is detached; nothing of the kind is asked for otherwise.
pub proof fn law_unmounting_insists(t: Seq<Answer>, p: int, at_root: bool)
    requires
        0 <= p <= t.len(),
    ensures
        p == t.len() ==> crate::overlay::unmounting(true, at_root, World::Tape(t, p)) == Flow::<
            (),
        >::Ask(Action::EndSession),
        p + 2 == t.len() && told_mounted(t, p) ==> crate::overlay::unmounting(
            false,
            false,
            World::Tape(t, p),
        ) == Flow::<()>::Ask(Action::Unmount(false)),
        p + 5 == t.len() && told_mounted(t, p) && told_mounted(t, p + 3)
            ==> crate::overlay::unmounting(false, false, World::Tape(t, p)) == Flow::<()>::Ask(
            Action::Unmount(true),
        ),
        p + 2 == t.len() && told_free(t, p) ==> crate::overlay::unmounting(
            false,
            false,
            World::Tape(t, p),
        ) == Flow::<()>::Ask(Action::Exists(Site::MountPoint)),
        p + 5 == t.len() && told_mounted(t, p) && told_free(t, p + 3)
            ==> crate::overlay::unmounting(false, false, World::Tape(t, p)) == Flow::<()>::Ask(
            Action::Exists(Site::MountPoint),
        ),
        p == t.len() ==> crate::overlay::unmounting(false, true, World::Tape(t, p)) == Flow::<
            (),
        >::Ask(Action::Unmount(false)),
        p + 1 == t.len() ==> crate::overlay::unmounting(false, true, World::Tape(t, p)) == Flow::<
            (),
        >::Ask(Action::Unmount(true)),
{
}

/// Unmounting a served overlay goes on, once its session has ended and has been waited for,
/// as unmounting one that is not served.
pub proof fn law_unmounting_after_session(t: Seq<Answer>, p: int)
    requires
        0 <= p,
    ensures
        p + 3 <= t.len() && told_free(t, p + 1) ==> crate::overlay::unmounting(
            true,
            false,
            World::Tape(t, p),
        ) == crate::overlay::unmounting(false, false, World::Tape(t, p + 3)),
        p + 31 <= t.len() && (forall|i: int|
            0 <= i < 10 ==> #[trigger] told_mounted(t, p + 1 + 3 * i)) ==> crate::overlay::unmounting(
            true,
            false,
            World::Tape(t, p),
        ) == crate::overlay::unmounting(false, false, World::Tape(t, p + 31)),
{
    law_waiting_is_bounded(t, p + 1, 10);
}

/// Changes are committed only once they have been merged and flushed: a commit that succeeds
/// has had both done, and what failed of it is what it fails with.
pub proof fn law_commit_flushes(t: Seq<Answer>, p: int)
    requires
        0 <= p,
        p + 3 <= t.len(),
        t[p] is Done,
    ensures
        crate::overlay::committing_changes(World::Tape(t.take(p + 2), p)) == if t[p + 1] is Done {
            Flow::<()>::Ask(Action::SyncSite(Site::Lower))
        } else {
            Flow::Fail(t[p + 1].code(), World::Tape(t.take(p + 2), p + 2))
        },
        crate::overlay::committing_changes(World::Tape(t, p)) is Got <==> t[p + 1] is Done && t[p
            + 2] is Done,
        crate::overlay::committing_changes(World::Tape(t, p)) matches Flow::Fail(c, _) ==> c == if t[p
            + 1] is Done {
            t[p + 2].code()
        } else {
            t[p + 1].code()
        },
{
    let u = t.take(p + 2);
    assert(forall|i: int| 0 <= i < u.len() ==> #[trigger] u[i] == t[i]);
}

/// The copy that is to take the place of the lower directory is ready only once the changes
/// have been merged into it and it has been flushed; what failed of that is what the commit
/// fails with, not what became of clearing up.
pub proof fn law_copy_is_ready(t: Seq<Answer>, p: int)
    requires
        0 <= p,
        p + 3 <= t.len(),
    ensures
        t[p] is Done && t[p + 1] is Done ==> crate::overlay::preparing(
            World::Tape(t.take(p + 2), p),
        ) == Flow::<()>::Ask(Action::SyncSite(Site::NewLower)),
        crate::overlay::preparing(World::Tape(t, p)) is Got <==> t[p] is Done && t[p + 1] is Done
            && t[p + 2] is Done,
        crate::overlay::preparing(World::Tape(t, p)) matches Flow::Fail(c, _) ==> c == if !(
        t[p] is Done) {
            t[p].code()
        } else if !(t[p + 1] is Done) {
            t[p + 1].code()
        } else {
            t[p + 2].code()
        },
{
    let u = t.take(p + 2);
    assert(forall|i: int| 0 <= i < u.len() ==> #[trigger] u[i] == t[i]);
}

/// The swap fails with what kept the new directory from its place, not with what became of
/// putting the old one back.
pub proof fn law_swap_failure(t: Seq<Answer>, p: int)
    requires
        0 <= p,
        p + 3 <= t.len(),
    ensures
        crate::overlay::swapping(World::Tape(t, p)) is Got <==> t[p] is Done && t[p + 1] is Done,
        crate::overlay::swapping(World::Tape(t, p)) matches Flow::Fail(c, _) ==> c == if !(
        t[p] is Done) {
            t[p].code()
        } else {
            t[p + 1].code()
        },
{
}

/// A commit that succeeded has the upper directory deleted; of one that failed the user is
/// told. Nothing else is asked for after either.
pub proof fn law_commit_is_concluded(t: Seq<Answer>, p: int, action: OverlayAction)
    requires
        action is Commit || action is CommitAtomic,
    ensures
        ({
            let end = World::Tape(t, t.len() as int);
            let commit = if action is Commit {
                crate::overlay::committing_changes(World::Tape(t, p))
            } else {
                crate::overlay::committing_atomic(World::Tape(t, p))
            };
            let all = crate::overlay::finishing(action, World::Tape(t, p));
            &&& commit == Flow::Got((), end) ==> all == Flow::<()>::Ask(
                Action::Obliterate(Site::Upper),
            )
            &&& (commit matches Flow::Fail(_, v) ==> (v == end ==> all == Flow::<()>::Ask(
                Action::Report,
            )))
            &&& commit matches Flow::Ask(a) ==> all == Flow::<()>::Ask(a)
            &&& all !is Fail
        }),
{
}

/// Closing an overlay that is served unmounts it and then deals with the changes; one that
/// is not served is not unmounted.
pub proof fn law_close(d: Disk, at_root: bool, action: OverlayAction, w: World)
    ensures
        crate::overlay::closing(false, at_root, action, w) == crate::overlay::finishing(action, w),
        crate::overlay::unmounting(true, at_root, World::Disk(d)) matches Flow::Got(_, v)
            && crate::overlay::closing(true, at_root, action, World::Disk(d))
            == crate::overlay::finishing(action, v),
{
    law_umount(d, true, at_root);
}

/// Where the directories of an overlay lie: the copy and the backup beside the lower
/// directory, under its name with `.new` and `.backup` behind it, and the parent of the mount
/// point one level up, if there is one.
pub proof fn law_site_paths(o: Setup, name: Seq<u8>)
    requires
        crate::path::file_name(o.lower) == Some(name),
    ensures
        o.site(Site::Lower) == o.lower,
        o.site(Site::Upper) == o.upper,
        o.site(Site::MountPoint) == o.mount_point,
        crate::path::components(o.site(Site::NewLower)) == crate::path::components(
            o.lower,
        ).drop_last().push(name + seq![46u8, 110, 101, 119]),
        crate::path::components(o.site(Site::Backup)) == crate::path::components(
            o.lower,
        ).drop_last().push(name + seq![46u8, 98, 97, 99, 107, 117, 112]),
        crate::path::file_name(o.mount_point) is Some ==> crate::path::components(
            o.site(Site::MountParent),
        ) == crate::path::components(o.mount_point).drop_last(),
        crate::path::parent(o.mount_point) is None ==> o.site(Site::MountParent) == o.mount_point,
{
    reveal_strlit(".new");
    reveal_strlit(".backup");
    vstd::utf8::is_ascii_chars_encode_utf8(".new"@);
    vstd::utf8::is_ascii_chars_encode_utf8(".backup"@);
    let a = vstd::utf8::encode_utf8(".new"@);
    let b = vstd::utf8::encode_utf8(".backup"@);
    assert(a =~= seq![46u8, 110, 101, 119]) by {
        assert(".new"@[0] == '.' && ".new"@[1] == 'n' && ".new"@[2] == 'e' && ".new"@[3] == 'w');
    }
    assert(b =~= seq![46u8, 98, 97, 99, 107, 117, 112]) by {
        assert(".backup"@[0] == '.' && ".backup"@[1] == 'b' && ".backup"@[2] == 'a'
            && ".backup"@[3] == 'c' && ".backup"@[4] == 'k' && ".backup"@[5] == 'u'
            && ".backup"@[6] == 'p');
    }
    crate::path::lemma_appended(o.lower, a);
    crate::path::lemma_appended(o.lower, b);
    crate::path::lemma_parent(o.mount_point);
}

/// The mount point is the root exactly if it is absolute and names nothing below the root.
pub proof fn law_at_root(o: Setup)
    ensures
        crate::path::file_name(o.mount_point) is Some ==> !o.at_root(),
        o.at_root() ==> crate::path::parent(o.mount_point) is None,
        o.mount_point == seq![crate::path::SLASH] ==> o.at_root(),
{
    crate::path::lemma_parent(o.mount_point);
}

} // verus!
