//! What a commit leaves out.

use crate::path::{has_prefix, list_starts_with, normalise_dir, FsPath};
use crate::protocol::{FileKind, Meta};
use crate::text::to_text_lossy;
use vstd::prelude::*;

verus! {

/// Whether `Regex::new` accepts the pattern.
pub uninterp spec fn regex_compiles(pattern: Seq<char>) -> bool;

/// What `Regex::is_match` says of the text, for a pattern that `Regex::new` accepts.
pub uninterp spec fn regex_is_match(pattern: Seq<char>, text: Seq<char>) -> bool;

/// Whether `Pattern::new` accepts the pattern.
pub uninterp spec fn glob_compiles(pattern: Seq<char>) -> bool;

/// What `Pattern::matches` says of the text, for a pattern that `Pattern::new` accepts.
pub uninterp spec fn glob_is_match(pattern: Seq<char>, text: Seq<char>) -> bool;

/// Calls `regex::Regex::new` and says whether it accepted the pattern. That depends on
/// the pattern alone.
#[verifier::external_body]
fn check_regex(pattern: &str) -> (r: bool)
    ensures
        r == regex_compiles(pattern@),
{
    regex::Regex::new(pattern).is_ok()
}

/// Calls `regex::Regex::is_match` on the compiled pattern: whether it matches anywhere in
/// the text. A pattern that does not compile matches nothing.
#[verifier::external_body]
fn match_regex(pattern: &str, text: &str) -> (r: bool)
    ensures
        r == (regex_compiles(pattern@) && regex_is_match(pattern@, text@)),
{
    match regex::Regex::new(pattern) {
        Ok(re) => re.is_match(text),
        Err(_) => false,
    }
}

/// Calls `glob::Pattern::new` and says whether it accepted the pattern. That depends on
/// the pattern alone.
#[verifier::external_body]
fn check_glob(pattern: &str) -> (r: bool)
    ensures
        r == glob_compiles(pattern@),
{
    glob::Pattern::new(pattern).is_ok()
}

/// Calls `glob::Pattern::matches` on the compiled pattern: whether it matches the whole
/// text. A pattern that does not compile matches nothing.
#[verifier::external_body]
fn match_glob(pattern: &str, text: &str) -> (r: bool)
    ensures
        r == (glob_compiles(pattern@) && glob_is_match(pattern@, text@)),
{
    match glob::Pattern::new(pattern) {
        Ok(glob) => glob.matches(text),
        Err(_) => false,
    }
}

/// The components of each path in a list.
pub open spec fn path_set(list: Seq<FsPath>) -> Set<Seq<Seq<u8>>> {
    Set::new(
        |c: Seq<Seq<u8>>|
            exists|i: int|
                0 <= i < list.len() && c == crate::path::components((#[trigger] list[i])@),
    )
}

/// The texts in a list.
pub open spec fn text_set(list: Seq<String>) -> Set<Seq<char>> {
    Set::new(|t: Seq<char>| exists|i: int| 0 <= i < list.len() && t == (#[trigger] list[i])@)
}

/// The components of each path in a list, taken relative to the root.
pub open spec fn rooted_set(list: Seq<FsPath>) -> Set<Seq<Seq<u8>>> {
    Set::new(
        |c: Seq<Seq<u8>>|
            exists|i: int|
                0 <= i < list.len() && c == crate::path::below_root(
                    crate::path::components((#[trigger] list[i])@),
                ),
    )
}

/// The rules of a filter. Paths are given by their components, relative to the root.
#[verifier::ext_equal]
pub struct Rules {
    /// Paths that are committed whatever the other rules say.
    pub forced: Set<Seq<Seq<u8>>>,
    /// Directories that are left out with all they hold.
    pub dirs: Set<Seq<Seq<u8>>>,
    /// Names that are left out wherever they appear.
    pub names: Set<Seq<char>>,
    /// Directories in which empty files are left out.
    pub no_empty: Set<Seq<Seq<u8>>>,
    /// Whether entries without any permission are left out.
    pub zero: bool,
    /// Regular expressions of which none may match the path.
    pub regexes: Set<Seq<char>>,
    /// Glob patterns of which none may match the path.
    pub globs: Set<Seq<char>>,
}

impl Rules {
    /// No rules at all.
    pub open spec fn none() -> Rules {
        Rules {
            forced: Set::empty(),
            dirs: Set::empty(),
            names: Set::empty(),
            no_empty: Set::empty(),
            zero: false,
            regexes: Set::empty(),
            globs: Set::empty(),
        }
    }

    /// A path is at or below a directory that is left out.
    pub open spec fn in_dir(self, rel: Seq<u8>) -> bool {
        exists|d: Seq<Seq<u8>>| #[trigger]
            self.dirs.contains(d) && d.is_prefix_of(crate::path::components(rel))
    }

    /// The name of an entry is one that is left out.
    pub open spec fn has_name(self, rel: Seq<u8>) -> bool {
        crate::path::file_name(rel) matches Some(name) && self.names.contains(
            crate::text::lossy_text(name),
        )
    }

    /// A regular expression matches a path.
    pub open spec fn by_regex(self, rel: Seq<u8>) -> bool {
        exists|p: Seq<char>| #[trigger]
            self.regexes.contains(p) && regex_compiles(p) && regex_is_match(
                p,
                crate::text::lossy_text(rel),
            )
    }

    /// A glob pattern matches a path.
    pub open spec fn by_glob(self, rel: Seq<u8>) -> bool {
        exists|p: Seq<char>| #[trigger]
            self.globs.contains(p) && glob_compiles(p) && glob_is_match(
                p,
                crate::text::lossy_text(rel),
            )
    }

    /// The rules that need the path alone leave the entry out.
    pub open spec fn by_path(self, rel: Seq<u8>) -> bool {
        self.by_regex(rel) || self.by_glob(rel) || self.has_name(rel) || self.in_dir(rel)
    }

    /// One of the directories above a path is one in which empty files are left out.
    pub open spec fn below_no_empty(self, rel: Seq<u8>) -> bool {
        exists|d: Seq<Seq<u8>>| #[trigger]
            self.no_empty.contains(d) && d.len() < crate::path::components(rel).len()
                && d.is_prefix_of(crate::path::components(rel)) && (d.len() > 0
                || !crate::path::is_absolute(rel))
    }

    /// An entry has no permission at all, and such entries are left out.
    pub open spec fn by_mode(self, meta: Meta) -> bool {
        self.zero && meta.kind != FileKind::Symlink && meta.mode & 0o777 == 0
    }

    /// An entry is an empty file where such files are left out.
    pub open spec fn by_size(self, rel: Seq<u8>, meta: Meta) -> bool {
        meta.kind == FileKind::RegularFile && meta.size == 0 && self.below_no_empty(rel)
    }

    /// The decision on an entry depends on more than its path.
    pub open spec fn needs_meta(self, rel: Seq<u8>) -> bool {
        !self.by_path(rel) && (self.zero || self.no_empty != Set::<Seq<Seq<u8>>>::empty())
    }

    /// An entry is left out. Without metadata the rules that need it do not apply.
    pub open spec fn skips(self, rel: Seq<u8>, meta: Option<Meta>) -> bool {
        self.by_path(rel) || (meta matches Some(m) && (self.by_mode(m) || self.by_size(rel, m)))
    }

    /// A path is committed whatever the other rules say.
    pub open spec fn forces(self, rel: Seq<u8>) -> bool {
        self.forced.contains(crate::path::components(rel))
    }

    /// A path that is committed whatever the other rules say lies at or below this one.
    pub open spec fn leads_to_forced(self, rel: Seq<u8>) -> bool {
        exists|f: Seq<Seq<u8>>| #[trigger]
            self.forced.contains(f) && crate::path::components(rel).is_prefix_of(f)
    }

    /// An entry is kept out of a commit: some rule leaves it out, it is not forced, and it
    /// is no directory on the way to a forced path.
    pub open spec fn excludes(self, rel: Seq<u8>, is_dir: bool, meta: Option<Meta>) -> bool {
        self.skips(rel, meta) && !self.forces(rel) && !(is_dir && self.leads_to_forced(rel))
    }
}

/// Controls which entries a commit leaves out.
pub struct CommitFilter {
    /// Paths that are committed even if other rules match.
    pub force_files: Vec<FsPath>,
    /// Directories that are left out with all they hold.
    pub skip_dirs: Vec<FsPath>,
    /// Bare names that are left out wherever they appear.
    pub skip_files: Vec<String>,
    /// Directories in which empty files are left out.
    pub skip_empty_files_in: Vec<FsPath>,
    /// Whether entries other than symbolic links with mode `0o000` are left out.
    pub skip_zero_permissions: bool,
    /// Regular expressions for paths that are left out.
    pub skip_regexes: Vec<String>,
    /// Glob patterns for paths that are left out.
    pub skip_globs: Vec<String>,
}

impl View for CommitFilter {
    type V = Rules;

    open spec fn view(&self) -> Rules {
        Rules {
            forced: path_set(self.force_files@),
            dirs: path_set(self.skip_dirs@),
            names: text_set(self.skip_files@),
            no_empty: path_set(self.skip_empty_files_in@),
            zero: self.skip_zero_permissions,
            regexes: text_set(self.skip_regexes@),
            globs: text_set(self.skip_globs@),
        }
    }
}

/// The directories at the root that a filter for a root filesystem leaves out.
pub open spec fn rootfs_dirs() -> Seq<Seq<char>> {
    seq!["boot"@, "dev"@, "lost+found"@, "media"@, "mnt"@, "proc"@, "run"@, "sys"@, "tmp"@]
}

/// The components of each of the given texts, read as paths.
pub open spec fn text_paths(texts: Seq<Seq<char>>) -> Set<Seq<Seq<u8>>> {
    Set::new(
        |c: Seq<Seq<u8>>|
            exists|i: int|
                0 <= i < texts.len() && c == crate::path::components(
                    vstd::utf8::encode_utf8(#[trigger] texts[i]),
                ),
    )
}

proof fn lemma_push_path(list: Seq<FsPath>, p: FsPath)
    ensures
        path_set(list.push(p)) == path_set(list).insert(crate::path::components(p@)),
{
    let more = list.push(p);
    let want = path_set(list).insert(crate::path::components(p@));
    assert forall|c: Seq<Seq<u8>>| path_set(more).contains(c) == want.contains(c) by {
        if path_set(list).contains(c) {
            let i = choose|i: int|
                0 <= i < list.len() && c == crate::path::components((#[trigger] list[i])@);
            assert(c == crate::path::components(more[i]@));
        }
        if c == crate::path::components(p@) {
            assert(c == crate::path::components(more[list.len() as int]@));
        }
        if path_set(more).contains(c) {
            let i = choose|i: int|
                0 <= i < more.len() && c == crate::path::components((#[trigger] more[i])@);
            if i < list.len() {
                assert(c == crate::path::components(list[i]@));
            }
        }
    }
    assert(path_set(more) =~= want);
}

proof fn lemma_push_text(list: Seq<String>, t: String)
    ensures
        text_set(list.push(t)) == text_set(list).insert(t@),
{
    let more = list.push(t);
    let want = text_set(list).insert(t@);
    assert forall|c: Seq<char>| text_set(more).contains(c) == want.contains(c) by {
        if text_set(list).contains(c) {
            let i = choose|i: int| 0 <= i < list.len() && c == (#[trigger] list[i])@;
            assert(c == more[i]@);
        }
        if c == t@ {
            assert(c == more[list.len() as int]@);
        }
        if text_set(more).contains(c) {
            let i = choose|i: int| 0 <= i < more.len() && c == (#[trigger] more[i])@;
            if i < list.len() {
                assert(c == list[i]@);
            }
        }
    }
    assert(text_set(more) =~= want);
}

/// Adds a path, taken relative to the root.
fn add_rooted(list: &mut Vec<FsPath>, path: &FsPath)
    ensures
        path_set(final(list)@) == path_set(old(list)@).insert(
            crate::path::below_root(crate::path::components(path@)),
        ),
{
    let p = normalise_dir(path);
    proof {
        lemma_push_path(list@, p);
    }
    list.push(p);
}

/// Adds each path, taken relative to the root.
fn add_all_rooted(list: &mut Vec<FsPath>, paths: &Vec<FsPath>)
    ensures
        path_set(final(list)@) == path_set(old(list)@).union(rooted_set(paths@)),
{
    let ghost was = path_set(list@);
    let mut i: usize = 0;
    assert(was.union(rooted_set(paths@.take(0))) =~= was);
    while i < paths.len()
        invariant
            i <= paths.len(),
            path_set(list@) == was.union(rooted_set(paths@.take(i as int))),
        decreases paths.len() - i,
    {
        add_rooted(list, &paths[i]);
        proof {
            let c = crate::path::below_root(crate::path::components(paths@[i as int]@));
            lemma_rooted_step(paths@, i as int);
            assert(was.union(rooted_set(paths@.take(i as int))).insert(c) =~= was.union(
                rooted_set(paths@.take(i + 1)),
            ));
        }
        i += 1;
    }
    assert(paths@.take(i as int) =~= paths@);
}

proof fn lemma_rooted_step(paths: Seq<FsPath>, i: int)
    requires
        0 <= i < paths.len(),
    ensures
        rooted_set(paths.take(i + 1)) == rooted_set(paths.take(i)).insert(
            crate::path::below_root(crate::path::components(paths[i]@)),
        ),
{
    let a = paths.take(i);
    let b = paths.take(i + 1);
    let last = crate::path::below_root(crate::path::components(paths[i]@));
    assert forall|c: Seq<Seq<u8>>|
        rooted_set(b).contains(c) == rooted_set(a).insert(last).contains(c) by {
        if rooted_set(a).contains(c) {
            let j = choose|j: int|
                0 <= j < a.len() && c == crate::path::below_root(
                    crate::path::components((#[trigger] a[j])@),
                );
            assert(b[j] == a[j]);
        }
        if c == last {
            assert(b[i] == paths[i]);
        }
        if rooted_set(b).contains(c) {
            let j = choose|j: int|
                0 <= j < b.len() && c == crate::path::below_root(
                    crate::path::components((#[trigger] b[j])@),
                );
            if j < i {
                assert(a[j] == b[j]);
            }
        }
    }
    assert(rooted_set(b) =~= rooted_set(a).insert(last));
}

/// Whether a path, found by its components, is in a list.
fn has_path(list: &Vec<FsPath>, key: &Vec<Vec<u8>>) -> (r: bool)
    ensures
        r == path_set(list@).contains(crate::path::views(key@)),
{
    let mut i: usize = 0;
    while i < list.len()
        invariant
            i <= list.len(),
            forall|j: int|
                0 <= j < i ==> crate::path::components((#[trigger] list@[j])@)
                    != crate::path::views(key@),
        decreases list.len() - i,
    {
        if crate::path::same_list(&list[i].components(), key) {
            assert(crate::path::components(list@[i as int]@) == crate::path::views(key@));
            return true;
        }
        i += 1;
    }
    false
}

impl Default for CommitFilter {
    /// A filter that leaves nothing out.
    fn default() -> (r: CommitFilter)
        ensures
            r@ == Rules::none(),
    {
        CommitFilter::new()
    }
}

impl CommitFilter {
    /// A filter that leaves nothing out.
    pub fn new() -> (r: CommitFilter)
        ensures
            r@ == Rules::none(),
    {
        let r = CommitFilter {
            force_files: Vec::new(),
            skip_dirs: Vec::new(),
            skip_files: Vec::new(),
            skip_empty_files_in: Vec::new(),
            skip_zero_permissions: false,
            skip_regexes: Vec::new(),
            skip_globs: Vec::new(),
        };
        assert(r@ =~= Rules::none());
        r
    }

    /// A filter for the overlay of a root filesystem: it leaves out the directories that
    /// the kernel or a sandbox manages, and entries without any permission.
    pub fn rootfs() -> (r: CommitFilter)
        ensures
            r@ == (Rules { zero: true, dirs: text_paths(rootfs_dirs()), ..Rules::none() }),
    {
        let names: [&str; 9] = [
            "boot",
            "dev",
            "lost+found",
            "media",
            "mnt",
            "proc",
            "run",
            "sys",
            "tmp",
        ];
        let mut filter = CommitFilter::new();
        filter.skip_zero_permissions = true;
        let mut i: usize = 0;
        assert(text_paths(rootfs_dirs().take(0)) =~= Set::empty());
        while i < 9
            invariant
                i <= 9,
                names@.len() == 9,
                forall|j: int| 0 <= j < 9 ==> (#[trigger] names@[j])@ == rootfs_dirs()[j],
                filter@ == (Rules {
                    zero: true,
                    dirs: text_paths(rootfs_dirs().take(i as int)),
                    ..Rules::none()
                }),
            decreases 9 - i,
        {
            let p = FsPath::from_text(names[i]);
            proof {
                lemma_push_path(filter.skip_dirs@, p);
                lemma_text_step(rootfs_dirs(), i as int);
            }
            filter.skip_dirs.push(p);
            i += 1;
        }
        assert(rootfs_dirs().take(9) =~= rootfs_dirs());
        filter
    }

    /// Leaves out a directory with all it holds. A leading `/` does not count.
    pub fn skip_dir(self, path: &FsPath) -> (r: CommitFilter)
        ensures
            r@ == (Rules {
                dirs: self@.dirs.insert(
                    crate::path::below_root(crate::path::components(path@)),
                ),
                ..self@
            }),
    {
        let mut f = self;
        add_rooted(&mut f.skip_dirs, path);
        f
    }

    /// Leaves out each of the directories.
    pub fn skip_dirs(self, paths: &Vec<FsPath>) -> (r: CommitFilter)
        ensures
            r@ == (Rules { dirs: self@.dirs.union(rooted_set(paths@)), ..self@ }),
    {
        let mut f = self;
        add_all_rooted(&mut f.skip_dirs, paths);
        f
    }

    /// Leaves out every entry of that name, wherever it appears.
    pub fn skip_file(self, name: String) -> (r: CommitFilter)
        ensures
            r@ == (Rules { names: self@.names.insert(name@), ..self@ }),
    {
        let mut f = self;
        proof {
            lemma_push_text(f.skip_files@, name);
        }
        f.skip_files.push(name);
        f
    }

    /// Leaves out every entry that has one of the names.
    pub fn skip_files(self, names: Vec<String>) -> (r: CommitFilter)
        ensures
            r@ == (Rules { names: self@.names.union(text_set(names@)), ..self@ }),
    {
        let mut f = self;
        let ghost was = f.skip_files@;
        let mut more = names;
        f.skip_files.append(&mut more);
        proof {
            let all = f.skip_files@;
            assert(all == was + names@);
            assert forall|c: Seq<char>|
                text_set(all).contains(c) == text_set(was).union(text_set(names@)).contains(c) by {
                if text_set(was).contains(c) {
                    let i = choose|i: int| 0 <= i < was.len() && c == (#[trigger] was[i])@;
                    assert(all[i] == was[i]);
                }
                if text_set(names@).contains(c) {
                    let i = choose|i: int| 0 <= i < names@.len() && c == (#[trigger] names@[i])@;
                    assert(all[was.len() + i] == names@[i]);
                }
                if text_set(all).contains(c) {
                    let i = choose|i: int| 0 <= i < all.len() && c == (#[trigger] all[i])@;
                    if i < was.len() {
                        assert(was[i] == all[i]);
                    } else {
                        assert(names@[i - was.len()] == all[i]);
                    }
                }
            }
            assert(text_set(all) =~= text_set(was).union(text_set(names@)));
        }
        f
    }

    /// Commits a path whatever the other rules say.
    pub fn force_file(self, path: &FsPath) -> (r: CommitFilter)
        ensures
            r@ == (Rules {
                forced: self@.forced.insert(
                    crate::path::below_root(crate::path::components(path@)),
                ),
                ..self@
            }),
    {
        let mut f = self;
        add_rooted(&mut f.force_files, path);
        f
    }

    /// Commits each of the paths whatever the other rules say.
    pub fn force_files(self, paths: &Vec<FsPath>) -> (r: CommitFilter)
        ensures
            r@ == (Rules { forced: self@.forced.union(rooted_set(paths@)), ..self@ }),
    {
        let mut f = self;
        add_all_rooted(&mut f.force_files, paths);
        f
    }

    /// Leaves out the empty files in a directory, at any depth. The directory itself is
    /// committed.
    pub fn skip_empty_files_in(self, dir: &FsPath) -> (r: CommitFilter)
        ensures
            r@ == (Rules {
                no_empty: self@.no_empty.insert(
                    crate::path::below_root(crate::path::components(dir@)),
                ),
                ..self@
            }),
    {
        let mut f = self;
        add_rooted(&mut f.skip_empty_files_in, dir);
        f
    }

    /// Leaves out the empty files in each of the directories.
    pub fn skip_empty_files_in_dirs(self, dirs: &Vec<FsPath>) -> (r: CommitFilter)
        ensures
            r@ == (Rules { no_empty: self@.no_empty.union(rooted_set(dirs@)), ..self@ }),
    {
        let mut f = self;
        add_all_rooted(&mut f.skip_empty_files_in, dirs);
        f
    }

    /// Whether entries without any permission are left out.
    pub fn skip_zero_permissions(self, enabled: bool) -> (r: CommitFilter)
        ensures
            r@ == (Rules { zero: enabled, ..self@ }),
    {
        let mut f = self;
        f.skip_zero_permissions = enabled;
        f
    }

    /// Leaves out every path that the regular expression matches. A pattern that does not
    /// compile is ignored.
    pub fn skip_regex(self, pattern: &str) -> (r: CommitFilter)
        ensures
            regex_compiles(pattern@) ==> r@ == (Rules {
                regexes: self@.regexes.insert(pattern@),
                ..self@
            }),
            !regex_compiles(pattern@) ==> r@ == self@,
    {
        let mut f = self;
        if check_regex(pattern) {
            let p = pattern.to_string();
            proof {
                lemma_push_text(f.skip_regexes@, p);
            }
            f.skip_regexes.push(p);
        }
        f
    }

    /// Leaves out every path that the glob pattern matches. A pattern that does not
    /// compile is ignored.
    pub fn skip_glob(self, pattern: &str) -> (r: CommitFilter)
        ensures
            glob_compiles(pattern@) ==> r@ == (Rules {
                globs: self@.globs.insert(pattern@),
                ..self@
            }),
            !glob_compiles(pattern@) ==> r@ == self@,
    {
        let mut f = self;
        if check_glob(pattern) {
            let p = pattern.to_string();
            proof {
                lemma_push_text(f.skip_globs@, p);
            }
            f.skip_globs.push(p);
        }
        f
    }

    /// Leaves out the directory `home`.
    pub fn skip_homedir(self) -> (r: CommitFilter)
        ensures
            r@ == (Rules {
                dirs: self@.dirs.insert(
                    crate::path::components(vstd::utf8::encode_utf8("home"@)),
                ),
                ..self@
            }),
    {
        let mut f = self;
        let p = FsPath::from_text("home");
        proof {
            lemma_push_path(f.skip_dirs@, p);
        }
        f.skip_dirs.push(p);
        f
    }

    /// Leaves out the directory `root`.
    pub fn skip_rootdir(self) -> (r: CommitFilter)
        ensures
            r@ == (Rules {
                dirs: self@.dirs.insert(
                    crate::path::components(vstd::utf8::encode_utf8("root"@)),
                ),
                ..self@
            }),
    {
        let mut f = self;
        let p = FsPath::from_text("root");
        proof {
            lemma_push_path(f.skip_dirs@, p);
        }
        f.skip_dirs.push(p);
        f
    }

    /// Whether a directory is one that is left out, or lies below one.
    pub fn is_skipped_dir(&self, rel: &FsPath) -> (r: bool)
        ensures
            r == self@.in_dir(rel@),
    {
        let mut i: usize = 0;
        while i < self.skip_dirs.len()
            invariant
                i <= self.skip_dirs.len(),
                forall|j: int|
                    0 <= j < i ==> !crate::path::within(rel@, (#[trigger] self.skip_dirs@[j])@),
            decreases self.skip_dirs.len() - i,
        {
            if has_prefix(rel, &self.skip_dirs[i]) {
                assert(self@.dirs.contains(
                    crate::path::components(self.skip_dirs@[i as int]@),
                ));
                return true;
            }
            i += 1;
        }
        false
    }

    /// Whether a path is committed whatever the other rules say.
    pub fn is_forced(&self, rel: &FsPath) -> (r: bool)
        ensures
            r == self@.forces(rel@),
    {
        has_path(&self.force_files, &rel.components())
    }

    fn has_name(&self, rel: &FsPath) -> (r: bool)
        ensures
            r == self@.has_name(rel@),
    {
        let name = match rel.file_name() {
            Some(n) => n,
            None => return false,
        };
        let text = to_text_lossy(name.as_slice());
        let mut i: usize = 0;
        while i < self.skip_files.len()
            invariant
                i <= self.skip_files.len(),
                crate::path::file_name(rel@) == Some(name@),
                text@ == crate::text::lossy_text(name@),
                forall|j: int| 0 <= j < i ==> (#[trigger] self.skip_files@[j])@ != text@,
            decreases self.skip_files.len() - i,
        {
            if self.skip_files[i] == text {
                assert(self.skip_files@[i as int]@ == text@);
                return true;
            }
            i += 1;
        }
        false
    }

    fn by_regex(&self, text: &str) -> (r: bool)
        ensures
            r == exists|p: Seq<char>| #[trigger]
                self@.regexes.contains(p) && regex_compiles(p) && regex_is_match(p, text@),
    {
        let mut i: usize = 0;
        while i < self.skip_regexes.len()
            invariant
                i <= self.skip_regexes.len(),
                forall|j: int|
                    0 <= j < i ==> !(regex_compiles((#[trigger] self.skip_regexes@[j])@)
                        && regex_is_match(self.skip_regexes@[j]@, text@)),
            decreases self.skip_regexes.len() - i,
        {
            if match_regex(self.skip_regexes[i].as_str(), text) {
                assert(self@.regexes.contains(self.skip_regexes@[i as int]@));
                return true;
            }
            i += 1;
        }
        false
    }

    fn by_glob(&self, text: &str) -> (r: bool)
        ensures
            r == exists|p: Seq<char>| #[trigger]
                self@.globs.contains(p) && glob_compiles(p) && glob_is_match(p, text@),
    {
        let mut i: usize = 0;
        while i < self.skip_globs.len()
            invariant
                i <= self.skip_globs.len(),
                forall|j: int|
                    0 <= j < i ==> !(glob_compiles((#[trigger] self.skip_globs@[j])@)
                        && glob_is_match(self.skip_globs@[j]@, text@)),
            decreases self.skip_globs.len() - i,
        {
            if match_glob(self.skip_globs[i].as_str(), text) {
                assert(self@.globs.contains(self.skip_globs@[i as int]@));
                return true;
            }
            i += 1;
        }
        false
    }

    fn by_path(&self, rel: &FsPath) -> (r: bool)
        ensures
            r == self@.by_path(rel@),
    {
        let text = to_text_lossy(rel.bytes.as_slice());
        self.by_regex(text.as_str()) || self.by_glob(text.as_str()) || self.has_name(rel)
            || self.is_skipped_dir(rel)
    }

    fn below_no_empty(&self, rel: &FsPath) -> (r: bool)
        ensures
            r == self@.below_no_empty(rel@),
    {
        let c = rel.components();
        let absolute = rel.bytes.len() > 0 && rel.bytes[0] == crate::path::SLASH;
        let mut i: usize = 0;
        while i < self.skip_empty_files_in.len()
            invariant
                i <= self.skip_empty_files_in.len(),
                crate::path::views(c@) == crate::path::components(rel@),
                absolute == crate::path::is_absolute(rel@),
                forall|j: int|
                    0 <= j < i ==> {
                        let d = crate::path::components(
                            (#[trigger] self.skip_empty_files_in@[j])@,
                        );
                        !(d.len() < crate::path::components(rel@).len() && d.is_prefix_of(
                            crate::path::components(rel@),
                        ) && (d.len() > 0 || !crate::path::is_absolute(rel@)))
                    },
            decreases self.skip_empty_files_in.len() - i,
        {
            let d = self.skip_empty_files_in[i].components();
            proof {
                assert(crate::path::views(d@).len() == d@.len());
                assert(crate::path::views(c@).len() == c@.len());
            }
            if d.len() < c.len() && list_starts_with(&c, &d) && (d.len() > 0 || !absolute) {
                assert(self@.no_empty.contains(
                    crate::path::components(self.skip_empty_files_in@[i as int]@),
                ));
                return true;
            }
            i += 1;
        }
        false
    }

    /// Whether the decision on an entry depends on its metadata.
    pub fn needs_meta(&self, rel: &FsPath) -> (r: bool)
        ensures
            r == self@.needs_meta(rel@),
    {
        proof {
            if self.skip_empty_files_in@.len() == 0 {
                assert(self@.no_empty =~= Set::empty());
            } else {
                assert(self@.no_empty.contains(
                    crate::path::components(self.skip_empty_files_in@[0]@),
                ));
            }
        }
        (self.skip_zero_permissions || self.skip_empty_files_in.len() > 0) && !self.by_path(rel)
    }

    /// Whether the rules leave an entry out, given its path and, where it could be read,
    /// its metadata.
    pub fn should_skip(&self, rel: &FsPath, meta: Option<Meta>) -> (r: bool)
        ensures
            r == self@.skips(rel@, meta),
    {
        if self.by_path(rel) {
            return true;
        }
        match meta {
            Some(m) => {
                if self.skip_zero_permissions && m.kind != FileKind::Symlink && m.mode & 0o777
                    == 0 {
                    return true;
                }
                m.kind == FileKind::RegularFile && m.size == 0 && self.below_no_empty(rel)
            },
            None => false,
        }
    }

    fn leads_to_forced(&self, rel: &FsPath) -> (r: bool)
        ensures
            r == self@.leads_to_forced(rel@),
    {
        let mut i: usize = 0;
        while i < self.force_files.len()
            invariant
                i <= self.force_files.len(),
                forall|j: int|
                    0 <= j < i ==> !crate::path::within((#[trigger] self.force_files@[j])@, rel@),
            decreases self.force_files.len() - i,
        {
            if has_prefix(&self.force_files[i], rel) {
                assert(self@.forced.contains(
                    crate::path::components(self.force_files@[i as int]@),
                ));
                return true;
            }
            i += 1;
        }
        false
    }

    /// Whether a commit leaves an entry out.
    pub fn excludes(&self, rel: &FsPath, is_dir: bool, meta: Option<Meta>) -> (r: bool)
        ensures
            r == self@.excludes(rel@, is_dir, meta),
    {
        self.should_skip(rel, meta) && !self.is_forced(rel) && !(is_dir && self.leads_to_forced(
            rel,
        ))
    }
}

proof fn lemma_text_step(texts: Seq<Seq<char>>, i: int)
    requires
        0 <= i < texts.len(),
    ensures
        text_paths(texts.take(i + 1)) == text_paths(texts.take(i)).insert(
            crate::path::components(vstd::utf8::encode_utf8(texts[i])),
        ),
{
    let a = texts.take(i);
    let b = texts.take(i + 1);
    let last = crate::path::components(vstd::utf8::encode_utf8(texts[i]));
    assert forall|c: Seq<Seq<u8>>|
        text_paths(b).contains(c) == text_paths(a).insert(last).contains(c) by {
        if text_paths(a).contains(c) {
            let j = choose|j: int|
                0 <= j < a.len() && c == crate::path::components(
                    vstd::utf8::encode_utf8(#[trigger] a[j]),
                );
            assert(b[j] == a[j]);
        }
        if c == last {
            assert(b[i] == texts[i]);
        }
        if text_paths(b).contains(c) {
            let j = choose|j: int|
                0 <= j < b.len() && c == crate::path::components(
                    vstd::utf8::encode_utf8(#[trigger] b[j]),
                );
            if j < i {
                assert(a[j] == b[j]);
            }
        }
    }
    assert(text_paths(b) =~= text_paths(a).insert(last));
}

/// A filter without rules leaves nothing out.
pub proof fn law_no_rules(rel: Seq<u8>, is_dir: bool, meta: Option<Meta>)
    ensures
        !Rules::none().skips(rel, meta),
        !Rules::none().excludes(rel, is_dir, meta),
        !Rules::none().needs_meta(rel),
{
}

/// A directory that is left out is left out with all that lies below it.
pub proof fn law_dir_covers_all_below(
    rules: Rules,
    dir: Seq<u8>,
    rel: Seq<u8>,
    meta: Option<Meta>,
)
    requires
        rules.dirs.contains(crate::path::components(dir)),
        crate::path::within(rel, dir),
    ensures
        rules.skips(rel, meta),
{
}

/// Directories are told apart by whole components: with directories as the only rules, an
/// entry is left out only if one of them is a leading part of its path.
pub proof fn law_dirs_by_component(
    dirs: Set<Seq<Seq<u8>>>,
    rel: Seq<u8>,
    meta: Option<Meta>,
)
    ensures
        (Rules { dirs, ..Rules::none() }).skips(rel, meta) <==> exists|d: Seq<Seq<u8>>|
            #[trigger] dirs.contains(d) && d.is_prefix_of(crate::path::components(rel)),
{
    let rules = Rules { dirs, ..Rules::none() };
    assert(!rules.by_regex(rel) && !rules.by_glob(rel) && !rules.has_name(rel));
    assert(!rules.below_no_empty(rel));
    if rules.in_dir(rel) {
        let d = choose|d: Seq<Seq<u8>>| #[trigger]
            rules.dirs.contains(d) && d.is_prefix_of(crate::path::components(rel));
        assert(dirs.contains(d));
    }
    if exists|d: Seq<Seq<u8>>| #[trigger]
        dirs.contains(d) && d.is_prefix_of(crate::path::components(rel)) {
        let d = choose|d: Seq<Seq<u8>>| #[trigger]
            dirs.contains(d) && d.is_prefix_of(crate::path::components(rel));
        assert(rules.dirs.contains(d));
    }
}

/// A leading separator makes no difference to the directory that is meant.
pub proof fn law_leading_separator(rel: Seq<u8>)
    requires
        !crate::path::is_absolute(rel),
        crate::path::components(rel).len() > 0 ==> crate::path::components(rel)[0] != seq![
            crate::path::DOT,
        ],
    ensures
        crate::path::below_root(
            crate::path::components(seq![crate::path::SLASH] + rel),
        ) == crate::path::below_root(crate::path::components(rel)),
{
    crate::path::lemma_components_rooted(rel);
    if crate::path::components(rel).len() > 0 {
        crate::path::lemma_first_component(rel);
    }
}

/// A name that is left out is left out at every depth.
pub proof fn law_name_at_any_depth(
    rules: Rules,
    dir: Seq<u8>,
    name: Seq<u8>,
    meta: Option<Meta>,
)
    requires
        crate::path::is_segment(name),
        crate::path::is_normal(name),
        rules.names.contains(crate::text::lossy_text(name)),
    ensures
        rules.skips(crate::path::join(dir, name), meta),
{
    crate::path::lemma_join_segment(dir, name);
}

/// Entries without any permission are left out where that is asked for, but never because
/// of their mode if they are symbolic links.
pub proof fn law_zero_permissions(rel: Seq<u8>, meta: Meta)
    ensures
        (Rules { zero: true, ..Rules::none() }).skips(rel, Some(meta)) <==> meta.kind
            != FileKind::Symlink && meta.mode & 0o777 == 0,
{
    let rules = Rules { zero: true, ..Rules::none() };
    assert(!rules.by_regex(rel) && !rules.by_glob(rel) && !rules.has_name(rel)
        && !rules.in_dir(rel));
    assert(!rules.below_no_empty(rel));
}

/// Where empty files are left out in a directory, the directory itself and files that hold
/// something are not left out because of that.
pub proof fn law_only_empty_files(dirs: Set<Seq<Seq<u8>>>, rel: Seq<u8>, meta: Meta)
    requires
        meta.kind != FileKind::RegularFile || meta.size > 0,
    ensures
        !(Rules { no_empty: dirs, ..Rules::none() }).skips(rel, Some(meta)),
{
    let rules = Rules { no_empty: dirs, ..Rules::none() };
    assert(!rules.by_regex(rel) && !rules.by_glob(rel) && !rules.has_name(rel)
        && !rules.in_dir(rel));
}

/// One set of rules holds at least what the other holds.
pub open spec fn at_least(more: Rules, less: Rules) -> bool {
    &&& less.dirs.subset_of(more.dirs)
    &&& less.names.subset_of(more.names)
    &&& less.no_empty.subset_of(more.no_empty)
    &&& less.zero ==> more.zero
    &&& less.regexes.subset_of(more.regexes)
    &&& less.globs.subset_of(more.globs)
}

/// A rule only adds to what is left out: with more rules, whatever was left out still is.
pub proof fn law_rules_only_add(less: Rules, more: Rules, rel: Seq<u8>, meta: Option<Meta>)
    requires
        at_least(more, less),
        less.skips(rel, meta),
    ensures
        more.skips(rel, meta),
{
    if less.by_regex(rel) {
        let p = choose|p: Seq<char>| #[trigger]
            less.regexes.contains(p) && regex_compiles(p) && regex_is_match(
                p,
                crate::text::lossy_text(rel),
            );
        assert(more.regexes.contains(p));
    }
    if less.by_glob(rel) {
        let p = choose|p: Seq<char>| #[trigger]
            less.globs.contains(p) && glob_compiles(p) && glob_is_match(
                p,
                crate::text::lossy_text(rel),
            );
        assert(more.globs.contains(p));
    }
    if less.in_dir(rel) {
        let d = choose|d: Seq<Seq<u8>>| #[trigger]
            less.dirs.contains(d) && d.is_prefix_of(crate::path::components(rel));
        assert(more.dirs.contains(d));
    }
    if less.below_no_empty(rel) {
        let d = choose|d: Seq<Seq<u8>>| #[trigger]
            less.no_empty.contains(d) && d.len() < crate::path::components(rel).len()
                && d.is_prefix_of(crate::path::components(rel)) && (d.len() > 0
                || !crate::path::is_absolute(rel));
        assert(more.no_empty.contains(d));
    }
}

/// A forced path is committed whatever the other rules say, and so is every directory on
/// the way to it.
pub proof fn law_forced_is_committed(
    rules: Rules,
    forced: Seq<u8>,
    rel: Seq<u8>,
    is_dir: bool,
    meta: Option<Meta>,
)
    requires
        rules.forces(forced),
        rel == forced || (is_dir && crate::path::within(forced, rel)),
    ensures
        !rules.excludes(rel, is_dir, meta),
{
}

/// Forcing paths changes nothing for entries that are neither forced nor on the way to a
/// forced path.
pub proof fn law_forcing_is_local(
    rules: Rules,
    rel: Seq<u8>,
    is_dir: bool,
    meta: Option<Meta>,
)
    requires
        !rules.leads_to_forced(rel),
    ensures
        rules.excludes(rel, is_dir, meta) == rules.skips(rel, meta),
{
    if rules.forces(rel) {
        assert(crate::path::components(rel).is_prefix_of(crate::path::components(rel)));
    }
}

/// Metadata is asked for only where it can make a difference.
pub proof fn law_meta_only_where_needed(rules: Rules, rel: Seq<u8>, meta: Option<Meta>)
    requires
        !rules.needs_meta(rel),
    ensures
        rules.skips(rel, meta) == rules.skips(rel, None),
{
    if !rules.by_path(rel) && rules.below_no_empty(rel) {
        let d = choose|d: Seq<Seq<u8>>| #[trigger]
            rules.no_empty.contains(d) && d.len() < crate::path::components(rel).len();
        assert(!Set::<Seq<Seq<u8>>>::empty().contains(d));
    }
}

/// An entry whose path a regular expression or a glob pattern matches is left out, however
/// deep it lies and whatever its metadata say.
pub proof fn law_pattern_at_any_depth(
    rules: Rules,
    pattern: Seq<char>,
    rel: Seq<u8>,
    meta: Option<Meta>,
)
    ensures
        rules.regexes.contains(pattern) && regex_compiles(pattern) && regex_is_match(
            pattern,
            crate::text::lossy_text(rel),
        ) ==> rules.skips(rel, meta),
        rules.globs.contains(pattern) && glob_compiles(pattern) && glob_is_match(
            pattern,
            crate::text::lossy_text(rel),
        ) ==> rules.skips(rel, meta),
{
}

/// With regular expressions as the only rules, an entry is left out exactly if one of them
/// compiles and matches its path.
pub proof fn law_regexes_alone(regexes: Set<Seq<char>>, rel: Seq<u8>, meta: Option<Meta>)
    ensures
        (Rules { regexes, ..Rules::none() }).skips(rel, meta) <==> exists|p: Seq<char>| #[trigger]
            regexes.contains(p) && regex_compiles(p) && regex_is_match(
                p,
                crate::text::lossy_text(rel),
            ),
{
    let rules = Rules { regexes, ..Rules::none() };
    let text = crate::text::lossy_text(rel);
    if rules.skips(rel, meta) {
        let p = choose|p: Seq<char>| #[trigger]
            rules.regexes.contains(p) && regex_compiles(p) && regex_is_match(p, text);
        assert(regexes.contains(p));
    }
    if exists|p: Seq<char>| #[trigger]
        regexes.contains(p) && regex_compiles(p) && regex_is_match(p, text) {
        let p = choose|p: Seq<char>| #[trigger]
            regexes.contains(p) && regex_compiles(p) && regex_is_match(p, text);
        assert(rules.regexes.contains(p));
    }
}

/// With glob patterns as the only rules, an entry is left out exactly if one of them compiles
/// and matches its path.
pub proof fn law_globs_alone(globs: Set<Seq<char>>, rel: Seq<u8>, meta: Option<Meta>)
    ensures
        (Rules { globs, ..Rules::none() }).skips(rel, meta) <==> exists|p: Seq<char>| #[trigger]
            globs.contains(p) && glob_compiles(p) && glob_is_match(
                p,
                crate::text::lossy_text(rel),
            ),
{
    let rules = Rules { globs, ..Rules::none() };
    let text = crate::text::lossy_text(rel);
    if rules.skips(rel, meta) {
        let p = choose|p: Seq<char>| #[trigger]
            rules.globs.contains(p) && glob_compiles(p) && glob_is_match(p, text);
        assert(globs.contains(p));
    }
    if exists|p: Seq<char>| #[trigger]
        globs.contains(p) && glob_compiles(p) && glob_is_match(p, text) {
        let p = choose|p: Seq<char>| #[trigger]
            globs.contains(p) && glob_compiles(p) && glob_is_match(p, text);
        assert(rules.globs.contains(p));
    }
}

/// With names as the only rules, an entry is left out exactly if its last name is one of
/// them.
pub proof fn law_names_alone(names: Set<Seq<char>>, rel: Seq<u8>, meta: Option<Meta>)
    ensures
        (Rules { names, ..Rules::none() }).skips(rel, meta) <==> (crate::path::file_name(
            rel,
        ) matches Some(name) && names.contains(crate::text::lossy_text(name))),
{
}

/// With directories without empty files as the only rules, an entry is left out exactly if it
/// is known to be an empty file and one of the directories lies above it, at any height. The
/// root of a path that starts there is no such directory.
pub proof fn law_no_empty_alone(dirs: Set<Seq<Seq<u8>>>, rel: Seq<u8>, meta: Option<Meta>)
    ensures
        (Rules { no_empty: dirs, ..Rules::none() }).skips(rel, meta) <==> (meta matches Some(m)
            && m.kind is RegularFile && m.size == 0 && exists|n: int|
            0 <= n < crate::path::components(rel).len() && #[trigger] dirs.contains(
                crate::path::components(rel).take(n),
            ) && (n == 0 ==> !crate::path::is_absolute(rel))),
{
    let rules = Rules { no_empty: dirs, ..Rules::none() };
    let c = crate::path::components(rel);
    if rules.below_no_empty(rel) {
        let d = choose|d: Seq<Seq<u8>>| #[trigger]
            rules.no_empty.contains(d) && d.len() < c.len() && d.is_prefix_of(c) && (d.len() > 0
                || !crate::path::is_absolute(rel));
        assert(c.take(d.len() as int) =~= d);
        assert(dirs.contains(c.take(d.len() as int)));
    }
    if exists|n: int|
        0 <= n < c.len() && #[trigger] dirs.contains(c.take(n)) && (n == 0
            ==> !crate::path::is_absolute(rel)) {
        let n = choose|n: int|
            0 <= n < c.len() && #[trigger] dirs.contains(c.take(n)) && (n == 0
                ==> !crate::path::is_absolute(rel));
        let d = c.take(n);
        assert(rules.no_empty.contains(d) && d.is_prefix_of(c));
    }
}

/// The rules add up: an entry is left out exactly if the rules of one sort alone leave it
/// out.
pub proof fn law_rules_add_up(rules: Rules, rel: Seq<u8>, meta: Option<Meta>)
    ensures
        rules.skips(rel, meta) <==> {
            ||| (Rules { dirs: rules.dirs, ..Rules::none() }).skips(rel, meta)
            ||| (Rules { names: rules.names, ..Rules::none() }).skips(rel, meta)
            ||| (Rules { no_empty: rules.no_empty, ..Rules::none() }).skips(rel, meta)
            ||| (Rules { zero: rules.zero, ..Rules::none() }).skips(rel, meta)
            ||| (Rules { regexes: rules.regexes, ..Rules::none() }).skips(rel, meta)
            ||| (Rules { globs: rules.globs, ..Rules::none() }).skips(rel, meta)
        },
{
    let one = Rules { dirs: rules.dirs, ..Rules::none() };
    let two = Rules { names: rules.names, ..Rules::none() };
    let three = Rules { no_empty: rules.no_empty, ..Rules::none() };
    let four = Rules { zero: rules.zero, ..Rules::none() };
    let five = Rules { regexes: rules.regexes, ..Rules::none() };
    let six = Rules { globs: rules.globs, ..Rules::none() };
    if one.skips(rel, meta) {
        law_rules_only_add(one, rules, rel, meta);
    }
    if two.skips(rel, meta) {
        law_rules_only_add(two, rules, rel, meta);
    }
    if three.skips(rel, meta) {
        law_rules_only_add(three, rules, rel, meta);
    }
    if four.skips(rel, meta) {
        law_rules_only_add(four, rules, rel, meta);
    }
    if five.skips(rel, meta) {
        law_rules_only_add(five, rules, rel, meta);
    }
    if six.skips(rel, meta) {
        law_rules_only_add(six, rules, rel, meta);
    }
    if rules.in_dir(rel) {
        let d = choose|d: Seq<Seq<u8>>| #[trigger]
            rules.dirs.contains(d) && d.is_prefix_of(crate::path::components(rel));
        assert(one.dirs.contains(d));
    }
    if rules.by_regex(rel) {
        let p = choose|p: Seq<char>| #[trigger]
            rules.regexes.contains(p) && regex_compiles(p) && regex_is_match(
                p,
                crate::text::lossy_text(rel),
            );
        assert(five.regexes.contains(p));
    }
    if rules.by_glob(rel) {
        let p = choose|p: Seq<char>| #[trigger]
            rules.globs.contains(p) && glob_compiles(p) && glob_is_match(
                p,
                crate::text::lossy_text(rel),
            );
        assert(six.globs.contains(p));
    }
    if rules.below_no_empty(rel) {
        let d = choose|d: Seq<Seq<u8>>| #[trigger]
            rules.no_empty.contains(d) && d.len() < crate::path::components(rel).len()
                && d.is_prefix_of(crate::path::components(rel)) && (d.len() > 0
                || !crate::path::is_absolute(rel));
        assert(three.no_empty.contains(d));
    }
}

/// Without metadata, entries are left out by their path alone: neither their mode nor their
/// length counts.
pub proof fn law_unread_metadata(rules: Rules, rel: Seq<u8>)
    ensures
        rules.skips(rel, None) == (Rules {
            zero: false,
            no_empty: Set::empty(),
            ..rules
        }).skips(rel, None),
{
    let less = Rules { zero: false, no_empty: Set::empty(), ..rules };
    assert(less.regexes == rules.regexes && less.globs == rules.globs && less.dirs == rules.dirs);
    if rules.skips(rel, None) {
        law_rules_add_up(rules, rel, None);
        law_rules_add_up(less, rel, None);
    }
    if less.skips(rel, None) {
        law_rules_only_add(less, rules, rel, None);
    }
}

/// An entry is kept out of a commit exactly if some rule leaves it out, its path is not among
/// the forced ones, and it is no directory with a forced path at or below it.
pub proof fn law_kept_out(rules: Rules, rel: Seq<u8>, is_dir: bool, meta: Option<Meta>)
    ensures
        rules.excludes(rel, is_dir, meta) <==> {
            &&& rules.skips(rel, meta)
            &&& !rules.forced.contains(crate::path::components(rel))
            &&& is_dir ==> forall|f: Seq<Seq<u8>>| #[trigger]
                rules.forced.contains(f) ==> !crate::path::components(rel).is_prefix_of(f)
        },
{
}

/// A filter for a root filesystem leaves out the nine directories that belong to the running
/// system, and no other.
pub proof fn law_rootfs_dirs(name: Seq<char>)
    ensures
        rootfs_dirs().contains(name) <==> {
            ||| name == "boot"@
            ||| name == "dev"@
            ||| name == "lost+found"@
            ||| name == "media"@
            ||| name == "mnt"@
            ||| name == "proc"@
            ||| name == "run"@
            ||| name == "sys"@
            ||| name == "tmp"@
        },
{
    let all = rootfs_dirs();
    assert(all[0] == "boot"@ && all[1] == "dev"@ && all[2] == "lost+found"@ && all[3] == "media"@
        && all[4] == "mnt"@ && all[5] == "proc"@ && all[6] == "run"@ && all[7] == "sys"@ && all[8]
        == "tmp"@);
}

} // verus!
