use overlayfs_fuse::filter::CommitFilter;
use overlayfs_fuse::path::{has_prefix, normalise_dir, FsPath};
use overlayfs_fuse::protocol::{FileKind, Meta, Stamp};

fn p(text: &str) -> FsPath {
    FsPath::from_text(text)
}

fn meta(kind: FileKind, mode: u32, size: u64) -> Meta {
    Meta {
        kind,
        mode,
        size,
        blocks: 0,
        nlink: 1,
        uid: 0,
        gid: 0,
        rdev: 0,
        blksize: 4096,
        atime: Stamp { secs: 0, nanos: 0 },
        mtime: Stamp { secs: 0, nanos: 0 },
        ctime: 0,
    }
}

fn skips(filter: &CommitFilter, rel: &str) -> bool {
    filter.should_skip(&p(rel), None)
}

#[test]
fn test_filter_skip_dirs_single_and_batch() {
    let filter = CommitFilter::new()
        .skip_dir(&p("/dev"))
        .skip_dirs(&vec![p("/proc"), p("/sys")]);

    // The entries are "/upper/dev", "/upper/proc", "/upper/sys", "/upper/dev/null",
    // "/upper/proc/1/maps", "/upper/devices" and "/upper/etc/passwd".
    assert!(skips(&filter, "dev"));
    assert!(skips(&filter, "proc"));
    assert!(skips(&filter, "sys"));
    assert!(skips(&filter, "dev/null"));
    assert!(skips(&filter, "proc/1/maps"));
    assert!(!skips(&filter, "devices"));
    assert!(!skips(&filter, "etc/passwd"));
}

#[test]
fn test_filter_skip_files_single_and_batch() {
    let filter = CommitFilter::new()
        .skip_file("lost+found".to_string())
        .skip_files(vec!["__pycache__".to_string(), ".DS_Store".to_string()]);

    // The entries are "/upper/lost+found", "/upper/usr/lib/__pycache__",
    // "/upper/home/user/.DS_Store", "/upper/not_lost+found" and "/upper/etc/passwd".
    assert!(skips(&filter, "lost+found"));
    assert!(skips(&filter, "usr/lib/__pycache__"));
    assert!(skips(&filter, "home/user/.DS_Store"));
    assert!(!skips(&filter, "not_lost+found"));
    assert!(!skips(&filter, "etc/passwd"));
}

#[test]
fn test_filter_skip_zero_permissions() {
    let filter = CommitFilter::new().skip_zero_permissions(true);

    let zero_file = meta(FileKind::RegularFile, 0o100000, 0);
    let normal_file = meta(FileKind::RegularFile, 0o100644, 4);
    assert!(filter.should_skip(&p("stub"), Some(zero_file)));
    assert!(!filter.should_skip(&p("normal"), Some(normal_file)));
    assert!(!filter.should_skip(&p("link"), Some(meta(FileKind::Symlink, 0o120000, 0))));
    assert!(!filter.should_skip(&p("stub"), None));
    let off = CommitFilter::rootfs().skip_zero_permissions(false);
    assert!(!off.should_skip(&p("stub"), Some(zero_file)));
}

#[test]
fn test_filter_skip_empty_files_in() {
    let empty = meta(FileKind::RegularFile, 0o100644, 0);
    let nonempty = meta(FileKind::RegularFile, 0o100644, 4);
    let filter = CommitFilter::new().skip_empty_files_in(&p("/var/cache"));

    assert!(
        filter.should_skip(&p("var/cache/apt/pkgcache.bin"), Some(empty)),
        "zero-byte file inside skip_empty_files_in dir must be skipped"
    );
    assert!(
        !filter.should_skip(&p("var/cache/apt/real.db"), Some(nonempty)),
        "non-empty file inside skip_empty_files_in dir must be allowed"
    );
    assert!(
        !filter.should_skip(&p("etc/passwd"), Some(empty)),
        "zero-byte file outside skip_empty_files_in dir must be allowed"
    );
    assert!(!filter.should_skip(&p("var/cache"), Some(empty)));
    assert!(!filter.should_skip(
        &p("var/cache/apt"),
        Some(meta(FileKind::Directory, 0o40755, 0))
    ));
}

#[test]
fn empty_files_in_several_directories() {
    let empty = meta(FileKind::RegularFile, 0o100644, 0);
    let filter = CommitFilter::new().skip_empty_files_in_dirs(&vec![p("/var/log"), p("tmp")]);
    assert!(filter.should_skip(&p("var/log/x"), Some(empty)));
    assert!(filter.should_skip(&p("tmp/a/b"), Some(empty)));
    assert!(!filter.should_skip(&p("var/x"), Some(empty)));
    let everywhere = CommitFilter::new().skip_empty_files_in(&p("/"));
    assert!(everywhere.should_skip(&p("a"), Some(empty)));
}

#[test]
fn empty_filter_skips_nothing() {
    let filter = CommitFilter::new();
    assert!(!skips(&filter, "dev/null"));
    assert!(!filter.should_skip(&p("stub"), Some(meta(FileKind::RegularFile, 0, 0))));
    assert!(!filter.needs_meta(&p("stub")));
}

#[test]
fn rootfs_filter_skips_managed_directories() {
    let filter = CommitFilter::rootfs();
    for dir in [
        "boot",
        "dev",
        "lost+found",
        "media",
        "mnt",
        "proc",
        "run",
        "sys",
        "tmp",
    ] {
        assert!(skips(&filter, dir));
        assert!(filter.is_skipped_dir(&p(dir)));
    }
    assert!(!skips(&filter, "etc"));
    assert!(!skips(&filter, "home"));
    assert!(skips(&CommitFilter::new().skip_homedir(), "home/me"));
    assert!(skips(&CommitFilter::new().skip_rootdir(), "root"));
    assert!(filter.should_skip(&p("etc/x"), Some(meta(FileKind::CharDevice, 0o20000, 0))));
    assert!(filter.needs_meta(&p("etc/x")));
    assert!(!filter.needs_meta(&p("dev/null")));
}

#[test]
fn regexes_match_anywhere_in_the_path() {
    let filter = CommitFilter::new().skip_regex(r".*\.tmp$").skip_regex("^build/");
    assert!(skips(&filter, "var/x.tmp"));
    assert!(skips(&filter, "build/out"));
    assert!(!skips(&filter, "var/x.tmpl"));
    assert!(!skips(&filter, "src/build/out"));
}

#[test]
fn globs_match_the_whole_path() {
    let filter = CommitFilter::new().skip_glob("**/*.bak").skip_glob("build/*");
    assert!(skips(&filter, "a/b/c.bak"));
    assert!(skips(&filter, "build/out"));
    assert!(!skips(&filter, "a/b/c.bak2"));
    assert!(!skips(&filter, "src/build/out"));
}

#[test]
fn patterns_that_do_not_compile_are_ignored() {
    let filter = CommitFilter::new().skip_regex("(").skip_glob("a**b");
    assert_eq!(filter.skip_regexes.len(), 0);
    assert_eq!(filter.skip_globs.len(), 0);
    assert!(!skips(&filter, "("));
    assert!(!skips(&filter, "a**b"));
}

#[test]
fn forced_paths_are_committed_all_the_same() {
    let filter = CommitFilter::rootfs()
        .force_file(&p("/run/keep/me"))
        .force_files(&vec![p("tmp/x")]);
    assert!(filter.is_forced(&p("run/keep/me")));
    assert!(!filter.is_forced(&p("run/keep")));
    assert!(filter.should_skip(&p("run/keep/me"), None));
    assert!(!filter.excludes(&p("run/keep/me"), false, None));
    assert!(!filter.excludes(&p("run/keep"), true, None));
    assert!(!filter.excludes(&p("run"), true, None));
    assert!(!filter.excludes(&p("tmp/x"), false, None));
    assert!(filter.excludes(&p("run"), false, None));
    assert!(filter.excludes(&p("run/other"), true, None));
    assert!(filter.excludes(&p("tmp/y"), false, None));
}

#[test]
fn leading_separator_does_not_count() {
    assert!(normalise_dir(&p("/dev/pts")).same(&p("dev/pts")));
    assert!(normalise_dir(&p("dev")).same(&p("dev")));
    assert!(normalise_dir(&p("/")).same(&p("")));
}

#[test]
fn prefixes_are_told_apart_by_component() {
    assert!(has_prefix(&p("dev/null"), &p("dev")));
    assert!(has_prefix(&p("dev"), &p("dev")));
    assert!(has_prefix(&p("dev"), &p("")));
    assert!(!has_prefix(&p("devices"), &p("dev")));
    assert!(!has_prefix(&p("dev"), &p("dev/null")));
}

#[test]
fn names_that_are_not_text_are_matched_by_their_replacement() {
    let filter = CommitFilter::new().skip_file("a\u{fffd}b".to_string());
    let name = FsPath::from_bytes(vec![b'd', b'/', b'a', 0xff, b'b']);
    assert!(filter.should_skip(&name, None));
}

#[test]
fn the_default_filter_leaves_nothing_out() {
    let filter = CommitFilter::default();
    assert!(!filter.excludes(&FsPath::from_text("dev"), true, None));
    assert!(!filter.needs_meta(&FsPath::from_text("dev/null")));
}
