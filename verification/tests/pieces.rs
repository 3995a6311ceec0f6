//! The parts that need no host.

use overlayfs_fuse::attr::{entry_file_type, make_attr, KindTests};
use overlayfs_fuse::digest::FileHash;
use overlayfs_fuse::files::OverlayFiles;
use overlayfs_fuse::layers::{wh_bytes, LayerManager, WH_PREFIX};
use overlayfs_fuse::listing::{marker_target, merge_listing};
use overlayfs_fuse::path::{has_prefix, normalise_dir, single_component, FsPath};
use overlayfs_fuse::protocol::{DirItem, FileKind, Layer, Meta, Spot, Stamp, Which};
use overlayfs_fuse::text::{to_lossy, write_digits};
use overlayfs_fuse::walk::{TreeWalk, WalkStep};
use overlayfs_fuse::xattr::{parse_names, split_names};

fn p(text: &str) -> FsPath {
    FsPath::from_text(text)
}

fn text(bytes: &[u8]) -> String {
    String::from_utf8(bytes.to_vec()).unwrap()
}

fn parts(path: &str) -> Vec<String> {
    p(path).components().iter().map(|c| text(c)).collect()
}

fn parent(path: &str) -> Option<String> {
    p(path).parent().map(|q| text(&q.bytes))
}

fn name(path: &str) -> Option<String> {
    p(path).file_name().map(|n| text(&n))
}

fn hex(bytes: &[u8]) -> String {
    bytes.iter().map(|b| format!("{:02x}", b)).collect()
}

#[test]
fn paths_have_components() {
    assert_eq!(parts("/usr//lib/./x/"), vec!["/", "usr", "lib", "x"]);
    assert_eq!(parts("a/../b"), vec!["a", "..", "b"]);
    assert_eq!(parts("./a"), vec![".", "a"]);
    assert!(parts("").is_empty());
    assert!(p("a//b/").same(&p("a/b")));
    assert!(!p("/a/b").same(&p("a/b")));
}

#[test]
fn paths_have_parents_and_names() {
    assert_eq!(parent("/a/b/"), Some("/a".to_string()));
    assert_eq!(parent("a"), Some("".to_string()));
    assert_eq!(parent("/"), None);
    assert_eq!(parent(""), None);
    assert_eq!(name("/a/b/."), Some("b".to_string()));
    assert_eq!(name("a/.."), None);
    assert_eq!(name("/"), None);
}

#[test]
fn paths_are_joined_and_compared_by_components() {
    assert_eq!(text(&p("a").join(b"b").bytes), "a/b");
    assert_eq!(text(&p("a/").join(b"b").bytes), "a/b");
    assert_eq!(text(&p("a").join(b"/b").bytes), "/b");
    assert_eq!(text(&p("").join(b"b").bytes), "b");
    assert!(p("a/b/c").starts_with(&p("a/b")));
    assert!(!p("a/bc").starts_with(&p("a/b")));
    assert!(has_prefix(&p("dev/null"), &normalise_dir(&p("/dev"))));
    assert!(!has_prefix(&p("devices"), &normalise_dir(&p("/dev"))));
}

#[test]
fn text_is_put_behind_a_path() {
    assert_eq!(text(&p("/base/lower").appended(b".new").bytes), "/base/lower.new");
    assert_eq!(text(&p("/base/v1.2").appended(b".new").bytes), "/base/v1.2.new");
    assert_eq!(text(&p("/base/x/").appended(b".new").bytes), "/base/x.new");
    assert_eq!(text(&p("/base/x.new").appended(b".new").bytes), "/base/x.new.new");
    assert_eq!(text(&p("/").appended(b".backup").bytes), "/.backup");
}

#[test]
fn a_name_is_one_component() {
    assert_eq!(single_component(b"lost+found"), Some(b"lost+found".to_vec()));
    assert_eq!(single_component(b"a/b"), None);
    assert_eq!(single_component(b".."), None);
    assert_eq!(single_component(b"f/"), None);
}

#[test]
fn bytes_that_are_no_text_are_replaced() {
    assert_eq!(to_lossy(b"plain"), b"plain".to_vec());
    assert_eq!(to_lossy(b"a\xffb"), "a\u{fffd}b".as_bytes().to_vec());
}

#[test]
fn numbers_are_written_in_digits() {
    assert_eq!(text(&write_digits(0, 10)), "0");
    assert_eq!(text(&write_digits(1_715_631_234_567_890_123, 10)), "1715631234567890123");
    assert_eq!(text(&write_digits(0xbeef, 16)), "beef");
    assert_eq!(text(&write_digits(u128::MAX, 16)), "f".repeat(32));
}

#[test]
fn the_directories_of_an_overlay_have_their_names() {
    let nanos: u128 = 1_715_631_234_567_890_123;
    let f = OverlayFiles::new(p("/base/dir"), 0x1000, nanos, &p("/tmp"));
    assert_eq!(text(&f.lower.bytes), "/base/dir");
    assert_eq!(text(&f.upper.bytes), "/base/dir_upper");
    let session = 0x1000u32 ^ 567_890;
    assert_eq!(
        text(&f.mount_point.bytes),
        format!("/tmp/mount_dir_{:x}_1715631234567890123", session)
    );
    let g = OverlayFiles::new(p("/base/dir"), 0x1000, nanos + 1, &p("/tmp"));
    assert_ne!(f.mount_point.bytes, g.mount_point.bytes);
}

#[test]
fn the_mount_point_moves_to_the_cache() {
    let new = || OverlayFiles::new(p("/base/dir"), 1, 2_000_003_000, &p("/tmp"));
    let mut f = new();
    let dir = f.mountpoint_as_home(None, Some(p("/home/me")));
    assert_eq!(dir.map(|d| text(&d.bytes)), Some("/home/me/.cache".to_string()));
    assert_eq!(text(&f.mount_point.bytes), "/home/me/.cache/mount_dir_2_2000003000");
    let mut f = new();
    let dir = f.mountpoint_as_home(Some(p("/cache")), Some(p("/home/me")));
    assert_eq!(dir.map(|d| text(&d.bytes)), Some("/cache".to_string()));
    assert_eq!(text(&f.mount_point.bytes), "/cache/mount_dir_2_2000003000");
    let mut f = new();
    assert!(f.mountpoint_as_home(None, None).is_none());
    assert_eq!(text(&f.mount_point.bytes), "/tmp/mount_dir_2_2000003000");
}

#[test]
fn a_marker_lies_beside_what_it_hides() {
    let files = OverlayFiles { lower: p("/l"), upper: p("/u"), mount_point: p("/m") };
    let layers = LayerManager::new(files);
    let at = |rel: &str| layers.whiteout_path(&p(rel)).map(|q| text(&q.bytes));
    assert_eq!(at("a/b"), Some("/u/a/.wh.b".to_string()));
    assert_eq!(at("b"), Some("/u/.wh.b".to_string()));
    assert_eq!(at(""), None);
    assert_eq!(text(&layers.entry_path(Layer::Lower, &p("a/b")).bytes), "/l/a/b");
    assert_eq!(text(&layers.entry_path(Layer::Upper, &p("a/b")).bytes), "/u/a/b");
    assert_eq!(wh_bytes(), WH_PREFIX.as_bytes().to_vec());
}

#[test]
fn a_place_has_a_path() {
    let files = OverlayFiles { lower: p("/l"), upper: p("/u"), mount_point: p("/m") };
    let layers = LayerManager::new(files);
    let (first, second) = (p("a/b/c"), p("x"));
    let at = |s: Spot| layers.spot_path(s, &first, &second).map(|q| text(&q.bytes));
    assert_eq!(at(Spot::upper(Which::First)), Some("/u/a/b/c".to_string()));
    assert_eq!(at(Spot::lower(Which::First)), Some("/l/a/b/c".to_string()));
    assert_eq!(at(Spot::lower(Which::Second)), Some("/l/x".to_string()));
    assert_eq!(at(Spot::whiteout(Which::First)), Some("/u/a/b/.wh.c".to_string()));
    assert_eq!(at(Spot::whiteout(Which::Second)), Some("/u/.wh.x".to_string()));
    assert_eq!(at(Spot::above(Which::First, 0)), Some("/u/a/b".to_string()));
    assert_eq!(at(Spot::above(Which::First, 1)), Some("/u/a".to_string()));
    let root = p("");
    assert!(layers.spot_path(Spot::whiteout(Which::First), &root, &second).is_none());
}

#[test]
fn a_marker_names_what_it_hides() {
    assert_eq!(marker_target(b".wh.x"), Some(b"x".to_vec()));
    assert_eq!(marker_target(b".wh..wh.x"), Some(b".wh.x".to_vec()));
    assert_eq!(marker_target(b".whx"), None);
    assert_eq!(marker_target(b"x.wh."), None);
}

#[test]
fn listings_are_merged() {
    let entry = |n: &str| DirItem::Entry(n.as_bytes().to_vec(), Ok(FileKind::RegularFile));
    let upper = vec![entry("b"), entry(".wh.a"), entry(".wh.d"), entry("d"), DirItem::Broken(5)];
    let lower = vec![
        entry("a"),
        entry("b"),
        DirItem::Entry(b"c".to_vec(), Err(5)),
        DirItem::Entry(b"odd\xff".to_vec(), Ok(FileKind::Directory)),
    ];
    let list = merge_listing(&upper, &lower);
    let told: Vec<(String, FileKind, Layer)> =
        list.iter().map(|e| (text(&e.text), e.kind, e.layer)).collect();
    assert_eq!(
        told,
        vec![
            ("b".to_string(), FileKind::RegularFile, Layer::Upper),
            ("c".to_string(), FileKind::RegularFile, Layer::Lower),
            ("odd\u{fffd}".to_string(), FileKind::Directory, Layer::Lower),
        ]
    );
    assert_eq!(list[2].name, b"odd\xff".to_vec());
}

#[test]
fn attributes_are_cut_to_their_width() {
    let meta = Meta {
        kind: FileKind::RegularFile,
        mode: 0o100644,
        size: 5,
        blocks: 8,
        nlink: 0x1_0000_0002,
        uid: 3,
        gid: 4,
        rdev: 0x1_0000_0007,
        blksize: 0x1_0000_1000,
        atime: Stamp { secs: 1, nanos: 2 },
        mtime: Stamp { secs: 3, nanos: 4 },
        ctime: -5,
    };
    let a = make_attr(42, meta);
    assert_eq!((a.ino, a.size, a.blocks), (42, 5, 8));
    assert_eq!((a.perm, a.nlink, a.rdev, a.blksize), (0o100644, 2, 7, 4096));
    assert_eq!((a.ctime, a.flags), (0, 0));
    assert_eq!(make_attr(42, Meta { ctime: 9, mode: 0x3_8000, ..meta }).ctime, 9);
    assert_eq!(make_attr(42, Meta { mode: 0x3_8001, ..meta }).perm, 0x8001);
}

#[test]
fn an_unknown_type_is_that_of_a_file() {
    let none = KindTests {
        is_dir: false,
        is_symlink: false,
        is_fifo: false,
        is_socket: false,
        is_char_device: false,
        is_block_device: false,
    };
    assert_eq!(none.kind(), FileKind::RegularFile);
    assert_eq!(KindTests { is_socket: true, ..none }.kind(), FileKind::Socket);
    assert_eq!(KindTests { is_dir: true, is_symlink: true, ..none }.kind(), FileKind::Directory);
    assert_eq!(entry_file_type(&Err(5)), FileKind::RegularFile);
    assert_eq!(entry_file_type(&Ok(FileKind::Symlink)), FileKind::Symlink);
}

#[test]
fn names_end_with_a_zero_byte() {
    assert_eq!(
        split_names(b"a\0bc\0rest"),
        (vec![b"a".to_vec(), b"bc".to_vec()], b"rest".to_vec())
    );
    assert_eq!(parse_names(b"a\0\0bc"), vec![b"a".to_vec(), b"bc".to_vec()]);
    assert_eq!(parse_names(b"x\xfe\0"), vec!["x\u{fffd}".as_bytes().to_vec()]);
    assert!(parse_names(b"").is_empty());
}

#[test]
fn the_digest_is_that_of_the_content() {
    let mut h = FileHash::new();
    assert!(!h.feed(b""));
    assert_eq!(
        hex(&h.finish()),
        "af1349b9f5f9a1a6a0404dea36dcc9499bcb25c9adc112b7cc9a93cae41f3262"
    );
    let mut h = FileHash::new();
    assert!(h.feed(b"a"));
    assert!(h.feed(b"bc"));
    assert!(!h.feed(b""));
    assert_eq!(h.fed(), 3);
    assert_eq!(
        hex(&h.finish()),
        "6437b3ac38465133ffb63b75273a8db548c558465d79db03fd359c6cd5bd9d85"
    );
}

#[test]
fn a_walk_deals_with_every_item_once() {
    let dir = |n: &str| DirItem::Entry(n.as_bytes().to_vec(), Ok(FileKind::Directory));
    let file = |n: &str| DirItem::Entry(n.as_bytes().to_vec(), Ok(FileKind::RegularFile));
    let mut walk = TreeWalk::new(&FsPath::empty());
    let mut seen: Vec<String> = Vec::new();
    loop {
        let (enter, descend) = match walk.next() {
            WalkStep::Done => break,
            WalkStep::Enter(d) => (Some(text(&d.bytes)), false),
            WalkStep::Visit(d, DirItem::Entry(n, k)) => {
                seen.push(format!("{}|{}", text(&d.bytes), text(n)));
                (None, *k == Ok(FileKind::Directory))
            }
            WalkStep::Visit(_, _) => unreachable!(),
        };
        match enter {
            Some(d) => walk.enter(match d.as_str() {
                "" => vec![dir("x"), file("f"), dir("y")],
                "x" => vec![dir("z")],
                "x/z" => vec![file("g")],
                "y" => vec![file("h")],
                _ => unreachable!(),
            }),
            None => walk.visited(descend),
        }
    }
    assert_eq!(seen, vec!["|x", "|f", "|y", "y|h", "x|z", "x/z|g"]);
}
