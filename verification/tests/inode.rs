use overlayfs_fuse::inode::{InodeMode, InodeStore};
use overlayfs_fuse::path::FsPath;

fn p(text: &str) -> FsPath {
    FsPath::from_text(text)
}

fn path_of(store: &InodeStore, ino: u64) -> Option<Vec<u8>> {
    store.get_path(ino).map(|p| p.bytes)
}

#[test]
fn test_inode_virtual_stability() {
    let mut store = InodeStore::new(InodeMode::Virtual);
    let path = p("a/b/c");

    let ino1 = store.get_ino(&path);
    let ino2 = store.get_ino(&path);

    assert_eq!(ino1, ino2, "mesmo path deve retornar mesmo inode");
}

#[test]
fn test_inode_virtual_distinct_paths() {
    let mut store = InodeStore::new(InodeMode::Virtual);

    let a = store.get_ino(&p("foo"));
    let b = store.get_ino(&p("bar"));

    assert_ne!(a, b);
}

#[test]
fn test_inode_persistent_deterministic() {
    let path = p("usr/bin/env");

    let ino1 = InodeStore::new(InodeMode::Persistent).get_ino(&path);
    let ino2 = InodeStore::new(InodeMode::Persistent).get_ino(&path);

    assert_eq!(
        ino1, ino2,
        "modo Persistent deve ser determinístico entre instâncias"
    );
}

#[test]
fn test_inode_persistent_no_collision() {
    let mut store = InodeStore::new(InodeMode::Persistent);

    let a = store.get_ino(&p("etc/passwd"));
    let b = store.get_ino(&p("etc/shadow"));

    assert_ne!(a, b);
}

#[test]
fn test_inode_remove_and_reassign() {
    let mut store = InodeStore::new(InodeMode::Virtual);
    let path = p("tmp/file");

    let original = store.get_ino(&path);
    store.remove_ino(&path);
    let reassigned = store.get_ino(&path);

    assert_ne!(original, reassigned);
    assert_eq!(path_of(&store, reassigned), Some(b"tmp/file".to_vec()));
    assert_eq!(path_of(&store, original), None);
}

#[test]
fn test_inode_remove_subtree() {
    let mut store = InodeStore::new(InodeMode::Virtual);

    let root = p("dir");
    let child = p("dir/file");
    let deep = p("dir/sub/deep");

    let ino_root = store.get_ino(&root);
    let ino_child = store.get_ino(&child);
    let ino_deep = store.get_ino(&deep);
    let outside = store.get_ino(&p("directory"));

    store.remove_subtree(&root);

    assert_eq!(path_of(&store, ino_root), None);
    assert_eq!(path_of(&store, ino_child), None);
    assert_eq!(path_of(&store, ino_deep), None);
    assert_eq!(path_of(&store, outside), Some(b"directory".to_vec()));
}

#[test]
fn root_is_number_one() {
    let mut store = InodeStore::new(InodeMode::Virtual);
    assert_eq!(path_of(&store, 1), Some(Vec::new()));
    assert_eq!(store.get_ino(&p("")), 1);
    store.forget_ino(1, 1000);
    assert_eq!(path_of(&store, 1), Some(Vec::new()));
}

#[test]
fn virtual_numbers_count_up() {
    let mut store = InodeStore::new(InodeMode::Virtual);
    assert_eq!(store.get_ino(&p("a")), 2);
    assert_eq!(store.peek_ino(&p("b")), 3);
    assert_eq!(store.get_ino(&p("c")), 4);
    assert_eq!(store.get_ino(&p("b")), 3);
}

#[test]
fn persistent_number_is_the_fnv1a_hash() {
    let mut store = InodeStore::new(InodeMode::Persistent);
    // The published test vectors of 64-bit FNV-1a for "a" and "foobar".
    assert_eq!(store.get_ino(&p("a")), 0xaf63dc4c8601ec8c);
    assert_eq!(store.get_ino(&p("foobar")), 0x85944171f73967e8);
}

#[test]
fn equal_paths_written_differently_share_a_number() {
    let mut store = InodeStore::new(InodeMode::Virtual);
    let a = store.get_ino(&p("a/b"));
    assert_eq!(store.get_ino(&p("a//b/")), a);
    assert_eq!(store.get_ino(&p("a/./b")), a);
}

#[test]
fn forget_gives_up_holds() {
    let mut store = InodeStore::new(InodeMode::Virtual);
    let a = store.get_ino(&p("a"));
    store.get_ino(&p("a"));
    store.forget_ino(a, 1);
    assert_eq!(path_of(&store, a), Some(b"a".to_vec()));
    store.forget_ino(a, 1);
    assert_eq!(path_of(&store, a), None);
    assert_ne!(store.get_ino(&p("a")), a);
}

#[test]
fn peeked_number_goes_at_the_first_forget() {
    let mut store = InodeStore::new(InodeMode::Virtual);
    let a = store.peek_ino(&p("a"));
    store.forget_ino(a, 0);
    assert_eq!(path_of(&store, a), None);

    let b = store.get_ino(&p("b"));
    assert_eq!(store.peek_ino(&p("b")), b);
    store.forget_ino(b, 1);
    assert_eq!(path_of(&store, b), None);
}

#[test]
fn child_path_takes_single_names_only() {
    let mut store = InodeStore::new(InodeMode::Virtual);
    let dir = store.get_ino(&p("usr/lib"));
    assert_eq!(store.child_path(dir, b"x.so").bytes, b"usr/lib/x.so".to_vec());
    assert_eq!(store.child_path(1, b"etc").bytes, b"etc".to_vec());
    assert_eq!(store.child_path(dir, b"a/b").bytes, b"usr/lib".to_vec());
    assert_eq!(store.child_path(dir, b"f/").bytes, b"usr/lib".to_vec());
    assert_eq!(store.child_path(dir, b"/abs").bytes, b"usr/lib".to_vec());
    assert_eq!(store.child_path(dir, b"..").bytes, b"usr/lib".to_vec());
    assert_eq!(store.child_path(dir, b".").bytes, b"usr/lib".to_vec());
    assert_eq!(store.child_path(dir, b"").bytes, b"usr/lib".to_vec());
    assert_eq!(store.child_path(999, b"x").bytes, b"x".to_vec());
}

#[test]
fn numbers_stay_apart_over_a_run_of_calls() {
    for mode in [InodeMode::Virtual, InodeMode::Persistent] {
        let mut s = InodeStore::new(mode);
        let kept = s.get_ino(&FsPath::from_text("a/kept"));
        let gone = s.get_ino(&FsPath::from_text("b/gone"));
        s.peek_ino(&FsPath::from_text("c"));
        s.forget_ino(gone, 1);
        s.remove_ino(&FsPath::from_text("c"));
        s.remove_subtree(&FsPath::from_text("b"));
        let again = s.get_ino(&FsPath::from_text("b/gone"));
        let other = s.get_ino(&FsPath::from_text("d"));
        assert_eq!(s.get_ino(&FsPath::from_text("a/kept")), kept);
        assert_eq!(s.get_path(kept).unwrap().bytes, b"a/kept".to_vec());
        assert_eq!(s.get_path(again).unwrap().bytes, b"b/gone".to_vec());
        assert!(kept != again && again != other && other != kept);
    }
}
