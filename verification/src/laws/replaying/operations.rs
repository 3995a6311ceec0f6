//! Operations that start from an inode number over a record.

use crate::errno::ENOENT;
use crate::fuse_ops::{OverlayOps, SetAttr};
use crate::layers::LayerManager;
use crate::protocol::{Flow, Layer, Spot, Which, World};
use vstd::prelude::*;

verus! {

/// [`OverlayOps::setattr`] does over a record what it does on a disk.
pub proof fn law_setattr(ops: OverlayOps, ino: u64, set: SetAttr)
    ensures
        super::faithful(
            |w: World|
                ops.from_path(
                    ino,
                    w,
                    |path: Seq<u8>, w: World|
                        OverlayOps::altering(LayerManager::place(path), set, w).bind(
                            |u: (), w: World| ops.getting(ino, w),
                        ),
                ),
        ),
{
    let next = |path: Seq<u8>, w: World|
        OverlayOps::altering(LayerManager::place(path), set, w).bind(
            |u: (), w: World| ops.getting(ino, w),
        );
    assert forall|path: Seq<u8>| super::faithful(#[trigger] super::going_on(next, path)) by {
        let f = |w: World| OverlayOps::altering(LayerManager::place(path), set, w);
        let g = |u: (), w: World| ops.getting(ino, w);
        super::entries::faithful_altering(LayerManager::place(path), set);
        assert forall|u: ()| super::faithful(#[trigger] super::going_on(g, u)) by {
            super::entries::faithful_getting(ops, ino);
            assert(super::going_on(g, u) =~= |w: World| ops.getting(ino, w));
        }
        super::faithful_bind(f, g, super::going_on(next, path));
    }
    super::entries::faithful_from_path(ops, ino, next);
}

/// [`OverlayOps::readlink`] does over a record what it does on a disk.
pub proof fn law_readlink(ops: OverlayOps, ino: u64)
    ensures
        super::faithful(
            |w: World|
                ops.from_path(
                    ino,
                    w,
                    |path: Seq<u8>, w: World|
                        OverlayOps::reading_link(LayerManager::place(path), w),
                ),
        ),
{
    let next = |path: Seq<u8>, w: World|
        OverlayOps::reading_link(LayerManager::place(path), w);
    assert forall|path: Seq<u8>| super::faithful(#[trigger] super::going_on(next, path)) by {
        super::entries::faithful_reading_link(LayerManager::place(path));
        assert(super::going_on(next, path) =~= |w: World|
            OverlayOps::reading_link(LayerManager::place(path), w));
    }
    super::entries::faithful_from_path(ops, ino, next);
}

/// [`OverlayOps::link`] does over a record what it does on a disk.
pub proof fn law_link(ops: OverlayOps, ino: u64, rel: Seq<u8>)
    ensures
        super::faithful(
            |w: World|
                ops.from_path(
                    ino,
                    w,
                    |path: Seq<u8>, w: World|
                        OverlayOps::linking(LayerManager::place(path), LayerManager::place(rel), w),
                ),
        ),
{
    let next = |path: Seq<u8>, w: World|
        OverlayOps::linking(LayerManager::place(path), LayerManager::place(rel), w);
    assert forall|path: Seq<u8>| super::faithful(#[trigger] super::going_on(next, path)) by {
        super::entries::faithful_linking(LayerManager::place(path), LayerManager::place(rel));
        assert(super::going_on(next, path) =~= |w: World|
            OverlayOps::linking(LayerManager::place(path), LayerManager::place(rel), w));
    }
    super::entries::faithful_from_path(ops, ino, next);
}

/// [`OverlayOps::open`] does over a record what it does on a disk.
pub proof fn law_open(ops: OverlayOps, ino: u64, flags: i32)
    ensures
        super::faithful(
            |w: World|
                ops.from_path(
                    ino,
                    w,
                    |path: Seq<u8>, w: World|
                        OverlayOps::opening(LayerManager::place(path), flags, w),
                ),
        ),
{
    let next = |path: Seq<u8>, w: World|
        OverlayOps::opening(LayerManager::place(path), flags, w);
    assert forall|path: Seq<u8>| super::faithful(#[trigger] super::going_on(next, path)) by {
        super::content::faithful_opening(LayerManager::place(path), flags);
        assert(super::going_on(next, path) =~= |w: World|
            OverlayOps::opening(LayerManager::place(path), flags, w));
    }
    super::entries::faithful_from_path(ops, ino, next);
}

/// [`OverlayOps::read`] does over a record what it does on a disk.
pub proof fn law_read(ops: OverlayOps, ino: u64, offset: u64, size: u32)
    ensures
        super::faithful(
            |w: World|
                ops.from_path(
                    ino,
                    w,
                    |path: Seq<u8>, w: World|
                        OverlayOps::reading(LayerManager::place(path), offset, size, w),
                ),
        ),
{
    let next = |path: Seq<u8>, w: World|
        OverlayOps::reading(LayerManager::place(path), offset, size, w);
    assert forall|path: Seq<u8>| super::faithful(#[trigger] super::going_on(next, path)) by {
        super::content::faithful_reading(LayerManager::place(path), offset, size);
        assert(super::going_on(next, path) =~= |w: World|
            OverlayOps::reading(LayerManager::place(path), offset, size, w));
    }
    super::entries::faithful_from_path(ops, ino, next);
}

/// [`OverlayOps::write`] does over a record what it does on a disk.
pub proof fn law_write(ops: OverlayOps, ino: u64, offset: u64)
    ensures
        super::faithful(
            |w: World|
                ops.from_path(
                    ino,
                    w,
                    |path: Seq<u8>, w: World|
                        OverlayOps::writing(LayerManager::place(path), offset, w),
                ),
        ),
{
    let next = |path: Seq<u8>, w: World|
        OverlayOps::writing(LayerManager::place(path), offset, w);
    assert forall|path: Seq<u8>| super::faithful(#[trigger] super::going_on(next, path)) by {
        super::content::faithful_writing(LayerManager::place(path), offset);
        assert(super::going_on(next, path) =~= |w: World|
            OverlayOps::writing(LayerManager::place(path), offset, w));
    }
    super::entries::faithful_from_path(ops, ino, next);
}

/// [`OverlayOps::fsync`] does over a record what it does on a disk.
pub proof fn law_fsync(ops: OverlayOps, ino: u64, datasync: bool)
    ensures
        super::faithful(
            |w: World|
                ops.from_path(
                    ino,
                    w,
                    |path: Seq<u8>, w: World|
                        OverlayOps::syncing(datasync, w),
                ),
        ),
{
    let next = |path: Seq<u8>, w: World|
        OverlayOps::syncing(datasync, w);
    assert forall|path: Seq<u8>| super::faithful(#[trigger] super::going_on(next, path)) by {
        super::content::faithful_syncing(datasync);
        assert(super::going_on(next, path) =~= |w: World| OverlayOps::syncing(datasync, w));
    }
    super::entries::faithful_from_path(ops, ino, next);
}

/// [`OverlayOps::fallocate`] does over a record what it does on a disk.
pub proof fn law_fallocate(ops: OverlayOps, ino: u64, offset: u64, length: u64, mode: i32)
    ensures
        super::faithful(
            |w: World|
                ops.from_path(
                    ino,
                    w,
                    |path: Seq<u8>, w: World|
                        OverlayOps::allocating(LayerManager::place(path), offset, length, mode, w),
                ),
        ),
{
    let next = |path: Seq<u8>, w: World|
        OverlayOps::allocating(LayerManager::place(path), offset, length, mode, w);
    assert forall|path: Seq<u8>| super::faithful(#[trigger] super::going_on(next, path)) by {
        super::content::faithful_allocating(LayerManager::place(path), offset, length, mode);
        assert(super::going_on(next, path) =~= |w: World|
            OverlayOps::allocating(LayerManager::place(path), offset, length, mode, w));
    }
    super::entries::faithful_from_path(ops, ino, next);
}

/// [`OverlayOps::lseek`] does over a record what it does on a disk.
pub proof fn law_lseek(ops: OverlayOps, ino: u64, offset: i64, whence: i32)
    ensures
        super::faithful(
            |w: World|
                ops.from_path(
                    ino,
                    w,
                    |path: Seq<u8>, w: World|
                        LayerManager::resolving(LayerManager::place(path), Which::First, w).bind(
                            |at: Option<Layer>, w: World|
                                match at {
                                    None => Flow::Fail(ENOENT, w),
                                    Some(layer) => OverlayOps::seeking(
                                        Spot::entry(layer, Which::First),
                                        offset,
                                        whence,
                                        w,
                                    ),
                                },
                        ),
                ),
        ),
{
    let next = |path: Seq<u8>, w: World|
        LayerManager::resolving(LayerManager::place(path), Which::First, w).bind(
            |at: Option<Layer>, w: World|
                match at {
                    None => Flow::Fail(ENOENT, w),
                    Some(layer) => OverlayOps::seeking(
                        Spot::entry(layer, Which::First),
                        offset,
                        whence,
                        w,
                    ),
                },
        );
    assert forall|path: Seq<u8>| super::faithful(#[trigger] super::going_on(next, path)) by {
        let f = |w: World| LayerManager::resolving(LayerManager::place(path), Which::First, w);
        let g = |at: Option<Layer>, w: World|
            match at {
                None => Flow::Fail(ENOENT, w),
                Some(layer) => OverlayOps::seeking(
                    Spot::entry(layer, Which::First),
                    offset,
                    whence,
                    w,
                ),
            };
        super::layers::faithful_resolving(LayerManager::place(path), Which::First);
        assert forall|at: Option<Layer>| super::faithful(#[trigger] super::going_on(g, at)) by {
            match at {
                None => {
                    super::faithful_fail::<i64>(ENOENT);
                    assert(super::going_on(g, at) =~= |w: World| Flow::Fail(ENOENT, w));
                },
                Some(layer) => {
                    super::content::faithful_seeking(Spot::entry(layer, Which::First), offset, whence);
                    assert(super::going_on(g, at) =~= |w: World| OverlayOps::seeking(
                        Spot::entry(layer, Which::First),
                        offset,
                        whence,
                        w,
                    ));
                },
            }
        }
        super::faithful_bind(f, g, super::going_on(next, path));
    }
    super::entries::faithful_from_path(ops, ino, next);
}

/// [`OverlayOps::access`] does over a record what it does on a disk.
pub proof fn law_access(ops: OverlayOps, ino: u64, uid: u32, mask: i32)
    ensures
        super::faithful(
            |w: World|
                ops.from_path(
                    ino,
                    w,
                    |path: Seq<u8>, w: World|
                        OverlayOps::testing(LayerManager::place(path), uid, mask, w),
                ),
        ),
{
    let next = |path: Seq<u8>, w: World|
        OverlayOps::testing(LayerManager::place(path), uid, mask, w);
    assert forall|path: Seq<u8>| super::faithful(#[trigger] super::going_on(next, path)) by {
        super::content::faithful_testing(LayerManager::place(path), uid, mask);
        assert(super::going_on(next, path) =~= |w: World|
            OverlayOps::testing(LayerManager::place(path), uid, mask, w));
    }
    super::entries::faithful_from_path(ops, ino, next);
}

/// [`OverlayOps::setxattr`] does over a record what it does on a disk.
pub proof fn law_setxattr(ops: OverlayOps, ino: u64)
    ensures
        super::faithful(
            |w: World|
                ops.from_path(
                    ino,
                    w,
                    |path: Seq<u8>, w: World|
                        OverlayOps::setting_xattr(LayerManager::place(path), w),
                ),
        ),
{
    let next = |path: Seq<u8>, w: World|
        OverlayOps::setting_xattr(LayerManager::place(path), w);
    assert forall|path: Seq<u8>| super::faithful(#[trigger] super::going_on(next, path)) by {
        super::attributes::faithful_setting_xattr(LayerManager::place(path));
        assert(super::going_on(next, path) =~= |w: World|
            OverlayOps::setting_xattr(LayerManager::place(path), w));
    }
    super::entries::faithful_from_path(ops, ino, next);
}

/// [`OverlayOps::getxattr`] does over a record what it does on a disk.
pub proof fn law_getxattr(ops: OverlayOps, ino: u64, size: u32)
    ensures
        super::faithful(
            |w: World|
                ops.from_path(
                    ino,
                    w,
                    |path: Seq<u8>, w: World|
                        OverlayOps::getting_xattr(LayerManager::place(path), size, w),
                ),
        ),
{
    let next = |path: Seq<u8>, w: World|
        OverlayOps::getting_xattr(LayerManager::place(path), size, w);
    assert forall|path: Seq<u8>| super::faithful(#[trigger] super::going_on(next, path)) by {
        super::attributes::faithful_getting_xattr(LayerManager::place(path), size);
        assert(super::going_on(next, path) =~= |w: World|
            OverlayOps::getting_xattr(LayerManager::place(path), size, w));
    }
    super::entries::faithful_from_path(ops, ino, next);
}

/// [`OverlayOps::listxattr`] does over a record what it does on a disk.
pub proof fn law_listxattr(ops: OverlayOps, ino: u64, size: u32)
    ensures
        super::faithful(
            |w: World|
                ops.from_path(
                    ino,
                    w,
                    |path: Seq<u8>, w: World|
                        OverlayOps::naming(LayerManager::place(path), w).bind(
                            |names: Seq<Seq<u8>>, w: World| OverlayOps::fitting(crate::xattr::encoded(names), size, w),
                        ),
                ),
        ),
{
    let next = |path: Seq<u8>, w: World|
        OverlayOps::naming(LayerManager::place(path), w).bind(
            |names: Seq<Seq<u8>>, w: World| OverlayOps::fitting(crate::xattr::encoded(names), size, w),
        );
    assert forall|path: Seq<u8>| super::faithful(#[trigger] super::going_on(next, path)) by {
        let f = |w: World| OverlayOps::naming(LayerManager::place(path), w);
        let g = |names: Seq<Seq<u8>>, w: World| OverlayOps::fitting(crate::xattr::encoded(names), size, w);
        super::attributes::faithful_naming(LayerManager::place(path));
        assert forall|names: Seq<Seq<u8>>| super::faithful(#[trigger] super::going_on(g, names)) by {
            super::attributes::faithful_fitting(crate::xattr::encoded(names), size);
            assert(super::going_on(g, names) =~= |w: World|
                OverlayOps::fitting(crate::xattr::encoded(names), size, w));
        }
        super::faithful_bind(f, g, super::going_on(next, path));
    }
    super::entries::faithful_from_path(ops, ino, next);
}

/// [`OverlayOps::removexattr`] does over a record what it does on a disk.
pub proof fn law_removexattr(ops: OverlayOps, ino: u64)
    ensures
        super::faithful(
            |w: World|
                ops.from_path(
                    ino,
                    w,
                    |path: Seq<u8>, w: World|
                        OverlayOps::removing_xattr(LayerManager::place(path), w),
                ),
        ),
{
    let next = |path: Seq<u8>, w: World|
        OverlayOps::removing_xattr(LayerManager::place(path), w);
    assert forall|path: Seq<u8>| super::faithful(#[trigger] super::going_on(next, path)) by {
        super::attributes::faithful_removing_xattr(LayerManager::place(path));
        assert(super::going_on(next, path) =~= |w: World|
            OverlayOps::removing_xattr(LayerManager::place(path), w));
    }
    super::entries::faithful_from_path(ops, ino, next);
}

/// [`OverlayOps::copy_file_range`] does over a record what it does on a disk.
pub proof fn law_copy_file_range(
    ops: OverlayOps,
    ino_in: u64,
    offset_in: u64,
    ino_out: u64,
    offset_out: u64,
    len: u64,
)
    ensures
        super::faithful(
            |w: World|
                ops.from_path(
                    ino_in,
                    w,
                    |path_in: Seq<u8>, w: World|
                        ops.from_path(
                            ino_out,
                            w,
                            |path_out: Seq<u8>, w: World|
                                OverlayOps::ranging(
                                    LayerManager::place(path_in),
                                    LayerManager::place(path_out),
                                    offset_in,
                                    offset_out,
                                    len,
                                    w,
                                ),
                        ),
                ),
        ),
{
    let next = |path_in: Seq<u8>, w: World|
        ops.from_path(
            ino_out,
            w,
            |path_out: Seq<u8>, w: World|
                OverlayOps::ranging(
                    LayerManager::place(path_in),
                    LayerManager::place(path_out),
                    offset_in,
                    offset_out,
                    len,
                    w,
                ),
        );
    assert forall|path_in: Seq<u8>| super::faithful(#[trigger] super::going_on(next, path_in)) by {
        let a = LayerManager::place(path_in);
        let last = |path_out: Seq<u8>, w: World|
            OverlayOps::ranging(a, LayerManager::place(path_out), offset_in, offset_out, len, w);
        assert forall|path_out: Seq<u8>| super::faithful(
            #[trigger] super::going_on(last, path_out),
        ) by {
            let b = LayerManager::place(path_out);
            super::content::faithful_ranging(a, b, offset_in, offset_out, len);
            assert(super::going_on(last, path_out) =~= |w: World|
                OverlayOps::ranging(a, b, offset_in, offset_out, len, w));
        }
        super::entries::faithful_from_path(ops, ino_out, last);
        assert(super::going_on(next, path_in) =~= |w: World| ops.from_path(ino_out, w, last));
    }
    super::entries::faithful_from_path(ops, ino_in, next);
}

} // verus!
