//! Extended attributes over a record.

use crate::errno::{ENODATA, ENOENT, ERANGE};
use crate::fuse_ops::OverlayOps;
use crate::layers::{LayerManager, Place};
use crate::protocol::{Action, Answer, Flow, Layer, Mark, Meta, Spot, Which, World};
use crate::xattr::XattrAnswer;
use vstd::prelude::*;

verus! {

/// [`OverlayOps::setting_xattr`] does over a record what it does on a disk.
pub proof fn faithful_setting_xattr(place: Place)
    ensures
        super::faithful(|w: World| OverlayOps::setting_xattr(place, w)),
{
    let h = |w: World| OverlayOps::setting_xattr(place, w);
    let f = |w: World| LayerManager::promoting(place, Which::First, w);
    let g = |u: (), w: World| Action::SetXattr(Spot::upper(Which::First)).run(w);
    super::layers::faithful_promoting(place, Which::First);
    assert forall|u: ()| super::faithful(#[trigger] super::going_on(g, u)) by {
        super::faithful_run(Action::SetXattr(Spot::upper(Which::First)));
        assert(super::going_on(g, u) =~= |w: World|
            Action::SetXattr(Spot::upper(Which::First)).run(w));
    }
    super::faithful_bind(f, g, h);
}

/// [`OverlayOps::removing_xattr`] does over a record what it does on a disk.
pub proof fn faithful_removing_xattr(place: Place)
    ensures
        super::faithful(|w: World| OverlayOps::removing_xattr(place, w)),
{
    let h = |w: World| OverlayOps::removing_xattr(place, w);
    let f = |w: World| LayerManager::promoting(place, Which::First, w);
    let g = |u: (), w: World| Action::RemoveXattr(Spot::upper(Which::First)).run(w);
    super::layers::faithful_promoting(place, Which::First);
    assert forall|u: ()| super::faithful(#[trigger] super::going_on(g, u)) by {
        super::faithful_run(Action::RemoveXattr(Spot::upper(Which::First)));
        assert(super::going_on(g, u) =~= |w: World|
            Action::RemoveXattr(Spot::upper(Which::First)).run(w));
    }
    super::faithful_bind(f, g, h);
}

/// [`OverlayOps::valuing`] does over a record what it does on a disk.
pub proof fn faithful_valuing(s: Spot, size: u32)
    ensures
        super::faithful(|w: World| OverlayOps::valuing(s, size, w)),
{
    let h = |w: World| OverlayOps::valuing(s, size, w);
    if size == 0 {
        let f = |w: World| Action::XattrSize(s).count(w);
        let g = |n: i64, w: World| Flow::Got(XattrAnswer::Size(n as u32), w);
        super::faithful_count(Action::XattrSize(s));
        assert forall|n: i64| super::faithful(#[trigger] super::going_on(g, n)) by {
            super::faithful_got(XattrAnswer::Size(n as u32));
            assert(super::going_on(g, n) =~= |w: World| Flow::Got(XattrAnswer::Size(n as u32), w));
        }
        super::faithful_bind(f, g, h);
    } else {
        let f2 = |w: World| Action::GetXattr(s, size).data(w);
        let g2 = |b: Seq<u8>, w: World| Flow::Got(XattrAnswer::Data(b), w);
        super::faithful_data(Action::GetXattr(s, size));
        assert forall|b: Seq<u8>| super::faithful(#[trigger] super::going_on(g2, b)) by {
            super::faithful_got(XattrAnswer::Data(b));
            assert(super::going_on(g2, b) =~= |w: World| Flow::Got(XattrAnswer::Data(b), w));
        }
        super::faithful_bind(f2, g2, h);
    }
}

/// [`OverlayOps::getting_xattr`] does over a record what it does on a disk.
pub proof fn faithful_getting_xattr(place: Place, size: u32)
    ensures
        super::faithful(|w: World| OverlayOps::getting_xattr(place, size, w)),
{
    let h = |w: World| OverlayOps::getting_xattr(place, size, w);
    let f = |w: World| LayerManager::resolving(place, Which::First, w);
    let g = |at: Option<Layer>, w: World|
        match at {
            None => Flow::Fail(ENOENT, w),
            Some(layer) => OverlayOps::valuing(Spot::entry(layer, Which::First), size, w),
        };
    super::layers::faithful_resolving(place, Which::First);
    assert forall|at: Option<Layer>| super::faithful(#[trigger] super::going_on(g, at)) by {
        match at {
            None => {
                super::faithful_fail::<XattrAnswer>(ENOENT);
                assert(super::going_on(g, at) =~= |w: World| Flow::Fail(ENOENT, w));
            },
            Some(layer) => {
                faithful_valuing(Spot::entry(layer, Which::First), size);
                assert(super::going_on(g, at) =~= |w: World|
                    OverlayOps::valuing(Spot::entry(layer, Which::First), size, w));
            },
        }
    }
    super::faithful_bind(f, g, h);
}

/// [`OverlayOps::naming`] does over a record what it does on a disk.
pub proof fn faithful_naming(place: Place)
    ensures
        super::faithful(|w: World| OverlayOps::naming(place, w)),
{
    let h = |w: World| OverlayOps::naming(place, w);
    let f = |w: World| LayerManager::resolving(place, Which::First, w);
    let g = |at: Option<Layer>, w: World|
        match at {
            None => Flow::Fail(ENOENT, w),
            Some(layer) => Action::ListXattr(Spot::entry(layer, Which::First)).some_data(
                w,
            ).bind(
                |raw: Seq<u8>, w: World|
                    OverlayOps::naming_more(
                        Spot::entry(OverlayOps::other_layer(layer), Which::First),
                        crate::xattr::parsed(raw),
                        w,
                    ),
            ),
        };
    super::layers::faithful_resolving(place, Which::First);
    assert forall|at: Option<Layer>| super::faithful(#[trigger] super::going_on(g, at)) by {
        match at {
            None => {
                super::faithful_fail::<Seq<Seq<u8>>>(ENOENT);
                assert(super::going_on(g, at) =~= |w: World| Flow::Fail(ENOENT, w));
            },
            Some(layer) => {
                let f2 = |w: World| Action::ListXattr(Spot::entry(layer, Which::First)).some_data(
                    w,
                );
                let g2 = |raw: Seq<u8>, w: World|
                    OverlayOps::naming_more(
                        Spot::entry(OverlayOps::other_layer(layer), Which::First),
                        crate::xattr::parsed(raw),
                        w,
                    );
                super::faithful_some_data(Action::ListXattr(Spot::entry(layer, Which::First)));
                assert forall|raw: Seq<u8>| super::faithful(
                    #[trigger] super::going_on(g2, raw),
                ) by {
                    faithful_naming_more(Spot::entry(OverlayOps::other_layer(layer), Which::First), crate::xattr::parsed(raw));
                    assert(super::going_on(g2, raw) =~= |w: World| OverlayOps::naming_more(
                        Spot::entry(OverlayOps::other_layer(layer), Which::First),
                        crate::xattr::parsed(raw),
                        w,
                    ));
                }
                super::faithful_bind(f2, g2, super::going_on(g, at));
            },
        }
    }
    super::faithful_bind(f, g, h);
}

/// [`OverlayOps::naming_more`] does over a record what it does on a disk.
pub proof fn faithful_naming_more(s: Spot, names: Seq<Seq<u8>>)
    ensures
        super::faithful(|w: World| OverlayOps::naming_more(s, names, w)),
{
    let h = |w: World| OverlayOps::naming_more(s, names, w);
    let f = |w: World| Action::Lstat(s).probe(w);
    let g = |m: Option<Meta>, w: World|
        if m is Some {
            Action::ListXattr(s).some_data(w).bind(
                |raw: Seq<u8>, w: World| Flow::Got(crate::xattr::merged(names, crate::xattr::parsed(raw)), w),
            )
        } else {
            Flow::Got(names, w)
        };
    super::faithful_probe(Action::Lstat(s));
    assert forall|m: Option<Meta>| super::faithful(#[trigger] super::going_on(g, m)) by {
        if m is Some {
            let f2 = |w: World| Action::ListXattr(s).some_data(w);
            let g2 = |raw: Seq<u8>, w: World|
                Flow::Got(crate::xattr::merged(names, crate::xattr::parsed(raw)), w);
            super::faithful_some_data(Action::ListXattr(s));
            assert forall|raw: Seq<u8>| super::faithful(#[trigger] super::going_on(g2, raw)) by {
                super::faithful_got(crate::xattr::merged(names, crate::xattr::parsed(raw)));
                assert(super::going_on(g2, raw) =~= |w: World|
                    Flow::Got(crate::xattr::merged(names, crate::xattr::parsed(raw)), w));
            }
            super::faithful_bind(f2, g2, super::going_on(g, m));
        } else {
            super::faithful_got(names);
            assert(super::going_on(g, m) =~= |w: World| Flow::Got(names, w));
        }
    }
    super::faithful_bind(f, g, h);
}

/// [`OverlayOps::fitting`] does over a record what it does on a disk.
pub proof fn faithful_fitting(out: Seq<u8>, size: u32)
    ensures
        super::faithful(|w: World| OverlayOps::fitting(out, size, w)),
{
    let h = |w: World| OverlayOps::fitting(out, size, w);
    if size == 0 {
        super::faithful_got(XattrAnswer::Size(out.len() as u32));
        assert(h =~= |w: World| Flow::Got(XattrAnswer::Size(out.len() as u32), w));
    } else if size < out.len() {
        super::faithful_fail::<XattrAnswer>(ERANGE);
        assert(h =~= |w: World| Flow::Fail(ERANGE, w));
    } else {
        super::faithful_got(XattrAnswer::Data(out));
        assert(h =~= |w: World| Flow::Got(XattrAnswer::Data(out), w));
    }
}

/// [`crate::xattr::marked`] does over a record what it does on a disk.
pub proof fn faithful_marked(dir: Spot, mark: Mark)
    ensures
        super::faithful(|w: World| crate::xattr::marked(dir, mark, w)),
{
    let h = |w: World| crate::xattr::marked(dir, mark, w);
    let f = |w: World| Action::ReadMark(dir, mark).some_data(w);
    let g = |b: Seq<u8>, w: World| Flow::Got(b == crate::model::mark_value(), w);
    super::faithful_some_data(Action::ReadMark(dir, mark));
    assert forall|b: Seq<u8>| super::faithful(#[trigger] super::going_on(g, b)) by {
        super::faithful_got(b == crate::model::mark_value());
        assert(super::going_on(g, b) =~= |w: World| Flow::Got(b == crate::model::mark_value(), w));
    }
    super::faithful_bind(f, g, h);
}

/// [`crate::xattr::sealed`] does over a record what it does on a disk.
pub proof fn faithful_sealed(dir: Spot)
    ensures
        super::faithful(|w: World| crate::xattr::sealed(dir, w)),
{
    let h = |w: World| crate::xattr::sealed(dir, w);
    let f = |w: World| crate::xattr::marked(dir, Mark::Trusted, w);
    let g = |yes: bool, w: World|
        if yes {
            Flow::Got(true, w)
        } else {
            crate::xattr::marked(dir, Mark::User, w)
        };
    faithful_marked(dir, Mark::Trusted);
    assert forall|yes: bool| super::faithful(#[trigger] super::going_on(g, yes)) by {
        if yes {
            super::faithful_got(true);
            assert(super::going_on(g, yes) =~= |w: World| Flow::Got(true, w));
        } else {
            faithful_marked(dir, Mark::User);
            assert(super::going_on(g, yes) =~= |w: World| crate::xattr::marked(dir, Mark::User, w));
        }
    }
    super::faithful_bind(f, g, h);
}

/// [`crate::xattr::leaving_out`] does over a record what it does on a disk.
pub proof fn faithful_leaving_out(r: Answer)
    ensures
        super::faithful(|w: World| crate::xattr::leaving_out(r, w)),
{
    let h = |w: World| crate::xattr::leaving_out(r, w);
    if r == Answer::Failed(Some(ENODATA)) {
        super::faithful_got(());
        assert(h =~= |w: World| Flow::Got((), w));
    } else {
        super::faithful_fail::<()>(r.code());
        assert(h =~= |w: World| Flow::Fail(r.code(), w));
    }
}

/// [`crate::xattr::copying_value`] does over a record what it does on a disk.
pub proof fn faithful_copying_value(k: usize, n: i64)
    ensures
        super::faithful(|w: World| crate::xattr::copying_value(k, n, w)),
{
    let h = |w: World| crate::xattr::copying_value(k, n, w);
    let f = |w: World| Action::NthValue(k, n).ask(w);
    let g = |r: Answer, w: World|
        match r {
            Answer::Data(_) => Action::SetNth(k).run(w),
            Answer::Failed(Some(c)) => if c == ERANGE {
                crate::xattr::copying_again(k, w)
            } else {
                crate::xattr::leaving_out(r, w)
            },
            _ => crate::xattr::leaving_out(r, w),
        };
    super::faithful_ask(Action::NthValue(k, n));
    assert forall|r: Answer| super::faithful(#[trigger] super::going_on(g, r)) by {
        match r {
            Answer::Data(_) => {
                super::faithful_run(Action::SetNth(k));
                assert(super::going_on(g, r) =~= |w: World| Action::SetNth(k).run(w));
            },
            Answer::Failed(Some(c)) => {
                if c == ERANGE {
                    faithful_copying_again(k);
                    assert(super::going_on(g, r) =~= |w: World| crate::xattr::copying_again(k, w));
                } else {
                    faithful_leaving_out(r);
                    assert(super::going_on(g, r) =~= |w: World| crate::xattr::leaving_out(r, w));
                }
            },
            _ => {
                faithful_leaving_out(r);
                assert(super::going_on(g, r) =~= |w: World| crate::xattr::leaving_out(r, w));
            },
        }
    }
    super::faithful_bind(f, g, h);
}

/// [`crate::xattr::copying_again`] does over a record what it does on a disk.
pub proof fn faithful_copying_again(k: usize)
    ensures
        super::faithful(|w: World| crate::xattr::copying_again(k, w)),
{
    let h = |w: World| crate::xattr::copying_again(k, w);
    let f = |w: World| Action::NthSize(k).ask(w);
    let g = |r: Answer, w: World|
        match r {
            Answer::Count(m) => if m > 0 {
                Action::NthValue(k, m).ask(w).bind(
                    |r: Answer, w: World|
                        match r {
                            Answer::Data(_) => Action::SetNth(k).run(w),
                            _ => crate::xattr::leaving_out(r, w),
                        },
                )
            } else {
                Action::SetNthEmpty(k).run(w)
            },
            _ => crate::xattr::leaving_out(r, w),
        };
    super::faithful_ask(Action::NthSize(k));
    assert forall|r: Answer| super::faithful(#[trigger] super::going_on(g, r)) by {
        match r {
            Answer::Count(m) => {
                if m > 0 {
                    let f2 = |w: World| Action::NthValue(k, m).ask(w);
                    let g2 = |r: Answer, w: World|
                        match r {
                            Answer::Data(_) => Action::SetNth(k).run(w),
                            _ => crate::xattr::leaving_out(r, w),
                        };
                    super::faithful_ask(Action::NthValue(k, m));
                    assert forall|r: Answer| super::faithful(#[trigger] super::going_on(g2, r)) by {
                        match r {
                            Answer::Data(_) => {
                                super::faithful_run(Action::SetNth(k));
                                assert(super::going_on(g2, r) =~= |w: World|
                                    Action::SetNth(k).run(w));
                            },
                            _ => {
                                faithful_leaving_out(r);
                                assert(super::going_on(g2, r) =~= |w: World|
                                    crate::xattr::leaving_out(r, w));
                            },
                        }
                    }
                    super::faithful_bind(f2, g2, super::going_on(g, r));
                } else {
                    super::faithful_run(Action::SetNthEmpty(k));
                    assert(super::going_on(g, r) =~= |w: World| Action::SetNthEmpty(k).run(w));
                }
            },
            _ => {
                faithful_leaving_out(r);
                assert(super::going_on(g, r) =~= |w: World| crate::xattr::leaving_out(r, w));
            },
        }
    }
    super::faithful_bind(f, g, h);
}

/// [`crate::xattr::copying_nth`] does over a record what it does on a disk.
pub proof fn faithful_copying_nth(k: usize)
    ensures
        super::faithful(|w: World| crate::xattr::copying_nth(k, w)),
{
    let h = |w: World| crate::xattr::copying_nth(k, w);
    let f = |w: World| Action::NthSize(k).ask(w);
    let g = |r: Answer, w: World|
        match r {
            Answer::Count(n) => if n > 0 {
                crate::xattr::copying_value(k, n, w)
            } else {
                Action::SetNthEmpty(k).run(w)
            },
            _ => crate::xattr::leaving_out(r, w),
        };
    super::faithful_ask(Action::NthSize(k));
    assert forall|r: Answer| super::faithful(#[trigger] super::going_on(g, r)) by {
        match r {
            Answer::Count(n) => {
                if n > 0 {
                    faithful_copying_value(k, n);
                    assert(super::going_on(g, r) =~= |w: World|
                        crate::xattr::copying_value(k, n, w));
                } else {
                    super::faithful_run(Action::SetNthEmpty(k));
                    assert(super::going_on(g, r) =~= |w: World| Action::SetNthEmpty(k).run(w));
                }
            },
            _ => {
                faithful_leaving_out(r);
                assert(super::going_on(g, r) =~= |w: World| crate::xattr::leaving_out(r, w));
            },
        }
    }
    super::faithful_bind(f, g, h);
}

/// [`crate::xattr::copying_all`] does over a record what it does on a disk.
pub proof fn faithful_copying_all(src: Spot)
    ensures
        super::faithful(|w: World| crate::xattr::copying_all(src, w)),
{
    let h = |w: World| crate::xattr::copying_all(src, w);
    let f = |w: World| Action::ListXattr(src).data(w);
    let g = |raw: Seq<u8>, w: World|
        crate::xattr::copying_from(0, crate::xattr::ended(raw).len(), w);
    super::faithful_data(Action::ListXattr(src));
    assert forall|raw: Seq<u8>| super::faithful(#[trigger] super::going_on(g, raw)) by {
        faithful_copying_from(0, crate::xattr::ended(raw).len());
        assert(super::going_on(g, raw) =~= |w: World|
            crate::xattr::copying_from(0, crate::xattr::ended(raw).len(), w));
    }
    super::faithful_bind(f, g, h);
}

/// [`crate::xattr::copying_from`] does over a record what it does on a disk.
pub proof fn faithful_copying_from(k: nat, n: nat)
    ensures
        super::faithful(|w: World| crate::xattr::copying_from(k, n, w)),
    decreases n - k,
{
    let h = |w: World| crate::xattr::copying_from(k, n, w);
    if k < n {
        let f = |w: World| crate::xattr::copying_nth(k as usize, w);
        let g = |u: (), w: World| crate::xattr::copying_from(k + 1, n, w);
        faithful_copying_nth(k as usize);
        assert forall|u: ()| super::faithful(#[trigger] super::going_on(g, u)) by {
            faithful_copying_from(k + 1, n);
            assert(super::going_on(g, u) =~= |w: World| crate::xattr::copying_from(k + 1, n, w));
        }
        super::faithful_bind(f, g, h);
    } else {
        super::faithful_got(());
        assert(h =~= |w: World| Flow::Got((), w));
    }
}

} // verus!
