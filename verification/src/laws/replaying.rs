//! What an operation does on a disk, it does over the record of the replies of that disk.
//!
//! The contract of an operation says how far it gets over any record; the other laws say
//! what it does on a disk. The files here go through every flow that a contract names and
//! show that both are the same: performing on a disk what the operation asks for, one
//! request after another, ends as the flow ends on the disk.

use crate::model::Disk;
use crate::protocol::{Action, Answer, Flow, Meta, Named, World};
use vstd::prelude::*;

pub mod attributes;
pub mod content;
pub mod directories;
pub mod entries;
pub mod layers;
pub mod lifecycle;
pub mod merging;
pub mod operations;

verus! {

/// What a disk replies to a run of requests.
pub open spec fn told(d: Disk, asked: Seq<Action>) -> Seq<Answer>
    decreases asked.len(),
{
    if asked.len() == 0 {
        Seq::empty()
    } else {
        seq![d.reply(asked[0])] + told(d.after(asked[0]), asked.drop_first())
    }
}

/// The disk after a run of requests.
pub open spec fn left(d: Disk, asked: Seq<Action>) -> Disk
    decreases asked.len(),
{
    if asked.len() == 0 {
        d
    } else {
        left(d.after(asked[0]), asked.drop_first())
    }
}

/// A record holds replies from a position on.
pub open spec fn holds_at(t: Seq<Answer>, p: int, replies: Seq<Answer>, n: int) -> bool {
    &&& 0 <= p && p + n <= t.len()
    &&& forall|i: int| 0 <= i < n ==> #[trigger] t[p + i] == replies[i]
}

/// Over a record of the replies that a disk gives to these requests an operation gets as far
/// as on the disk, and uses up all of them.
pub open spec fn ends_alike<T>(
    f: spec_fn(World) -> Flow<T>,
    d: Disk,
    asked: Seq<Action>,
    t: Seq<Answer>,
    p: int,
) -> bool {
    let w = World::Tape(t, p + asked.len());
    match f(World::Disk(d)) {
        Flow::Got(v, World::Disk(e)) => e == left(d, asked) && f(World::Tape(t, p)) == Flow::Got(
            v,
            w,
        ),
        Flow::Fail(c, World::Disk(e)) => e == left(d, asked) && f(World::Tape(t, p))
            == Flow::<T>::Fail(c, w),
        _ => false,
    }
}

/// Performing what an operation asks for on a disk takes these requests in this order, and
/// ends as the operation ends on the disk.
pub open spec fn runs<T>(f: spec_fn(World) -> Flow<T>, d: Disk, asked: Seq<Action>) -> bool {
    &&& forall|t: Seq<Answer>, p: int|
        #![trigger f(World::Tape(t, p))]
        holds_at(t, p, told(d, asked), asked.len() as int) ==> ends_alike(f, d, asked, t, p)
    &&& forall|t: Seq<Answer>, p: int|
        #![trigger f(World::Tape(t, p))]
        p <= t.len() < p + asked.len() && holds_at(t, p, told(d, asked), t.len() - p)
            ==> f(World::Tape(t, p)) == Flow::<T>::Ask(asked[t.len() - p])
}

/// On a disk an operation does what it does over the record of the replies of the disk.
pub open spec fn faithful_on<T>(f: spec_fn(World) -> Flow<T>, d: Disk) -> bool {
    exists|asked: Seq<Action>| #[trigger] runs(f, d, asked)
}

/// On every disk an operation does what it does over the record of the replies of the disk.
pub open spec fn faithful<T>(f: spec_fn(World) -> Flow<T>) -> bool {
    forall|d: Disk| #[trigger] faithful_on(f, d)
}

/// An operation that goes on with a result.
pub open spec fn going_on<T, U>(g: spec_fn(T, World) -> Flow<U>, v: T) -> spec_fn(World) -> Flow<
    U,
> {
    |w: World| g(v, w)
}

/// An operation that is started anew for each reply asks for these requests one after the
/// other, and over the replies to all of them gets as far as on the disk.
pub open spec fn performed<T>(f: spec_fn(World) -> Flow<T>, d: Disk, asked: Seq<Action>) -> bool {
    &&& forall|k: int|
        0 <= k < asked.len() ==> f(World::Tape(#[trigger] told(d, asked).take(k), 0))
            == Flow::<T>::Ask(asked[k])
    &&& ends_alike(f, d, asked, told(d, asked), 0)
}

/// Performing on a disk what a faithful operation asks for, one request after another, comes
/// to an end, and to the one that the operation has on the disk.
pub proof fn law_performed<T>(f: spec_fn(World) -> Flow<T>, d: Disk)
    requires
        faithful(f),
    ensures
        exists|asked: Seq<Action>| #[trigger] performed(f, d, asked),
{
    assert(faithful_on(f, d));
    let asked = choose|asked: Seq<Action>| #[trigger] runs(f, d, asked);
    lemma_told(d, asked);
    lemma_told_holds(d, asked);
    assert forall|k: int| 0 <= k < asked.len() implies f(
        World::Tape(#[trigger] told(d, asked).take(k), 0),
    ) == Flow::<T>::Ask(asked[k]) by {
        let t = told(d, asked).take(k);
        assert forall|i: int| 0 <= i < k implies #[trigger] t[0 + i] == told(d, asked)[i] by {}
        assert(holds_at(t, 0, told(d, asked), t.len() - 0));
    }
    assert(ends_alike(f, d, asked, told(d, asked), 0));
    assert(performed(f, d, asked));
}

proof fn lemma_told(d: Disk, asked: Seq<Action>)
    ensures
        told(d, asked).len() == asked.len(),
    decreases asked.len(),
{
    if asked.len() > 0 {
        lemma_told(d.after(asked[0]), asked.drop_first());
    }
}

proof fn lemma_told_more(d: Disk, a: Seq<Action>, b: Seq<Action>)
    ensures
        told(d, a + b) == told(d, a) + told(left(d, a), b),
        left(d, a + b) == left(left(d, a), b),
    decreases a.len(),
{
    if a.len() == 0 {
        assert(a + b =~= b);
        assert(told(d, a) + told(left(d, a), b) =~= told(d, b));
    } else {
        lemma_told_more(d.after(a[0]), a.drop_first(), b);
        assert((a + b).drop_first() =~= a.drop_first() + b);
        assert(told(d, a + b) =~= told(d, a) + told(left(d, a), b));
    }
}

/// A request is performed as it is.
pub proof fn faithful_ask(a: Action)
    ensures
        faithful(|w: World| a.ask(w)),
{
    let f = |w: World| a.ask(w);
    assert forall|d: Disk| #[trigger] faithful_on(f, d) by {
        let asked = seq![a];
        assert(asked.drop_first() =~= Seq::empty());
        assert(told(d.after(a), asked.drop_first()) =~= Seq::empty());
        assert(left(d.after(a), asked.drop_first()) == d.after(a));
        assert(left(d, asked) == d.after(a));
        assert(told(d, asked) =~= seq![d.reply(a)]);
        assert forall|t: Seq<Answer>, p: int|
            #![trigger f(World::Tape(t, p))]
            holds_at(t, p, told(d, asked), asked.len() as int) implies ends_alike(
            f,
            d,
            asked,
            t,
            p,
        ) by {
            assert(t[p + 0] == told(d, asked)[0]);
        }
        assert(runs(f, d, asked));
    }
}

pub proof fn faithful_got<T>(v: T)
    ensures
        faithful(|w: World| Flow::Got(v, w)),
{
    let f = |w: World| Flow::Got(v, w);
    assert forall|d: Disk| #[trigger] faithful_on(f, d) by {
        assert(runs(f, d, Seq::empty()));
    }
}

pub proof fn faithful_fail<T>(c: i32)
    ensures
        faithful(|w: World| Flow::<T>::Fail(c, w)),
{
    let f = |w: World| Flow::<T>::Fail(c, w);
    assert forall|d: Disk| #[trigger] faithful_on(f, d) by {
        assert(runs(f, d, Seq::empty()));
    }
}

/// One run after another.
proof fn lemma_runs_on<T, U>(
    f: spec_fn(World) -> Flow<T>,
    g: spec_fn(World) -> Flow<U>,
    h: spec_fn(World) -> Flow<U>,
    d: Disk,
    a: Seq<Action>,
    b: Seq<Action>,
)
    requires
        runs(f, d, a),
        runs(g, left(d, a), b),
        h(World::Disk(d)) == g(World::Disk(left(d, a))),
        forall|t: Seq<Answer>, p: int|
            #![trigger f(World::Tape(t, p))]
            #![trigger h(World::Tape(t, p))]
            holds_at(t, p, told(d, a), a.len() as int) ==> h(World::Tape(t, p)) == g(
                World::Tape(t, p + a.len()),
            ),
        forall|t: Seq<Answer>, p: int|
            #![trigger f(World::Tape(t, p))]
            #![trigger h(World::Tape(t, p))]
            f(World::Tape(t, p)) is Ask ==> h(World::Tape(t, p)) == Flow::<U>::Ask(
                f(World::Tape(t, p))->Ask_0,
            ),
    ensures
        runs(h, d, a + b),
{
    let asked = a + b;
    let e = left(d, a);
    lemma_told(d, a);
    lemma_told(e, b);
    lemma_told_more(d, a, b);
    assert forall|t: Seq<Answer>, p: int|
        #![trigger h(World::Tape(t, p))]
        holds_at(t, p, told(d, asked), asked.len() as int) implies ends_alike(
        h,
        d,
        asked,
        t,
        p,
    ) by {
        lemma_split(t, p, told(d, a), told(e, b), asked.len() as int);
        let q = p + a.len();
        assert(g(World::Tape(t, q)) == h(World::Tape(t, p)));
        assert(ends_alike(g, e, b, t, q));
    }
    assert forall|t: Seq<Answer>, p: int|
        #![trigger h(World::Tape(t, p))]
        p <= t.len() < p + asked.len() && holds_at(
            t,
            p,
            told(d, asked),
            t.len() - p,
        ) implies h(World::Tape(t, p)) == Flow::<U>::Ask(asked[t.len() - p]) by {
        let n = t.len() - p;
        lemma_split(t, p, told(d, a), told(e, b), n);
        if n < a.len() {
            assert(f(World::Tape(t, p)) == Flow::<T>::Ask(a[n]));
        } else {
            let q = p + a.len();
            assert(h(World::Tape(t, p)) == g(World::Tape(t, q)));
            assert(g(World::Tape(t, q)) == Flow::<U>::Ask(b[t.len() - q]));
        }
    }
}

/// A record that holds two runs of replies holds each.
proof fn lemma_split(t: Seq<Answer>, p: int, x: Seq<Answer>, y: Seq<Answer>, n: int)
    requires
        holds_at(t, p, x + y, n),
        0 <= n <= x.len() + y.len(),
    ensures
        n < x.len() ==> holds_at(t, p, x, n),
        n >= x.len() ==> holds_at(t, p, x, x.len() as int) && holds_at(
            t,
            p + x.len(),
            y,
            n - x.len(),
        ),
{
    assert forall|i: int| 0 <= i < n && i < x.len() implies #[trigger] t[p + i] == x[i] by {
        assert((x + y)[i] == x[i]);
    }
    if n >= x.len() {
        assert forall|i: int| 0 <= i < n - x.len() implies #[trigger] t[p + x.len() + i]
            == y[i] by {
            assert(t[p + (x.len() + i)] == (x + y)[x.len() + i]);
        }
    }
}

/// What goes on with a result of something faithful in a faithful way is faithful.
pub proof fn faithful_bind<T, U>(
    f: spec_fn(World) -> Flow<T>,
    g: spec_fn(T, World) -> Flow<U>,
    h: spec_fn(World) -> Flow<U>,
)
    requires
        faithful(f),
        forall|v: T| faithful(#[trigger] going_on(g, v)),
        forall|w: World| #[trigger] h(w) == f(w).bind(g),
    ensures
        faithful(h),
{
    assert forall|d: Disk| #[trigger] faithful_on(h, d) by {
        assert(faithful_on(f, d));
        let a = choose|asked: Seq<Action>| #[trigger] runs(f, d, asked);
        let start = World::Disk(d);
        lemma_told(d, a);
        lemma_told_holds(d, a);
        assert(ends_alike(f, d, a, told(d, a), 0));
        assert(h(start) == f(start).bind(g));
        match f(start) {
            Flow::Got(v, _) => {
                let next = going_on(g, v);
                let e = left(d, a);
                assert(faithful(next));
                assert(faithful_on(next, e));
                let b = choose|asked: Seq<Action>| #[trigger] runs(next, e, asked);
                assert(runs(next, e, b));
                assert forall|t: Seq<Answer>, p: int|
                    #![trigger f(World::Tape(t, p))]
                    #![trigger h(World::Tape(t, p))]
                    holds_at(t, p, told(d, a), a.len() as int) implies h(World::Tape(t, p))
                    == next(World::Tape(t, p + a.len())) by {
                    assert(f(World::Tape(t, p)) == Flow::Got(v, World::Tape(t, p + a.len())));
                }
                lemma_runs_on(f, next, h, d, a, b);
            },
            Flow::Fail(c, _) => {
                assert(runs(h, d, a)) by {
                    assert forall|t: Seq<Answer>, p: int|
                        #![trigger h(World::Tape(t, p))]
                        holds_at(t, p, told(d, a), a.len() as int) implies ends_alike(
                        h,
                        d,
                        a,
                        t,
                        p,
                    ) by {
                        assert(f(World::Tape(t, p)) == Flow::<T>::Fail(
                            c,
                            World::Tape(t, p + a.len()),
                        ));
                    }
                    assert forall|t: Seq<Answer>, p: int|
                        #![trigger h(World::Tape(t, p))]
                        p <= t.len() < p + a.len() && holds_at(
                            t,
                            p,
                            told(d, a),
                            t.len() - p,
                        ) implies h(World::Tape(t, p)) == Flow::<U>::Ask(a[t.len() - p]) by {
                        assert(f(World::Tape(t, p)) == Flow::<T>::Ask(a[t.len() - p]));
                    }
                }
            },
            _ => {},
        }
    }
}

proof fn lemma_told_holds(d: Disk, a: Seq<Action>)
    ensures
        holds_at(told(d, a), 0, told(d, a), a.len() as int),
{
    lemma_told(d, a);
    let t = told(d, a);
    assert forall|i: int| 0 <= i < a.len() implies #[trigger] t[0 + i] == t[i] by {}
}

/// What goes on after something faithful in a faithful way, whether or not there is a
/// result, is faithful.
pub proof fn faithful_settle<T, U>(
    f: spec_fn(World) -> Flow<T>,
    g: spec_fn(Result<T, i32>, World) -> Flow<U>,
    h: spec_fn(World) -> Flow<U>,
)
    requires
        faithful(f),
        forall|r: Result<T, i32>| faithful(#[trigger] going_on(g, r)),
        forall|w: World| #[trigger] h(w) == f(w).settle(g),
    ensures
        faithful(h),
{
    assert forall|d: Disk| #[trigger] faithful_on(h, d) by {
        assert(faithful_on(f, d));
        let a = choose|asked: Seq<Action>| #[trigger] runs(f, d, asked);
        let start = World::Disk(d);
        lemma_told(d, a);
        lemma_told_holds(d, a);
        assert(ends_alike(f, d, a, told(d, a), 0));
        assert(h(start) == f(start).settle(g));
        let r = match f(start) {
            Flow::Got(v, _) => Ok(v),
            Flow::Fail(c, _) => Err(c),
            Flow::Ask(_) => Err(0),
        };
        let next = going_on(g, r);
        let e = left(d, a);
        assert(faithful(next));
        assert(faithful_on(next, e));
        let b = choose|asked: Seq<Action>| #[trigger] runs(next, e, asked);
        assert forall|t: Seq<Answer>, p: int|
            #![trigger f(World::Tape(t, p))]
            #![trigger h(World::Tape(t, p))]
            holds_at(t, p, told(d, a), a.len() as int) implies h(World::Tape(t, p)) == next(
            World::Tape(t, p + a.len()),
        ) by {
            assert(ends_alike(f, d, a, t, p));
            assert(h(World::Tape(t, p)) == f(World::Tape(t, p)).settle(g));
        }
        lemma_runs_on(f, next, h, d, a, b);
    }
}

/// A request whose reply is all that counts.
proof fn lemma_reply<T>(a: Action, read: spec_fn(Answer) -> Result<T, i32>, h: spec_fn(World) -> Flow<T>)
    requires
        forall|w: World| #[trigger]
            h(w) == a.ask(w).bind(
                |r: Answer, w: World|
                    match read(r) {
                        Ok(v) => Flow::Got(v, w),
                        Err(c) => Flow::Fail(c, w),
                    },
            ),
    ensures
        faithful(h),
{
    faithful_ask(a);
    let f = |w: World| a.ask(w);
    let g = |r: Answer, w: World|
        match read(r) {
            Ok(v) => Flow::Got(v, w),
            Err(c) => Flow::Fail(c, w),
        };
    assert forall|r: Answer| faithful(#[trigger] going_on(g, r)) by {
        match read(r) {
            Ok(v) => {
                faithful_got(v);
                assert(going_on(g, r) =~= |w: World| Flow::Got(v, w));
            },
            Err(c) => {
                faithful_fail::<T>(c);
                assert(going_on(g, r) =~= |w: World| Flow::Fail(c, w));
            },
        }
    }
    faithful_bind(f, g, h);
}

/// [`Action::run`] does over a record what it does on a disk.
pub proof fn faithful_run(a: Action)
    ensures
        faithful(|w: World| a.run(w)),
{
    lemma_reply::<()>(
        a,
        |r: Answer|
            if r is Done {
                Ok(())
            } else {
                Err(r.code())
            },
        |w: World| a.run(w),
    );
}

/// [`Action::attempt`] does over a record what it does on a disk.
pub proof fn faithful_attempt(a: Action)
    ensures
        faithful(|w: World| a.attempt(w)),
{
    lemma_reply::<()>(
        a,
        |r: Answer|
            Ok(()),
        |w: World| a.attempt(w),
    );
}

/// [`Action::test`] does over a record what it does on a disk.
pub proof fn faithful_test(a: Action)
    ensures
        faithful(|w: World| a.test(w)),
{
    lemma_reply::<bool>(
        a,
        |r: Answer|
            Ok(r is Done),
        |w: World| a.test(w),
    );
}

/// [`Action::meta`] does over a record what it does on a disk.
pub proof fn faithful_meta(a: Action)
    ensures
        faithful(|w: World| a.meta(w)),
{
    lemma_reply::<Meta>(
        a,
        |r: Answer|
            match r {
                Answer::Meta(m) => Ok(m),
                _ => Err(r.code()),
            },
        |w: World| a.meta(w),
    );
}

/// [`Action::probe`] does over a record what it does on a disk.
pub proof fn faithful_probe(a: Action)
    ensures
        faithful(|w: World| a.probe(w)),
{
    lemma_reply::<Option<Meta>>(
        a,
        |r: Answer|
            match r {
                Answer::Meta(m) => Ok(Some(m)),
                _ => Ok(None),
            },
        |w: World| a.probe(w),
    );
}

/// [`Action::count`] does over a record what it does on a disk.
pub proof fn faithful_count(a: Action)
    ensures
        faithful(|w: World| a.count(w)),
{
    lemma_reply::<i64>(
        a,
        |r: Answer|
            match r {
                Answer::Count(n) => Ok(n),
                _ => Err(r.code()),
            },
        |w: World| a.count(w),
    );
}

/// [`Action::data`] does over a record what it does on a disk.
pub proof fn faithful_data(a: Action)
    ensures
        faithful(|w: World| a.data(w)),
{
    lemma_reply::<Seq<u8>>(
        a,
        |r: Answer|
            match r {
                Answer::Data(b) => Ok(b),
                _ => Err(r.code()),
            },
        |w: World| a.data(w),
    );
}

/// [`Action::some_data`] does over a record what it does on a disk.
pub proof fn faithful_some_data(a: Action)
    ensures
        faithful(|w: World| a.some_data(w)),
{
    lemma_reply::<Seq<u8>>(
        a,
        |r: Answer|
            match r {
                Answer::Data(b) => Ok(b),
                _ => Ok(Seq::empty()),
            },
        |w: World| a.some_data(w),
    );
}

/// [`Action::names`] does over a record what it does on a disk.
pub proof fn faithful_names(a: Action)
    ensures
        faithful(|w: World| a.names(w)),
{
    lemma_reply::<Seq<Named>>(
        a,
        |r: Answer|
            match r {
                Answer::Names(n) => Ok(n),
                _ => Ok(Seq::empty()),
            },
        |w: World| a.names(w),
    );
}

} // verus!
