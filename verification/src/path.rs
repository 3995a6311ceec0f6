//! Byte-level Unix paths.
//!
//! A path is the sequence of bytes it is written with. Two paths are the same path when
//! their components agree: repeated separators, trailing separators and inner `.`
//! components do not count.

use vstd::prelude::*;

verus! {

/// The separator between the components of a path.
pub const SLASH: u8 = 47;

/// The byte `.`.
pub const DOT: u8 = 46;

/// A path without the separators and the `.` components that end it. A leading
/// separator and a leading `.` are kept: they are components of their own.
pub open spec fn trimmed(s: Seq<u8>) -> Seq<u8>
    decreases s.len(),
{
    if s.len() >= 2 && (s.last() == SLASH || (s.last() == DOT && s[s.len() - 2] == SLASH)) {
        trimmed(s.drop_last())
    } else {
        s
    }
}

/// The position just after the last separator.
pub open spec fn last_start(s: Seq<u8>) -> int
    decreases s.len(),
{
    if s.len() == 0 || s.last() == SLASH {
        s.len() as int
    } else {
        last_start(s.drop_last())
    }
}

/// The components of a path, in order. The root is the component `/`.
pub open spec fn components(s: Seq<u8>) -> Seq<Seq<u8>>
    decreases s.len(),
{
    let t = trimmed(s);
    if t.len() == 0 {
        Seq::empty()
    } else if t == seq![SLASH] {
        seq![t]
    } else {
        let k = last_start(t);
        proof {
            lemma_trimmed(s);
            lemma_last_start(t);
        }
        components(t.take(k)).push(t.skip(k))
    }
}

/// Whether a component names an entry of a directory, unlike `/`, `.` and `..`.
pub open spec fn is_normal(c: Seq<u8>) -> bool {
    &&& c != seq![SLASH]
    &&& c != seq![DOT]
    &&& c != seq![DOT, DOT]
}

/// Whether a path starts at the root.
pub open spec fn is_absolute(s: Seq<u8>) -> bool {
    s.len() > 0 && s[0] == SLASH
}

/// The path of the directory that holds `s`; the root and the empty path have none.
pub open spec fn parent(s: Seq<u8>) -> Option<Seq<u8>> {
    let t = trimmed(s);
    if t.len() == 0 || t == seq![SLASH] {
        None
    } else {
        Some(trimmed(t.take(last_start(t))))
    }
}

/// The directory that many levels up; from the root or the empty path there is none
/// further up.
pub open spec fn ancestor(s: Seq<u8>, n: nat) -> Seq<u8>
    decreases n,
{
    if n == 0 {
        s
    } else {
        match parent(s) {
            Some(p) => ancestor(p, (n - 1) as nat),
            None => s,
        }
    }
}

/// The last component of a path, where it names an entry.
pub open spec fn file_name(s: Seq<u8>) -> Option<Seq<u8>> {
    let c = components(s);
    if c.len() > 0 && is_normal(c.last()) {
        Some(c.last())
    } else {
        None
    }
}

/// The path `b` taken relative to the directory `a`. An absolute `b` stands for itself.
pub open spec fn join(a: Seq<u8>, b: Seq<u8>) -> Seq<u8> {
    if is_absolute(b) {
        b
    } else if a.len() == 0 || a.last() == SLASH {
        a + b
    } else {
        a.push(SLASH) + b
    }
}

/// Whether `rel` is `prefix` or lies below it, component by component.
pub open spec fn within(rel: Seq<u8>, prefix: Seq<u8>) -> bool {
    components(prefix).is_prefix_of(components(rel))
}

pub proof fn lemma_trimmed(s: Seq<u8>)
    ensures
        trimmed(s).len() <= s.len(),
        trimmed(s) == s.take(trimmed(s).len() as int),
        trimmed(s).len() > 1 ==> trimmed(s).last() != SLASH,
        s.len() > 0 ==> trimmed(s).len() > 0,
        trimmed(s).len() == 1 && trimmed(s)[0] == SLASH ==> trimmed(s) == seq![SLASH],
        trimmed(trimmed(s)) == trimmed(s),
    decreases s.len(),
{
    if s.len() >= 2 && (s.last() == SLASH || (s.last() == DOT && s[s.len() - 2] == SLASH)) {
        lemma_trimmed(s.drop_last());
        assert(s.drop_last().take(trimmed(s).len() as int) =~= s.take(trimmed(s).len() as int));
    } else {
        assert(s.take(s.len() as int) =~= s);
    }
}

pub proof fn lemma_last_start(s: Seq<u8>)
    ensures
        0 <= last_start(s) <= s.len(),
        s.len() > 0 && s.last() != SLASH ==> last_start(s) < s.len(),
        last_start(s) > 0 ==> s[last_start(s) - 1] == SLASH,
        forall|i: int| last_start(s) <= i < s.len() ==> s[i] != SLASH,
    decreases s.len(),
{
    if s.len() > 0 && s.last() != SLASH {
        let r = s.drop_last();
        lemma_last_start(r);
        assert forall|i: int| last_start(s) <= i < s.len() implies s[i] != SLASH by {
            if i < r.len() {
                assert(r[i] == s[i]);
            }
        }
    }
}

/// Trimming a path does not change its components.
pub proof fn lemma_components_trimmed(s: Seq<u8>)
    ensures
        components(trimmed(s)) == components(s),
{
    lemma_trimmed(s);
}

/// A separator at the end of a path does not count.
pub proof fn lemma_components_push_slash(s: Seq<u8>)
    requires
        s.len() > 0,
    ensures
        components(s.push(SLASH)) == components(s),
{
    assert(s.push(SLASH).drop_last() =~= s);
    assert(trimmed(s.push(SLASH)) == trimmed(s));
}

/// Every component is a non-empty run of bytes without a separator, or the root.
pub proof fn lemma_component_shape(s: Seq<u8>, i: int)
    requires
        0 <= i < components(s).len(),
    ensures
        components(s)[i].len() > 0,
        components(s)[i] == seq![SLASH] ==> i == 0,
        components(s)[i] != seq![SLASH] ==> !components(s)[i].contains(SLASH),
        components(s)[i] == seq![DOT] ==> i == 0,
    decreases s.len(),
{
    let t = trimmed(s);
    lemma_trimmed(s);
    if t.len() > 0 && t != seq![SLASH] {
        let k = last_start(t);
        lemma_last_start(t);
        if t.len() == 1 && t.last() == SLASH {
            assert(t =~= seq![SLASH]);
        }
        let rest = components(t.take(k));
        if i < rest.len() {
            lemma_component_shape(t.take(k), i);
        } else {
            let c = t.skip(k);
            assert(components(s)[i] == c);
            assert(!c.contains(SLASH)) by {
                assert forall|j: int| 0 <= j < c.len() implies c[j] != SLASH by {
                    assert(c[j] == t[j + k]);
                }
            }
            if c == seq![SLASH] {
                assert(c[0] == SLASH);
            }
            if c == seq![DOT] {
                assert(c.len() == 1 && t.last() == c[0]);
                assert(k == t.len() - 1);
                if k > 0 {
                    assert(t[t.len() - 2] == SLASH);
                    assert(trimmed(t) != t) by {
                        lemma_trimmed(t.drop_last());
                    }
                }
                assert(t.take(0) =~= Seq::<u8>::empty());
            }
        }
    }
}

/// The components of the parent are those of the path but for the last one.
pub proof fn lemma_parent(s: Seq<u8>)
    ensures
        parent(s) is Some <==> components(s).len() > 0 && components(s).last() != seq![SLASH],
        parent(s) is Some ==> components(parent(s)->0) == components(s).drop_last(),
        parent(s) is Some ==> (parent(s)->0).len() < s.len(),
{
    let t = trimmed(s);
    lemma_trimmed(s);
    if t.len() > 0 && t != seq![SLASH] {
        let k = last_start(t);
        lemma_last_start(t);
        if t.len() == 1 && t.last() == SLASH {
            assert(t =~= seq![SLASH]);
        }
        lemma_components_trimmed(t.take(k));
        lemma_trimmed(t.take(k));
        assert(components(s).drop_last() =~= components(t.take(k)));
        assert(components(s).last() == t.skip(k));
        if t.skip(k) == seq![SLASH] {
            assert(t.skip(k)[0] == t[k]);
        }
    } else if t.len() > 0 {
        assert(components(s).last() == seq![SLASH]);
    }
}

/// A component that may follow another one.
pub open spec fn is_segment(c: Seq<u8>) -> bool {
    c.len() > 0 && !c.contains(SLASH) && c != seq![DOT]
}

/// The components of an entry of a directory: those of the directory, then its name.
pub proof fn lemma_join_segment(a: Seq<u8>, name: Seq<u8>)
    requires
        is_segment(name),
    ensures
        components(join(a, name)) == components(a).push(name),
        is_normal(name) ==> file_name(join(a, name)) == Some(name),
{
    let j = join(a, name);
    assert(!is_absolute(name)) by {
        assert(name.contains(name[0]));
    }
    let base = if a.len() == 0 || a.last() == SLASH { a } else { a.push(SLASH) };
    assert(j =~= base + name);
    assert(j.last() == name.last());
    assert(name.contains(name.last()));
    if j.len() >= 2 && j.last() == DOT && j[j.len() - 2] == SLASH {
        if name.len() >= 2 {
            assert(j[j.len() - 2] == name[name.len() - 2]);
            assert(name.contains(name[name.len() - 2]));
        } else {
            assert(name =~= seq![DOT]);
        }
    }
    assert(trimmed(j) == j);
    if j == seq![SLASH] {
        assert(j[0] == SLASH);
    }
    lemma_last_start_concat(base, name);
    assert(j.take(base.len() as int) =~= base);
    assert(j.skip(base.len() as int) =~= name);
    if base != a {
        lemma_components_push_slash(a);
    }
}

proof fn lemma_last_start_concat(base: Seq<u8>, name: Seq<u8>)
    requires
        base.len() == 0 || base.last() == SLASH,
        !name.contains(SLASH),
    ensures
        last_start(base + name) == base.len(),
    decreases name.len(),
{
    if name.len() == 0 {
        assert(base + name =~= base);
    } else {
        assert(name.contains(name.last()));
        let shorter = name.drop_last();
        assert((base + name).drop_last() =~= base + shorter);
        assert forall|x: u8| shorter.contains(x) implies name.contains(x) by {
            let i = choose|i: int| 0 <= i < shorter.len() && shorter[i] == x;
            assert(name[i] == x);
        }
        lemma_last_start_concat(base, shorter);
    }
}

/// Whether two byte strings are equal.
pub fn bytes_eq(a: &[u8], b: &[u8]) -> (r: bool)
    ensures
        r == (a@ == b@),
{
    if a.len() != b.len() {
        return false;
    }
    let mut i: usize = 0;
    while i < a.len()
        invariant
            i <= a.len(),
            a.len() == b.len(),
            forall|j: int| 0 <= j < i ==> a@[j] == b@[j],
        decreases a.len() - i,
    {
        if a[i] != b[i] {
            return false;
        }
        i += 1;
    }
    assert(a@ =~= b@);
    true
}

/// The bytes of `a` from position `from` up to position `to`.
pub fn copy_range(a: &[u8], from: usize, to: usize) -> (r: Vec<u8>)
    requires
        from <= to <= a.len(),
    ensures
        r@ == a@.subrange(from as int, to as int),
{
    let mut r: Vec<u8> = Vec::new();
    let mut i: usize = from;
    while i < to
        invariant
            from <= i <= to <= a.len(),
            r@ == a@.subrange(from as int, i as int),
        decreases to - i,
    {
        r.push(a[i]);
        i += 1;
        assert(r@ =~= a@.subrange(from as int, i as int));
    }
    r
}

/// Appends the bytes of `b`.
pub fn append_bytes(a: &mut Vec<u8>, b: &[u8])
    ensures
        final(a)@ == old(a)@ + b@,
{
    let ghost start = a@;
    let mut i: usize = 0;
    assert(a@ =~= start + b@.take(0));
    while i < b.len()
        invariant
            i <= b.len(),
            a@ == start + b@.take(i as int),
        decreases b.len() - i,
    {
        a.push(b[i]);
        i += 1;
        assert(a@ =~= start + b@.take(i as int));
    }
    assert(b@.take(b@.len() as int) =~= b@);
}

/// Whether the list holds the byte string `x`.
pub fn holds_bytes(list: &Vec<Vec<u8>>, x: &[u8]) -> (r: bool)
    ensures
        r == views(list@).contains(x@),
{
    let mut i: usize = 0;
    while i < list.len()
        invariant
            i <= list.len(),
            forall|j: int| 0 <= j < i ==> #[trigger] views(list@)[j] != x@,
        decreases list.len() - i,
    {
        if bytes_eq(list[i].as_slice(), x) {
            assert(views(list@)[i as int] == x@);
            return true;
        }
        i += 1;
    }
    false
}

/// The views of a list of byte strings.
pub open spec fn views(list: Seq<Vec<u8>>) -> Seq<Seq<u8>> {
    Seq::new(list.len(), |i: int| list[i]@)
}

/// A separator in front adds the root in front of the components. A leading `.` is not a
/// component of its own then.
pub proof fn lemma_components_rooted(rel: Seq<u8>)
    requires
        !is_absolute(rel),
        components(rel).len() > 0 ==> components(rel)[0] != seq![DOT],
    ensures
        components(seq![SLASH] + rel) == seq![seq![SLASH]] + components(rel),
    decreases rel.len(),
{
    let t = trimmed(rel);
    lemma_trimmed(rel);
    lemma_trimmed_rooted(rel);
    let s = seq![SLASH] + rel;
    if t.len() == 0 {
        assert(seq![SLASH] + t =~= seq![SLASH]);
        assert(trimmed(s) == seq![SLASH]);
        assert(components(s) =~= seq![seq![SLASH]] + components(rel));
    } else {
        lemma_last_start(t);
        let k = last_start(t);
        assert(t[0] == rel[0]);
        let base = t.take(k);
        assert(t != seq![SLASH]) by {
            assert(seq![SLASH][0] == SLASH);
        }
        assert(components(rel) == components(base).push(t.skip(k)));
        if t == seq![DOT] {
            assert(k == 0) by {
                reveal_with_fuel(last_start, 2);
                assert(t.last() == DOT);
            }
            assert(base =~= Seq::empty());
            assert(components(base) =~= Seq::empty());
            assert(components(rel)[0] == t.skip(k));
            assert(t.skip(k) =~= seq![DOT]);
        }
        let ts = seq![SLASH] + t;
        assert(trimmed(s) == ts);
        assert(ts != seq![SLASH]) by {
            assert(ts.len() > 1);
        }
        lemma_last_start_shift(t);
        assert(last_start(ts) == k + 1);
        assert(ts.take(k + 1) =~= seq![SLASH] + base);
        assert(ts.skip(k + 1) =~= t.skip(k));
        if base.len() > 0 {
            assert(base[0] == t[0]);
        }
        if components(base).len() > 0 {
            assert(components(rel)[0] == components(base)[0]);
        }
        lemma_components_rooted(base);
        assert(components(s) =~= seq![seq![SLASH]] + components(rel));
    }
}

proof fn lemma_last_start_shift(t: Seq<u8>)
    ensures
        last_start(seq![SLASH] + t) == last_start(t) + 1,
    decreases t.len(),
{
    let s = seq![SLASH] + t;
    if t.len() == 0 {
        assert(s.last() == SLASH);
    } else {
        assert(s.last() == t.last());
        assert(s.drop_last() =~= seq![SLASH] + t.drop_last());
        lemma_last_start_shift(t.drop_last());
    }
}

proof fn lemma_trimmed_rooted(rel: Seq<u8>)
    requires
        !is_absolute(rel),
    ensures
        trimmed(rel) != seq![DOT] ==> trimmed(seq![SLASH] + rel) == seq![SLASH] + trimmed(rel),
    decreases rel.len(),
{
    let s = seq![SLASH] + rel;
    if rel.len() == 0 {
        assert(s.len() == 1);
        assert(trimmed(s) =~= s);
    } else if rel.len() == 1 {
        assert(s.last() == rel[0]);
        assert(s[0] == SLASH);
        if rel[0] == DOT {
            assert(trimmed(rel) =~= seq![DOT]);
        }
    } else {
        assert(s.last() == rel.last());
        assert(s[s.len() - 2] == rel[rel.len() - 2]);
        if rel.last() == SLASH || (rel.last() == DOT && rel[rel.len() - 2] == SLASH) {
            assert(s.drop_last() =~= seq![SLASH] + rel.drop_last());
            assert(rel.drop_last()[0] == rel[0]);
            lemma_trimmed_rooted(rel.drop_last());
        }
    }
}

/// A relative path does not start with the root.
pub proof fn lemma_first_component(rel: Seq<u8>)
    requires
        !is_absolute(rel),
        components(rel).len() > 0,
    ensures
        components(rel)[0] != seq![SLASH],
    decreases rel.len(),
{
    let t = trimmed(rel);
    lemma_trimmed(rel);
    lemma_last_start(t);
    assert(t.len() > 0);
    assert(t[0] == rel[0]);
    let k = last_start(t);
    let base = t.take(k);
    assert(seq![SLASH][0] == SLASH);
    if base.len() > 0 {
        assert(base[0] == t[0]);
    }
    if components(base).len() > 0 {
        lemma_first_component(base);
    } else {
        assert(components(rel)[0] == t.skip(k));
        if t.skip(k) == seq![SLASH] {
            assert(t.skip(k)[0] == t[k]);
            assert(t.skip(k).len() == 1);
        }
    }
}

/// The length of the first `end` bytes once trimmed.
fn trim_end(s: &[u8], end: usize) -> (r: usize)
    requires
        end <= s.len(),
    ensures
        r == trimmed(s@.take(end as int)).len(),
        r <= end,
        s@.take(r as int) == trimmed(s@.take(end as int)),
{
    let mut e: usize = end;
    while e >= 2 && (s[e - 1] == SLASH || (s[e - 1] == DOT && s[e - 2] == SLASH))
        invariant
            e <= end <= s.len(),
            trimmed(s@.take(e as int)) == trimmed(s@.take(end as int)),
        decreases e,
    {
        assert(s@.take(e as int).drop_last() =~= s@.take(e - 1));
        e -= 1;
    }
    assert(trimmed(s@.take(e as int)) == s@.take(e as int));
    e
}

/// The position just after the last separator among the first `end` bytes.
fn segment_start(s: &[u8], end: usize) -> (r: usize)
    requires
        end <= s.len(),
    ensures
        r == last_start(s@.take(end as int)),
        r <= end,
{
    let mut k: usize = end;
    while k > 0 && s[k - 1] != SLASH
        invariant
            k <= end <= s.len(),
            last_start(s@.take(k as int)) == last_start(s@.take(end as int)),
        decreases k,
    {
        assert(s@.take(k as int).drop_last() =~= s@.take(k - 1));
        k -= 1;
    }
    k
}

/// A path, held as the bytes it is written with.
pub struct FsPath {
    pub bytes: Vec<u8>,
}

impl View for FsPath {
    type V = Seq<u8>;

    open spec fn view(&self) -> Seq<u8> {
        self.bytes@
    }
}

impl Clone for FsPath {
    fn clone(&self) -> (r: FsPath)
        ensures
            r@ == self@,
    {
        let bytes = copy_range(self.bytes.as_slice(), 0, self.bytes.len());
        assert(bytes@ =~= self.bytes@);
        FsPath { bytes }
    }
}

impl FsPath {
    /// The empty path.
    pub fn empty() -> (r: FsPath)
        ensures
            r@ == Seq::<u8>::empty(),
    {
        FsPath { bytes: Vec::new() }
    }

    /// The path written with the given bytes.
    pub fn from_bytes(bytes: Vec<u8>) -> (r: FsPath)
        ensures
            r@ == bytes@,
    {
        FsPath { bytes }
    }

    /// The path written with the given text.
    pub fn from_text(text: &str) -> (r: FsPath)
        ensures
            r@ == vstd::utf8::encode_utf8(text@),
    {
        let b = text.as_bytes();
        let bytes = copy_range(b, 0, b.len());
        assert(bytes@ =~= b@);
        FsPath { bytes }
    }

    /// Whether the path is written with no byte at all.
    pub fn is_empty(&self) -> (r: bool)
        ensures
            r == (self@.len() == 0),
    {
        self.bytes.len() == 0
    }

    /// The components of the path, in order.
    pub fn components(&self) -> (r: Vec<Vec<u8>>)
        ensures
            views(r@) == components(self@),
    {
        let s = self.bytes.as_slice();
        let mut out: Vec<Vec<u8>> = Vec::new();
        let mut end: usize = s.len();
        assert(s@.take(s@.len() as int) =~= s@);
        assert(components(self@) =~= components(s@.take(end as int)) + views(out@));
        loop
            invariant_except_break
                components(self@) == components(s@.take(end as int)) + views(out@),
            invariant
                s@ == self@,
                end <= s.len(),
            ensures
                components(self@) == views(out@),
            decreases end,
        {
            let t = trim_end(s, end);
            proof {
                lemma_trimmed(s@.take(end as int));
            }
            if t == 0 {
                assert(components(s@.take(end as int)) =~= Seq::<Seq<u8>>::empty());
                assert(components(self@) =~= views(out@));
                break;
            }
            let ghost before = views(out@);
            if t == 1 && s[0] == SLASH {
                assert(s@.take(1) =~= seq![SLASH]);
                let c = copy_range(s, 0, 1);
                out.insert(0, c);
                assert(views(out@) =~= seq![seq![SLASH]] + before);
                assert(components(self@) =~= views(out@));
                break;
            }
            let k = segment_start(s, t);
            proof {
                lemma_last_start(s@.take(t as int));
                assert(s@.take(t as int).last() == s@[t - 1]);
                if s@.take(t as int) == seq![SLASH] {
                    assert(s@.take(t as int)[0] == SLASH);
                }
            }
            let c = copy_range(s, k, t);
            assert(c@ =~= s@.take(t as int).skip(k as int));
            assert(s@.take(t as int).take(k as int) =~= s@.take(k as int));
            out.insert(0, c);
            assert(views(out@) =~= seq![c@] + before);
            assert(components(self@) =~= components(s@.take(k as int)) + views(out@));
            end = k;
        }
        out
    }

    /// The path of the directory that holds this path.
    pub fn parent(&self) -> (r: Option<FsPath>)
        ensures
            r is Some <==> parent(self@) is Some,
            r matches Some(p) ==> Some(p@) == parent(self@),
    {
        let s = self.bytes.as_slice();
        let t = trim_end(s, s.len());
        assert(s@.take(s@.len() as int) =~= s@);
        proof {
            lemma_trimmed(s@);
        }
        if t == 0 {
            return None;
        }
        if t == 1 && s[0] == SLASH {
            assert(s@.take(1) =~= seq![SLASH]);
            return None;
        }
        proof {
            if s@.take(t as int) == seq![SLASH] {
                assert(s@.take(t as int)[0] == SLASH);
            }
        }
        let k = segment_start(s, t);
        let e = trim_end(s, k);
        assert(s@.take(t as int).take(k as int) =~= s@.take(k as int));
        let bytes = copy_range(s, 0, e);
        assert(bytes@ =~= s@.take(e as int));
        Some(FsPath { bytes })
    }

    /// The last component, where it names an entry.
    pub fn file_name(&self) -> (r: Option<Vec<u8>>)
        ensures
            r is Some <==> file_name(self@) is Some,
            r matches Some(n) ==> Some(n@) == file_name(self@),
    {
        let mut c = self.components();
        let ghost cs = views(c@);
        match c.pop() {
            None => None,
            Some(n) => {
                assert(cs.last() == n@);
                if is_normal_name(n.as_slice()) {
                    Some(n)
                } else {
                    None
                }
            },
        }
    }

    /// The path `other` taken relative to this directory.
    pub fn join(&self, other: &[u8]) -> (r: FsPath)
        ensures
            r@ == join(self@, other@),
    {
        let mut bytes: Vec<u8> = Vec::new();
        if other.len() > 0 && other[0] == SLASH {
            append_bytes(&mut bytes, other);
            assert(bytes@ =~= other@);
            return FsPath { bytes };
        }
        append_bytes(&mut bytes, self.bytes.as_slice());
        assert(bytes@ =~= self@);
        let n = bytes.len();
        if n > 0 && bytes[n - 1] != SLASH {
            bytes.push(SLASH);
        }
        append_bytes(&mut bytes, other);
        FsPath { bytes }
    }

    /// Whether two paths are the same path.
    pub fn same(&self, other: &FsPath) -> (r: bool)
        ensures
            r == (components(self@) == components(other@)),
    {
        same_list(&self.components(), &other.components())
    }

    /// Whether this path is `prefix` or lies below it.
    pub fn starts_with(&self, prefix: &FsPath) -> (r: bool)
        ensures
            r == within(self@, prefix@),
    {
        list_starts_with(&self.components(), &prefix.components())
    }
}

/// The components of a path once a leading root is dropped.
pub open spec fn below_root(c: Seq<Seq<u8>>) -> Seq<Seq<u8>> {
    if c.len() > 0 && c[0] == seq![SLASH] {
        c.skip(1)
    } else {
        c
    }
}

/// The path taken relative to the root: without its leading separator, where it has one.
pub fn normalise_dir(p: &FsPath) -> (r: FsPath)
    ensures
        components(r@) == below_root(components(p@)),
{
    let c = p.components();
    let ghost cs = components(p@);
    assert(views(c@).len() == c@.len());
    if c.len() == 0 || c[0].len() != 1 || c[0][0] != SLASH {
        proof {
            if c@.len() > 0 {
                assert(cs[0] == c@[0]@);
                if cs[0] == seq![SLASH] {
                    assert(cs[0][0] == SLASH);
                }
            }
        }
        return p.clone();
    }
    assert(cs[0] == c@[0]@);
    assert(cs[0] =~= seq![SLASH]);
    let mut out = FsPath::empty();
    let mut i: usize = 1;
    assert(cs.subrange(1, 1) =~= Seq::<Seq<u8>>::empty());
    while i < c.len()
        invariant
            1 <= i <= c.len(),
            cs == components(p@),
            views(c@) == cs,
            components(out@) == cs.subrange(1, i as int),
        decreases c.len() - i,
    {
        proof {
            lemma_component_shape(p@, i as int);
            assert(cs[i as int] == c@[i as int]@);
            lemma_join_segment(out@, cs[i as int]);
            assert(cs.subrange(1, i as int).push(cs[i as int]) =~= cs.subrange(1, i + 1));
        }
        out = out.join(c[i].as_slice());
        i += 1;
    }
    assert(cs.subrange(1, cs.len() as int) =~= cs.skip(1));
    out
}

/// Whether `rel` is `prefix` or lies below it.
pub fn has_prefix(rel: &FsPath, prefix: &FsPath) -> (r: bool)
    ensures
        r == within(rel@, prefix@),
{
    rel.same(prefix) || rel.starts_with(prefix)
}

/// The name, where `name` is written as a single entry name, without any separator.
pub open spec fn single_name(name: Seq<u8>) -> Option<Seq<u8>> {
    if !name.contains(SLASH) && components(name).len() == 1 && is_normal(components(name)[0]) {
        Some(components(name)[0])
    } else {
        None
    }
}

fn holds_byte(s: &[u8], x: u8) -> (r: bool)
    ensures
        r == s@.contains(x),
{
    let mut i: usize = 0;
    while i < s.len()
        invariant
            i <= s.len(),
            forall|j: int| 0 <= j < i ==> s@[j] != x,
        decreases s.len() - i,
    {
        if s[i] == x {
            assert(s@.contains(s@[i as int]));
            return true;
        }
        i += 1;
    }
    false
}

/// The entry name that `name` is written as, where it is a single one.
pub fn single_component(name: &[u8]) -> (r: Option<Vec<u8>>)
    ensures
        r is Some <==> single_name(name@) is Some,
        r matches Some(n) ==> Some(n@) == single_name(name@),
{
    if holds_byte(name, SLASH) {
        return None;
    }
    let p = FsPath { bytes: copy_range(name, 0, name.len()) };
    assert(p@ =~= name@);
    let mut c = p.components();
    let ghost cs = views(c@);
    assert(cs.len() == c@.len());
    if c.len() != 1 {
        return None;
    }
    assert(cs[0] == c@[0]@);
    if is_normal_name(c[0].as_slice()) {
        c.pop()
    } else {
        None
    }
}

/// The path with text put behind its last component.
pub open spec fn appended(s: Seq<u8>, ext: Seq<u8>) -> Seq<u8> {
    trimmed(s) + ext
}

impl FsPath {
    /// The directory that holds the entry, or the one that many levels further up.
    pub fn ancestor(&self, k: usize) -> (r: FsPath)
        ensures
            r@ == ancestor(self@, (k + 1) as nat),
    {
        let mut p = self.clone();
        let mut left: usize = k;
        loop
            invariant
                left <= k,
                ancestor(self@, (k + 1) as nat) == ancestor(p@, (left + 1) as nat),
            decreases left,
        {
            match p.parent() {
                None => {
                    return p;
                },
                Some(q) => {
                    p = q;
                },
            }
            if left == 0 {
                assert(ancestor(p@, 0) == p@);
                return p;
            }
            left -= 1;
        }
    }

    /// The path with text put behind its last component.
    pub fn appended(&self, ext: &[u8]) -> (r: FsPath)
        ensures
            r@ == appended(self@, ext@),
    {
        let s = self.bytes.as_slice();
        assert(s@.take(s@.len() as int) =~= s@);
        let n = trim_end(s, s.len());
        let mut bytes = copy_range(s, 0, n);
        assert(bytes@ =~= trimmed(s@));
        append_bytes(&mut bytes, ext);
        FsPath { bytes }
    }
}

proof fn lemma_last_start_appended(t: Seq<u8>, ext: Seq<u8>)
    requires
        !ext.contains(SLASH),
    ensures
        last_start(t + ext) == last_start(t),
    decreases ext.len(),
{
    if ext.len() == 0 {
        assert(t + ext =~= t);
    } else {
        assert(ext.contains(ext.last()));
        assert((t + ext).drop_last() =~= t + ext.drop_last());
        assert forall|x: u8| ext.drop_last().contains(x) implies ext.contains(x) by {
            let i = choose|i: int| 0 <= i < ext.drop_last().len() && ext.drop_last()[i] == x;
            assert(ext[i] == x);
        }
        lemma_last_start_appended(t, ext.drop_last());
    }
}

/// A path with text put behind it is as deep as it was, or one deeper where it had no
/// component to put it behind, and its last component ends in that text.
pub proof fn lemma_appended(s: Seq<u8>, ext: Seq<u8>)
    requires
        ext.len() > 1,
        !ext.contains(SLASH),
        ext.last() != DOT,
    ensures
        ({
            let c = components(s);
            let e = components(appended(s, ext));
            ||| trimmed(s).len() == 0 && c.len() == 0 && e == seq![ext]
            ||| trimmed(s) == seq![SLASH] && c == seq![seq![SLASH]] && e == c.push(ext)
            ||| trimmed(s).len() > 0 && trimmed(s) != seq![SLASH] && c.len() > 0 && e
                == c.drop_last().push(c.last() + ext)
        }),
{
    let t = trimmed(s);
    lemma_trimmed(s);
    lemma_last_start(t);
    let u = t + ext;
    assert(u.last() == ext.last());
    assert(ext.contains(ext.last()));
    assert(trimmed(u) == u);
    lemma_last_start_appended(t, ext);
    let k = last_start(t);
    assert(u != seq![SLASH]);
    assert(u.take(k) =~= t.take(k));
    assert(u.skip(k) =~= t.skip(k) + ext);
    assert(components(u) == components(t.take(k)).push(t.skip(k) + ext));
    if t.len() == 0 {
        assert(t.take(0) =~= t);
        assert(components(t) == Seq::<Seq<u8>>::empty());
        assert(t.skip(0) + ext =~= ext);
        assert(components(u) =~= seq![ext]);
        assert(components(s) =~= Seq::<Seq<u8>>::empty());
    } else if t == seq![SLASH] {
        assert(k == 1);
        assert(t.take(1) =~= t);
        assert(t.skip(1) + ext =~= ext);
        assert(components(t) =~= seq![seq![SLASH]]);
        assert(components(u) =~= components(t).push(ext));
        assert(components(s) =~= seq![seq![SLASH]]);
    } else {
        assert(components(s) == components(t.take(k)).push(t.skip(k)));
        assert(components(s).drop_last() =~= components(t.take(k)));
    }
}

/// The directories above a relative path are those that its leading components name.
pub proof fn lemma_ancestor(s: Seq<u8>, n: nat)
    requires
        !is_absolute(s),
        n <= components(s).len(),
    ensures
        components(ancestor(s, n)) == components(s).take(components(s).len() - n),
    decreases n,
{
    let c = components(s);
    assert(c.take(c.len() as int) =~= c);
    if n > 0 {
        lemma_parent(s);
        lemma_component_shape(s, c.len() - 1);
        if c.last() == seq![SLASH] {
            lemma_first_component(s);
        }
        let p = parent(s)->0;
        lemma_trimmed(s);
        lemma_trimmed(trimmed(s).take(last_start(trimmed(s))));
        let x = trimmed(s).take(last_start(trimmed(s)));
        lemma_last_start(trimmed(s));
        if p.len() > 0 {
            assert(p[0] == x[0] && x[0] == trimmed(s)[0] && trimmed(s)[0] == s[0]);
        }
        assert(!is_absolute(p));
        lemma_ancestor(p, (n - 1) as nat);
        assert(c.drop_last().take(c.len() - n) =~= c.take(c.len() - n));
    }
}

/// Different texts put behind a path lead to different paths, and to others than the path
/// itself.
pub proof fn lemma_appended_differ(s: Seq<u8>, a: Seq<u8>, b: Seq<u8>)
    requires
        a.len() > 1 && !a.contains(SLASH) && a.last() != DOT,
        b.len() > 1 && !b.contains(SLASH) && b.last() != DOT,
        a.len() != b.len(),
    ensures
        components(appended(s, a)) != components(s),
        components(appended(s, b)) != components(s),
        components(appended(s, a)) != components(appended(s, b)),
{
    lemma_appended(s, a);
    lemma_appended(s, b);
    let c = components(s);
    let x = components(appended(s, a));
    let y = components(appended(s, b));
    assert(x.last().len() != y.last().len());
    if c.len() > 0 && c != seq![seq![SLASH]] {
        assert(x.last().len() != c.last().len());
    }
}

/// The number of leading byte strings on which `b` agrees with `a`.
fn agreement(a: &Vec<Vec<u8>>, b: &Vec<Vec<u8>>) -> (n: usize)
    requires
        a.len() <= b.len(),
    ensures
        n <= a.len(),
        forall|i: int| 0 <= i < n ==> (#[trigger] a@[i])@ == b@[i]@,
        n < a.len() ==> a@[n as int]@ != b@[n as int]@,
{
    let mut i: usize = 0;
    while i < a.len()
        invariant
            i <= a.len() <= b.len(),
            forall|j: int| 0 <= j < i ==> (#[trigger] a@[j])@ == b@[j]@,
        decreases a.len() - i,
    {
        if !bytes_eq(a[i].as_slice(), b[i].as_slice()) {
            return i;
        }
        i += 1;
    }
    i
}

/// Whether two lists hold the same byte strings.
pub fn same_list(a: &Vec<Vec<u8>>, b: &Vec<Vec<u8>>) -> (r: bool)
    ensures
        r == (views(a@) == views(b@)),
{
    assert(views(a@).len() == a@.len() && views(b@).len() == b@.len());
    if a.len() != b.len() {
        return false;
    }
    let n = agreement(a, b);
    proof {
        if n == a.len() {
            assert(views(a@) =~= views(b@));
        } else {
            assert(views(a@)[n as int] != views(b@)[n as int]);
        }
    }
    n == a.len()
}

/// Whether the list `a` begins with the byte strings of `b`.
pub fn list_starts_with(a: &Vec<Vec<u8>>, b: &Vec<Vec<u8>>) -> (r: bool)
    ensures
        r == views(b@).is_prefix_of(views(a@)),
{
    assert(views(a@).len() == a@.len() && views(b@).len() == b@.len());
    if a.len() < b.len() {
        return false;
    }
    let n = agreement(b, a);
    proof {
        if n == b.len() {
            assert(views(a@).subrange(0, b@.len() as int) =~= views(b@));
        } else {
            assert(views(a@)[n as int] != views(b@)[n as int]);
            assert(views(a@).subrange(0, b@.len() as int)[n as int] == views(a@)[n as int]);
        }
    }
    n == b.len()
}

/// Whether a component names an entry of a directory.
fn is_normal_name(c: &[u8]) -> (r: bool)
    ensures
        r == is_normal(c@),
{
    proof {
        if c@.len() == 1 {
            assert(c@ =~= seq![c@[0]]);
        }
        if c@.len() == 2 {
            assert(c@ =~= seq![c@[0], c@[1]]);
        }
        assert(seq![SLASH][0] == SLASH && seq![SLASH].len() == 1);
        assert(seq![DOT][0] == DOT && seq![DOT].len() == 1);
        assert(seq![DOT, DOT][0] == DOT && seq![DOT, DOT][1] == DOT && seq![DOT, DOT].len() == 2);
    }
    if c.len() == 1 {
        c[0] != SLASH && c[0] != DOT
    } else if c.len() == 2 {
        c[0] != DOT || c[1] != DOT
    } else {
        true
    }
}

/// A name is that of a single entry exactly if it is a non-empty run of bytes without a
/// separator, and neither `.` nor `..`; it is then taken as it is.
pub proof fn law_single_name(name: Seq<u8>)
    ensures
        is_segment(name) && is_normal(name) ==> single_name(name) == Some(name),
        !(is_segment(name) && is_normal(name)) ==> single_name(name) is None,
{
    if is_segment(name) {
        lemma_join_segment(Seq::empty(), name);
        assert(join(Seq::empty(), name) =~= name) by {
            assert(name.contains(name[0]));
        }
        assert(components(Seq::<u8>::empty()) =~= Seq::empty());
        assert(components(name) =~= seq![name]);
    } else if name == seq![DOT] {
        assert(trimmed(name) == name);
        assert(last_start(name.drop_last()) == 0) by {
            assert(name.drop_last() =~= Seq::<u8>::empty());
        }
        assert(last_start(name) == 0);
        assert(name.take(0) =~= Seq::<u8>::empty());
        assert(name.skip(0) =~= name);
        assert(components(Seq::<u8>::empty()) =~= Seq::empty());
        assert(components(name) =~= seq![name]);
    }
}

/// A path lies at or below another exactly if the components of that are its first ones; so
/// an entry of a directory lies below it, and a name that merely starts in the same way does
/// not make it so.
pub proof fn law_within(rel: Seq<u8>, prefix: Seq<u8>, name: Seq<u8>)
    ensures
        within(rel, prefix) <==> components(prefix).len() <= components(rel).len() && forall|i: int|
            0 <= i < components(prefix).len() ==> #[trigger] components(rel)[i] == components(
                prefix,
            )[i],
        within(rel, rel),
        is_segment(name) ==> within(join(rel, name), rel),
        is_segment(name) ==> !within(rel, join(rel, name)),
{
    let a = components(rel);
    let b = components(prefix);
    if b.len() <= a.len() && (forall|i: int| 0 <= i < b.len() ==> #[trigger] a[i] == b[i]) {
        assert(a.subrange(0, b.len() as int) =~= b);
    }
    if b.is_prefix_of(a) {
        assert forall|i: int| 0 <= i < b.len() implies #[trigger] a[i] == b[i] by {
            assert(a.subrange(0, b.len() as int)[i] == a[i]);
        }
    }
    assert(a.subrange(0, a.len() as int) =~= a);
    if is_segment(name) {
        lemma_join_segment(rel, name);
        assert(a.push(name).subrange(0, a.len() as int) =~= a);
    }
}

/// What the components of a path are: none of the empty path, one of the root and of `.`; a
/// separator and a `.` at the end of a path do not count; and the entry of a directory has
/// those of the directory, then its name. Every path is put together in this way.
pub proof fn law_components(dir: Seq<u8>, name: Seq<u8>)
    ensures
        components(Seq::empty()) == Seq::<Seq<u8>>::empty(),
        components(seq![SLASH]) == seq![seq![SLASH]],
        components(seq![DOT]) == seq![seq![DOT]],
        dir.len() > 0 ==> components(dir.push(SLASH)) == components(dir),
        dir.len() > 0 ==> components(dir.push(SLASH).push(DOT)) == components(dir),
        is_segment(name) ==> components(join(dir, name)) == components(dir).push(name),
        is_segment(name) ==> parent(join(dir, name)) is Some && components(
            parent(join(dir, name))->0,
        ) == components(dir),
        is_segment(name) && is_normal(name) ==> file_name(join(dir, name)) == Some(name),
        parent(Seq::empty()) is None && parent(seq![SLASH]) is None,
        file_name(Seq::empty()) is None && file_name(seq![SLASH]) is None,
        file_name(seq![DOT]) is None && file_name(join(dir, seq![DOT, DOT])) is None,
{
    let none = Seq::<u8>::empty();
    assert(components(none) =~= Seq::<Seq<u8>>::empty());
    assert(trimmed(seq![SLASH]) == seq![SLASH]);
    assert(components(seq![SLASH]) =~= seq![seq![SLASH]]);
    let dot = seq![DOT];
    assert(trimmed(dot) == dot);
    assert(last_start(dot.drop_last()) == 0) by {
        assert(dot.drop_last() =~= none);
    }
    assert(dot.take(0) =~= none);
    assert(dot.skip(0) =~= dot);
    assert(dot != seq![SLASH]) by {
        assert(dot[0] != seq![SLASH][0]);
    }
    assert(components(dot) =~= seq![dot]);
    if dir.len() > 0 {
        lemma_components_push_slash(dir);
        let t = dir.push(SLASH).push(DOT);
        assert(t.drop_last() =~= dir.push(SLASH));
        assert(t.last() == DOT && t[t.len() - 2] == SLASH);
        assert(trimmed(t) == trimmed(dir.push(SLASH)));
    }
    if is_segment(name) {
        lemma_join_segment(dir, name);
        lemma_parent(join(dir, name));
        if name == seq![SLASH] {
            assert(name.contains(name[0]));
        }
        assert(components(dir).push(name).drop_last() =~= components(dir));
    }
    lemma_parent(none);
    lemma_parent(seq![SLASH]);
    let up = seq![DOT, DOT];
    assert(is_segment(up)) by {
        assert(up.len() == 2);
        assert(!up.contains(SLASH));
    }
    lemma_join_segment(dir, up);
}

/// A path taken relative to a directory: an absolute one stands for itself, and one taken
/// relative to nothing is as it is.
pub proof fn law_join(dir: Seq<u8>, path: Seq<u8>)
    ensures
        is_absolute(path) ==> join(dir, path) == path,
        join(Seq::empty(), path) == path,
        !is_absolute(path) ==> dir.is_prefix_of(join(dir, path)) && path.is_suffix_of(
            join(dir, path),
        ),
        !is_absolute(path) && dir.len() > 0 ==> join(dir, path)[join(dir, path).len() - path.len()
            - 1] == SLASH,
{
    let j = join(dir, path);
    assert(Seq::<u8>::empty() + path =~= path);
    if !is_absolute(path) {
        assert(j.subrange(0, dir.len() as int) =~= dir);
        assert(j.subrange(j.len() - path.len(), j.len() as int) =~= path);
    }
}

/// Taken relative to the root, a path loses its root and nothing else.
pub proof fn law_below_root(c: Seq<Seq<u8>>)
    ensures
        below_root(seq![seq![SLASH]] + c) == c,
        c.len() == 0 || c[0] != seq![SLASH] ==> below_root(c) == c,
{
    assert((seq![seq![SLASH]] + c).skip(1) =~= c);
}

} // verus!
