//! The directories that an overlay is made of.

use crate::path::{append_bytes, FsPath};
use crate::text::{text_bytes, to_lossy, write_digits};
use vstd::prelude::*;

verus! {

/// The byte `_`.
pub const UNDERSCORE: u8 = 95;

/// The directories that an overlay is made of.
pub struct OverlayFiles {
    /// The read-only base layer.
    pub lower: FsPath,
    /// The layer where changes are stored.
    pub upper: FsPath,
    /// Where the merged view is mounted.
    pub mount_point: FsPath,
}

impl Clone for OverlayFiles {
    fn clone(&self) -> (r: OverlayFiles)
        ensures
            r.lower@ == self.lower@,
            r.upper@ == self.upper@,
            r.mount_point@ == self.mount_point@,
    {
        OverlayFiles {
            lower: self.lower.clone(),
            upper: self.upper.clone(),
            mount_point: self.mount_point.clone(),
        }
    }
}

impl OverlayFiles {
    /// The name of the lower directory, as text; empty where it has none.
    pub open spec fn base_name(lower: Seq<u8>) -> Seq<u8> {
        match crate::path::file_name(lower) {
            Some(n) => crate::text::lossy(n),
            None => crate::text::lossy(Seq::empty()),
        }
    }

    /// The default upper directory: a sibling of the lower one.
    pub open spec fn default_upper(lower: Seq<u8>) -> Seq<u8> {
        let dir = match crate::path::parent(lower) {
            Some(p) => p,
            None => vstd::utf8::encode_utf8("."@),
        };
        crate::path::join(dir, Self::base_name(lower) + vstd::utf8::encode_utf8("_upper"@))
    }

    /// The microseconds within the second of a time given in nanoseconds.
    pub open spec fn subsec_micros(nanos: int) -> int {
        (nanos / 1000) % 1000000
    }

    /// The session number of a process at a given time.
    pub open spec fn session_id(pid: u32, nanos: int) -> u32 {
        pid ^ (Self::subsec_micros(nanos) as u32)
    }

    /// The name of the mount point: it tells the lower directory, the session and the time.
    pub open spec fn mount_name(lower: Seq<u8>, pid: u32, nanos: int) -> Seq<u8> {
        vstd::utf8::encode_utf8("mount_"@) + Self::base_name(lower) + seq![UNDERSCORE]
            + crate::text::digits(Self::session_id(pid, nanos) as int, 16) + seq![UNDERSCORE]
            + crate::text::digits(nanos, 10)
    }

    /// The paths of an overlay over `lower`, made by the process `pid` at `nanos`
    /// nanoseconds since the epoch, with its mount point in the directory `temp_dir`.
    pub fn new(lower: FsPath, pid: u32, nanos: u128, temp_dir: &FsPath) -> (r: OverlayFiles)
        ensures
            r.lower@ == lower@,
            r.upper@ == Self::default_upper(lower@),
            r.mount_point@ == crate::path::join(
                temp_dir@,
                Self::mount_name(lower@, pid, nanos as int),
            ),
    {
        let raw_name = match lower.file_name() {
            Some(n) => n,
            None => {
                let e: Vec<u8> = Vec::new();
                assert(e@ =~= Seq::<u8>::empty());
                e
            },
        };
        let name = to_lossy(raw_name.as_slice());
        let dir = match lower.parent() {
            Some(p) => p,
            None => FsPath::from_text("."),
        };
        let mut upper_name: Vec<u8> = Vec::new();
        append_bytes(&mut upper_name, name.as_slice());
        append_bytes(&mut upper_name, text_bytes("_upper").as_slice());
        assert(upper_name@ =~= Self::base_name(lower@) + vstd::utf8::encode_utf8("_upper"@));

        let micros: u32 = ((nanos / 1000) % 1000000) as u32;
        let session: u32 = pid ^ micros;
        let mut mount: Vec<u8> = text_bytes("mount_");
        append_bytes(&mut mount, name.as_slice());
        mount.push(UNDERSCORE);
        append_bytes(&mut mount, write_digits(session as u128, 16).as_slice());
        mount.push(UNDERSCORE);
        append_bytes(&mut mount, write_digits(nanos, 10).as_slice());
        assert(mount@ =~= Self::mount_name(lower@, pid, nanos as int));

        let upper = dir.join(upper_name.as_slice());
        let mount_point = temp_dir.join(mount.as_slice());
        OverlayFiles { lower, upper, mount_point }
    }

    /// The cache directory of the user: the one set for caches, else the one in the home
    /// directory.
    pub open spec fn cache_dir(cache: Option<Seq<u8>>, home: Option<Seq<u8>>) -> Option<Seq<u8>> {
        match (cache, home) {
            (Some(c), _) => Some(c),
            (None, Some(h)) => Some(crate::path::join(h, vstd::utf8::encode_utf8(".cache"@))),
            (None, None) => None,
        }
    }

    /// The mount point moved to the directory `dir`, under the name that it has.
    pub open spec fn moved(mount_point: Seq<u8>, dir: Seq<u8>) -> Seq<u8> {
        let name = match crate::path::file_name(mount_point) {
            Some(n) => n,
            None => Seq::empty(),
        };
        crate::path::join(dir, name)
    }

    /// Moves the mount point to the cache directory of the user and returns that
    /// directory. Where the user has none, the mount point stays where it is.
    pub fn mountpoint_as_home(&mut self, cache: Option<FsPath>, home: Option<FsPath>) -> (r: Option<
        FsPath,
    >)
        ensures
            final(self).lower@ == old(self).lower@,
            final(self).upper@ == old(self).upper@,
            ({
                let c = match cache {
                    Some(c) => Some(c@),
                    None => None,
                };
                let h = match home {
                    Some(h) => Some(h@),
                    None => None,
                };
                match Self::cache_dir(c, h) {
                    Some(dir) => {
                        &&& r matches Some(d)
                        &&& d@ == dir
                        &&& final(self).mount_point@ == Self::moved(old(self).mount_point@, dir)
                    },
                    None => r is None && final(self).mount_point@ == old(self).mount_point@,
                }
            }),
    {
        let dir = match cache {
            Some(c) => c,
            None => match home {
                Some(h) => h.join(text_bytes(".cache").as_slice()),
                None => {
                    return None;
                },
            },
        };
        let name = match self.mount_point.file_name() {
            Some(n) => n,
            None => {
                let e: Vec<u8> = Vec::new();
                assert(e@ =~= Seq::<u8>::empty());
                e
            },
        };
        self.mount_point = dir.join(name.as_slice());
        Some(dir)
    }
}

/// Digits contain no underscore.
proof fn lemma_digits_plain(n: int, base: int)
    requires
        0 <= n,
        2 <= base <= 16,
    ensures
        !crate::text::digits(n, base).contains(UNDERSCORE),
        crate::text::digits(n, base).len() > 0,
    decreases n,
{
    if n >= base {
        crate::text::lemma_shrinks(n, base);
        lemma_digits_plain(n / base, base);
        let rest = crate::text::digits(n / base, base);
        assert forall|i: int| 0 <= i < rest.len() + 1 implies #[trigger] rest.push(
            crate::text::digit(n % base),
        )[i] != UNDERSCORE by {
            if i < rest.len() {
                assert(rest.contains(rest[i]));
            }
        }
    }
}

proof fn lemma_digit_injective(x: int, y: int)
    requires
        0 <= x < 16,
        0 <= y < 16,
        crate::text::digit(x) == crate::text::digit(y),
    ensures
        x == y,
{
}

/// Different numbers are written differently.
proof fn lemma_digits_injective(a: int, b: int, base: int)
    requires
        0 <= a,
        0 <= b,
        2 <= base <= 16,
        crate::text::digits(a, base) == crate::text::digits(b, base),
    ensures
        a == b,
    decreases a,
{
    let da = crate::text::digits(a, base);
    let db = crate::text::digits(b, base);
    if a >= base {
        crate::text::lemma_shrinks(a, base);
        lemma_digits_plain(a / base, base);
    }
    if b >= base {
        crate::text::lemma_shrinks(b, base);
        lemma_digits_plain(b / base, base);
    }
    assert(da.last() == db.last());
    if a < base && b < base {
        lemma_digit_injective(a, b);
    }
    if a >= base && b >= base {
        assert(da.last() == crate::text::digit(a % base));
        assert(db.last() == crate::text::digit(b % base));
        lemma_digit_injective(a % base, b % base);
        assert(da.drop_last() =~= crate::text::digits(a / base, base));
        assert(db.drop_last() =~= crate::text::digits(b / base, base));
        lemma_digits_injective(a / base, b / base, base);
        assert(a % base == b % base);
        assert(a == b) by (nonlinear_arith)
            requires
                a / base == b / base,
                a % base == b % base,
                2 <= base,
        ;
    }
}

/// What follows the last underscore is determined by the whole.
proof fn lemma_last_part(a: Seq<u8>, d: Seq<u8>, b: Seq<u8>, e: Seq<u8>)
    requires
        a + seq![UNDERSCORE] + d == b + seq![UNDERSCORE] + e,
        !d.contains(UNDERSCORE),
        !e.contains(UNDERSCORE),
    ensures
        a == b,
        d == e,
{
    let x = a + seq![UNDERSCORE] + d;
    let y = b + seq![UNDERSCORE] + e;
    assert(x.len() == a.len() + 1 + d.len());
    assert(y.len() == b.len() + 1 + e.len());
    if d.len() < e.len() {
        assert(y[a.len() as int] == UNDERSCORE) by {
            assert(x[a.len() as int] == UNDERSCORE);
        }
        assert(y[a.len() as int] == e[a.len() - b.len() - 1]);
        assert(e.contains(e[a.len() - b.len() - 1]));
    }
    if e.len() < d.len() {
        assert(x[b.len() as int] == UNDERSCORE) by {
            assert(y[b.len() as int] == UNDERSCORE);
        }
        assert(x[b.len() as int] == d[b.len() - a.len() - 1]);
        assert(d.contains(d[b.len() - a.len() - 1]));
    }
    assert forall|i: int| 0 <= i < d.len() implies d[i] == e[i] by {
        assert(x[a.len() + 1 + i] == d[i]);
        assert(y[b.len() + 1 + i] == e[i]);
    }
    assert(d =~= e);
    assert forall|i: int| 0 <= i < a.len() implies a[i] == b[i] by {
        assert(x[i] == a[i]);
        assert(y[i] == b[i]);
    }
    assert(a =~= b);
}

/// Mount points do not collide: two overlays made by different processes or at different
/// times have different mount point names.
pub proof fn law_mount_names_distinct(
    lower1: Seq<u8>,
    pid1: u32,
    nanos1: u128,
    lower2: Seq<u8>,
    pid2: u32,
    nanos2: u128,
)
    requires
        pid1 != pid2 || nanos1 != nanos2,
    ensures
        OverlayFiles::mount_name(lower1, pid1, nanos1 as int) != OverlayFiles::mount_name(
            lower2,
            pid2,
            nanos2 as int,
        ),
{
    let m1 = OverlayFiles::mount_name(lower1, pid1, nanos1 as int);
    let m2 = OverlayFiles::mount_name(lower2, pid2, nanos2 as int);
    if m1 == m2 {
        let s1 = OverlayFiles::session_id(pid1, nanos1 as int);
        let s2 = OverlayFiles::session_id(pid2, nanos2 as int);
        let t1 = crate::text::digits(nanos1 as int, 10);
        let t2 = crate::text::digits(nanos2 as int, 10);
        let h1 = crate::text::digits(s1 as int, 16);
        let h2 = crate::text::digits(s2 as int, 16);
        let b1 = vstd::utf8::encode_utf8("mount_"@) + OverlayFiles::base_name(lower1);
        let b2 = vstd::utf8::encode_utf8("mount_"@) + OverlayFiles::base_name(lower2);
        lemma_digits_plain(nanos1 as int, 10);
        lemma_digits_plain(nanos2 as int, 10);
        lemma_digits_plain(s1 as int, 16);
        lemma_digits_plain(s2 as int, 16);
        lemma_last_part(b1 + seq![UNDERSCORE] + h1, t1, b2 + seq![UNDERSCORE] + h2, t2);
        lemma_digits_injective(nanos1 as int, nanos2 as int, 10);
        lemma_last_part(b1, h1, b2, h2);
        lemma_digits_injective(s1 as int, s2 as int, 16);
        let m = OverlayFiles::subsec_micros(nanos1 as int) as u32;
        assert(pid1 == pid2) by (bit_vector)
            requires
                pid1 ^ m == pid2 ^ m,
        ;
    }
}

/// Moving the mount point to another directory keeps its name, so that what was distinct
/// stays distinct.
pub proof fn law_moved_keeps_name(mount_point: Seq<u8>, dir: Seq<u8>)
    requires
        crate::path::file_name(mount_point) is Some,
    ensures
        crate::path::file_name(OverlayFiles::moved(mount_point, dir)) == crate::path::file_name(
            mount_point,
        ),
{
    let c = crate::path::components(mount_point);
    crate::path::lemma_component_shape(mount_point, c.len() - 1);
    crate::path::lemma_join_segment(dir, c.last());
}

proof fn lemma_suffixes()
    ensures
        vstd::utf8::encode_utf8("_upper"@) == seq![95u8, 117, 112, 112, 101, 114],
        vstd::utf8::encode_utf8(".cache"@) == seq![46u8, 99, 97, 99, 104, 101],
{
    reveal_strlit("_upper");
    reveal_strlit(".cache");
    vstd::utf8::is_ascii_chars_encode_utf8("_upper"@);
    vstd::utf8::is_ascii_chars_encode_utf8(".cache"@);
    assert("_upper"@[0] == '_' && "_upper"@[1] == 'u' && "_upper"@[2] == 'p' && "_upper"@[3] == 'p'
        && "_upper"@[4] == 'e' && "_upper"@[5] == 'r');
    assert(".cache"@[0] == '.' && ".cache"@[1] == 'c' && ".cache"@[2] == 'a' && ".cache"@[3] == 'c'
        && ".cache"@[4] == 'h' && ".cache"@[5] == 'e');
    assert(vstd::utf8::encode_utf8("_upper"@) =~= seq![95u8, 117, 112, 112, 101, 114]);
    assert(vstd::utf8::encode_utf8(".cache"@) =~= seq![46u8, 99, 97, 99, 104, 101]);
}

/// The default upper directory lies beside the lower one, under its name with `_upper`
/// behind it; so it is neither the lower directory nor in it.
pub proof fn law_upper_is_sibling(lower: Seq<u8>, name: Seq<u8>)
    requires
        crate::path::file_name(lower) == Some(name),
        !crate::text::lossy(name).contains(crate::path::SLASH),
    ensures
        crate::path::components(OverlayFiles::default_upper(lower)) == crate::path::components(
            lower,
        ).drop_last().push(crate::text::lossy(name) + seq![95u8, 117, 112, 112, 101, 114]),
        crate::text::lossy(name) == name ==> !crate::path::within(
            OverlayFiles::default_upper(lower),
            lower,
        ),
{
    lemma_suffixes();
    crate::path::lemma_parent(lower);
    let text = crate::text::lossy(name);
    let tail = seq![95u8, 117, 112, 112, 101, 114];
    let n = text + tail;
    assert(!n.contains(crate::path::SLASH)) by {
        if n.contains(crate::path::SLASH) {
            let i = choose|i: int| 0 <= i < n.len() && n[i] == crate::path::SLASH;
            if i < text.len() {
                assert(text[i] == crate::path::SLASH);
            } else {
                assert(n[i] == tail[i - text.len()]);
            }
        }
    }
    assert(n.len() > 1 && seq![crate::path::DOT].len() == 1);
    crate::path::lemma_join_segment(crate::path::parent(lower)->0, n);
    let c = crate::path::components(lower);
    let u = c.drop_last().push(n);
    if text == name && c.is_prefix_of(u) {
        assert(u.subrange(0, c.len() as int)[c.len() - 1] == n);
        assert(c.last().len() < n.len());
    }
}

/// The cache directory of the user is the one set for caches, whatever the home directory
/// is; without one it is `.cache` in the home directory; without either there is none.
pub proof fn law_cache_dir(cache: Seq<u8>, home: Seq<u8>, any: Option<Seq<u8>>)
    ensures
        OverlayFiles::cache_dir(Some(cache), any) == Some(cache),
        OverlayFiles::cache_dir(None, Some(home)) matches Some(dir) && crate::path::components(dir)
            == crate::path::components(home).push(seq![46u8, 99, 97, 99, 104, 101]),
        OverlayFiles::cache_dir(None, None) is None,
{
    lemma_suffixes();
    let n = seq![46u8, 99, 97, 99, 104, 101];
    assert(!n.contains(crate::path::SLASH));
    crate::path::lemma_join_segment(home, n);
}

/// A moved mount point lies in the directory that it was moved to, under its name.
pub proof fn law_moved_into(mount_point: Seq<u8>, dir: Seq<u8>)
    requires
        crate::path::file_name(mount_point) is Some,
    ensures
        crate::path::components(OverlayFiles::moved(mount_point, dir)) == crate::path::components(
            dir,
        ).push(crate::path::file_name(mount_point)->0),
{
    let c = crate::path::components(mount_point);
    crate::path::lemma_component_shape(mount_point, c.len() - 1);
    crate::path::lemma_join_segment(dir, c.last());
}

/// The session number of a process tells the microseconds of the second in which it was
/// made, whatever the seconds and the nanoseconds are.
pub proof fn law_session_tells_micros(pid: u32, seconds: int, micros: u32, rest: int)
    requires
        0 <= seconds,
        micros < 1000000,
        0 <= rest < 1000,
    ensures
        OverlayFiles::session_id(pid, (seconds * 1000000 + micros) * 1000 + rest) ^ pid == micros,
{
    let nanos = (seconds * 1000000 + micros) * 1000 + rest;
    assert(nanos / 1000 == seconds * 1000000 + micros);
    assert(OverlayFiles::subsec_micros(nanos) == micros);
    let m: u32 = micros;
    assert((pid ^ m) ^ pid == m) by (bit_vector);
}

/// The name of a mount point starts with `mount_` and the name of the lower directory, and
/// ends with the time in nanoseconds, after the session number.
pub proof fn law_mount_name_tells(lower: Seq<u8>, name: Seq<u8>, pid: u32, nanos: int)
    requires
        crate::path::file_name(lower) == Some(name),
        0 <= nanos,
    ensures
        ({
            let all = OverlayFiles::mount_name(lower, pid, nanos);
            let head = seq![109u8, 111, 117, 110, 116, 95] + crate::text::lossy(name);
            let time = crate::text::digits(nanos, 10);
            &&& head.push(UNDERSCORE).is_prefix_of(all)
            &&& time.is_suffix_of(all)
            &&& exists|session: Seq<u8>|
                #![trigger head + seq![UNDERSCORE] + session]
                all == head + seq![UNDERSCORE] + session + seq![UNDERSCORE] + time && session.len()
                    > 0 && !session.contains(UNDERSCORE)
        }),
{
    reveal_strlit("mount_");
    vstd::utf8::is_ascii_chars_encode_utf8("mount_"@);
    assert("mount_"@[0] == 'm' && "mount_"@[1] == 'o' && "mount_"@[2] == 'u' && "mount_"@[3] == 'n'
        && "mount_"@[4] == 't' && "mount_"@[5] == '_');
    assert(vstd::utf8::encode_utf8("mount_"@) =~= seq![109u8, 111, 117, 110, 116, 95]);
    let all = OverlayFiles::mount_name(lower, pid, nanos);
    let head = seq![109u8, 111, 117, 110, 116, 95] + crate::text::lossy(name);
    let s = crate::text::digits(OverlayFiles::session_id(pid, nanos) as int, 16);
    let time = crate::text::digits(nanos, 10);
    lemma_digits_plain(OverlayFiles::session_id(pid, nanos) as int, 16);
    assert(all == head + seq![UNDERSCORE] + s + seq![UNDERSCORE] + time);
    assert(all.subrange(0, (head.len() + 1) as int) =~= head.push(UNDERSCORE));
    assert(all.subrange(all.len() - time.len(), all.len() as int) =~= time);
}

} // verus!
