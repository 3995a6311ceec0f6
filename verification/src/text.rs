//! Text made from the raw bytes of names, and numbers written out as text.

use crate::path::copy_range;
use vstd::prelude::*;

verus! {

/// The text that `String::from_utf8_lossy` makes of the given bytes.
pub uninterp spec fn lossy_text(bytes: Seq<u8>) -> Seq<char>;

/// Calls `String::from_utf8_lossy`: bytes that are valid UTF-8 are kept as they are, and
/// what is not is replaced by replacement characters.
#[verifier::external_body]
pub(crate) fn to_text_lossy(bytes: &[u8]) -> (r: String)
    ensures
        r@ == lossy_text(bytes@),
        vstd::utf8::valid_utf8(bytes@) ==> vstd::utf8::encode_utf8(r@) == bytes@,
{
    String::from_utf8_lossy(bytes).into_owned()
}

/// The bytes of the text made of a name.
pub open spec fn lossy(bytes: Seq<u8>) -> Seq<u8> {
    vstd::utf8::encode_utf8(lossy_text(bytes))
}

/// The bytes of the text made of a name.
pub fn to_lossy(bytes: &[u8]) -> (r: Vec<u8>)
    ensures
        r@ == lossy(bytes@),
        vstd::utf8::valid_utf8(bytes@) ==> r@ == bytes@,
{
    let text = to_text_lossy(bytes);
    text_bytes(text.as_str())
}

/// The bytes of a text.
pub fn text_bytes(text: &str) -> (r: Vec<u8>)
    ensures
        r@ == vstd::utf8::encode_utf8(text@),
{
    let b = text.as_bytes();
    let r = copy_range(b, 0, b.len());
    assert(r@ =~= b@);
    r
}

/// The character for one digit; from ten on, lower-case letters.
pub open spec fn digit(d: int) -> u8 {
    if d < 10 {
        (48 + d) as u8
    } else {
        (87 + d) as u8
    }
}

/// A number written out in the given base, without leading zeros.
pub open spec fn digits(n: int, base: int) -> Seq<u8>
    decreases n,
{
    if n < base || base < 2 {
        seq![digit(n)]
    } else {
        proof {
            lemma_shrinks(n, base);
        }
        digits(n / base, base).push(digit(n % base))
    }
}

pub proof fn lemma_shrinks(n: int, base: int)
    requires
        2 <= base <= n,
    ensures
        0 <= n / base < n,
        0 <= n % base < base,
{
    assert(0 <= n / base < n) by (nonlinear_arith)
        requires
            2 <= base <= n,
    ;
    assert(0 <= n % base < base) by (nonlinear_arith)
        requires
            2 <= base <= n,
    ;
}

/// Writes out a number in the given base.
pub fn write_digits(n: u128, base: u128) -> (r: Vec<u8>)
    requires
        2 <= base <= 16,
    ensures
        r@ == digits(n as int, base as int),
    decreases n,
{
    if n < base {
        let d: u8 = n as u8;
        let c: u8 = if d < 10 { 48 + d } else { 87 + d };
        let mut r: Vec<u8> = Vec::new();
        r.push(c);
        assert(r@ =~= seq![digit(n as int)]);
        r
    } else {
        proof {
            lemma_shrinks(n as int, base as int);
        }
        let mut r = write_digits(n / base, base);
        let d: u8 = (n % base) as u8;
        r.push(if d < 10 { 48 + d } else { 87 + d });
        r
    }
}

/// The value of one digit: `0` to `9`, then `a` to `f`.
pub open spec fn digit_value(c: u8) -> int {
    if 48 <= c <= 57 {
        c - 48
    } else {
        c - 97 + 10
    }
}

/// The number that digits stand for, the most significant one first.
pub open spec fn number(digits: Seq<u8>, base: int) -> int
    decreases digits.len(),
{
    if digits.len() == 0 {
        0
    } else {
        number(digits.drop_last(), base) * base + digit_value(digits.last())
    }
}

/// Written digits stand for the number that was written; they are digits of the base, in
/// lower case, and there are no more of them than needed.
pub proof fn law_digits(n: int, base: int)
    requires
        0 <= n,
        2 <= base <= 16,
    ensures
        number(digits(n, base), base) == n,
        forall|i: int|
            0 <= i < digits(n, base).len() ==> {
                let c = #[trigger] digits(n, base)[i];
                &&& 48 <= c <= 57 || 97 <= c <= 102
                &&& 0 <= digit_value(c) < base
            },
        digits(n, base).len() > 0,
        n > 0 ==> digits(n, base)[0] != 48,
    decreases n,
{
    reveal_with_fuel(number, 2);
    let all = digits(n, base);
    if n < base {
        assert(all.drop_last() =~= Seq::<u8>::empty());
    } else {
        lemma_shrinks(n, base);
        law_digits(n / base, base);
        let rest = digits(n / base, base);
        assert(all.drop_last() =~= rest);
        assert(0 <= n % base < base && (n / base) * base + n % base == n && n / base > 0)
            by (nonlinear_arith)
            requires
                2 <= base <= n,
        ;
        assert forall|i: int| 0 <= i < all.len() implies {
            let c = #[trigger] all[i];
            &&& 48 <= c <= 57 || 97 <= c <= 102
            &&& 0 <= digit_value(c) < base
        } by {
            if i < rest.len() {
                assert(all[i] == rest[i]);
            }
        }
        assert(all[0] == rest[0]);
    }
}

} // verus!
