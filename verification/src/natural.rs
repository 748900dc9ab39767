//! Natural numbers of unbounded size, the payload of unary values.
//!
//! The digits are kept as plain data (little-endian base 2^32); every
//! arithmetic operation is carried out by `num_bigint::BigUint`.

use num_bigint::BigUint;
use num_traits::ToPrimitive;
use vstd::prelude::*;
use crate::text::decimal_chars;

verus! {

/// The number that little-endian base 2^32 digits stand for.
pub open spec fn digits_value(ds: Seq<u32>) -> nat
    decreases ds.len(),
{
    if ds.len() == 0 {
        0
    } else {
        ds[0] as nat + 0x1_0000_0000 * digits_value(ds.subrange(1, ds.len() as int))
    }
}

/// All bytes are ASCII decimal digits, and there is at least one.
pub open spec fn is_decimal_digits(buf: Seq<u8>) -> bool {
    buf.len() > 0 && forall|i: int| 0 <= i < buf.len() ==> 48 <= #[trigger] buf[i] <= 57
}

/// The number that a string of ASCII decimal digits spells.
pub open spec fn decimal_digits_value(buf: Seq<u8>) -> nat
    decreases buf.len(),
{
    if buf.len() == 0 {
        0
    } else {
        10 * decimal_digits_value(buf.drop_last()) + (buf.last() - 48) as nat
    }
}

/// Every byte is an ASCII decimal digit or `_`.
pub open spec fn digits_or_underscores(s: Seq<u8>) -> bool {
    forall|i: int| 0 <= i < s.len() ==> (48 <= #[trigger] s[i] <= 57 || s[i] == 95)
}

/// The bytes of `s` other than `_`, in order.
pub open spec fn skip_underscores(s: Seq<u8>) -> Seq<u8> {
    s.filter(|b: u8| b != 95)
}

/// Bytes with no `_` among them are kept as they are.
proof fn lemma_skip_none(s: Seq<u8>)
    requires
        forall|i: int| 0 <= i < s.len() ==> #[trigger] s[i] != 95,
    ensures
        skip_underscores(s) == s,
    decreases s.len(),
{
    reveal(Seq::filter);
    if s.len() > 0 {
        lemma_skip_none(s.drop_last());
        assert(s.drop_last().push(s.last()) =~= s);
    }
}

/// A non-empty run of ASCII decimal digits reads as the number it spells.
pub proof fn lemma_decimal_parse_digits(buf: Seq<u8>)
    requires
        is_decimal_digits(buf),
    ensures
        decimal_parse(buf) == Some(decimal_digits_value(buf)),
{
    assert(48 <= buf[0] <= 57);
    assert(without_plus(buf) == buf);
    lemma_skip_none(buf);
}

/// The bytes after one leading `+`, where the next byte is not `+` too.
pub open spec fn without_plus(buf: Seq<u8>) -> Seq<u8> {
    if buf.len() > 0 && buf[0] == 43 && !(buf.len() > 1 && buf[1] == 43) {
        buf.subrange(1, buf.len() as int)
    } else {
        buf
    }
}

/// The number that decimal text `buf` spells, as `BigUint::parse_bytes(buf,
/// 10)` reads it: one leading `+` is dropped, then there must be at least
/// one byte, the first not `_`, each an ASCII digit or `_`; the `_` are
/// skipped.
pub open spec fn decimal_parse(buf: Seq<u8>) -> Option<nat> {
    let s = without_plus(buf);
    if s.len() > 0 && s[0] != 95 && digits_or_underscores(s) {
        Some(decimal_digits_value(skip_underscores(s)))
    } else {
        None
    }
}

/// A natural number of any size.
pub struct Natural {
    digits: Vec<u32>,
}

impl View for Natural {
    type V = nat;

    closed spec fn view(&self) -> nat {
        digits_value(self.digits@)
    }
}

impl Clone for Natural {
    fn clone(&self) -> (res: Self)
        ensures
            res@ == self@,
    {
        let digits = self.digits.clone();
        assert(digits@ =~= self.digits@);
        Natural { digits }
    }
}

/// `BigUint::from(u64)`, read back as digits: the number `v` itself.
#[verifier::external_body]
pub(crate) fn nat_from_u64(v: u64) -> (res: Natural)
    ensures
        res@ == v as nat,
{
    Natural { digits: BigUint::from(v).to_u32_digits() }
}

/// The sum `a + b` computed by `BigUint`'s addition.
#[verifier::external_body]
pub(crate) fn nat_add(a: &Natural, b: &Natural) -> (res: Natural)
    ensures
        res@ == a@ + b@,
{
    let s = BigUint::from_slice(&a.digits) + BigUint::from_slice(&b.digits);
    Natural { digits: s.to_u32_digits() }
}

/// The difference `a - b` computed by `BigUint`'s subtraction, which panics
/// when `b` exceeds `a`: that input is left out.
#[verifier::external_body]
pub(crate) fn nat_sub(a: &Natural, b: &Natural) -> (res: Natural)
    requires
        b@ <= a@,
    ensures
        res@ == a@ - b@,
{
    let s = BigUint::from_slice(&a.digits) - BigUint::from_slice(&b.digits);
    Natural { digits: s.to_u32_digits() }
}

/// `BigUint`'s `<`.
#[verifier::external_body]
pub(crate) fn nat_lt(a: &Natural, b: &Natural) -> (res: bool)
    ensures
        res == (a@ < b@),
{
    BigUint::from_slice(&a.digits) < BigUint::from_slice(&b.digits)
}

/// `BigUint`'s `==`.
#[verifier::external_body]
pub(crate) fn nat_eq(a: &Natural, b: &Natural) -> (res: bool)
    ensures
        res == (a@ == b@),
{
    BigUint::from_slice(&a.digits) == BigUint::from_slice(&b.digits)
}

/// `ToPrimitive::to_u32` on a `BigUint`: the number when it fits in a `u32`.
#[verifier::external_body]
pub(crate) fn nat_to_u32(a: &Natural) -> (res: Option<u32>)
    ensures
        a@ <= u32::MAX ==> res == Some(a@ as u32),
        a@ > u32::MAX ==> res is None,
{
    BigUint::from_slice(&a.digits).to_u32()
}

/// `ToPrimitive::to_i64` on a `BigUint`: the number when it fits in an `i64`.
#[verifier::external_body]
pub(crate) fn nat_to_i64(a: &Natural) -> (res: Option<i64>)
    ensures
        a@ <= i64::MAX ==> res == Some(a@ as i64),
        a@ > i64::MAX ==> res is None,
{
    BigUint::from_slice(&a.digits).to_i64()
}

impl Natural {
    /// The number as an `i64`, when it fits in one.
    pub fn to_i64(&self) -> (res: Option<i64>)
        ensures
            self@ <= i64::MAX ==> res == Some(self@ as i64),
            self@ > i64::MAX ==> res is None,
    {
        nat_to_i64(self)
    }
}

/// `BigUint::parse_bytes(buf, 10)`: the number that `decimal_parse` reads
/// in `buf`, `None` where it reads none. (Bytes that are not UTF-8 are not
/// digits, so they give `None` either way.)
#[verifier::external_body]
pub(crate) fn nat_parse_decimal(buf: &[u8]) -> (res: Option<Natural>)
    ensures
        res is Some <==> decimal_parse(buf@) is Some,
        res is Some ==> decimal_parse(buf@) == Some(res.unwrap()@),
{
    match BigUint::parse_bytes(buf, 10) {
        Some(b) => Some(Natural { digits: b.to_u32_digits() }),
        None => None,
    }
}

/// The `Display` form of a `BigUint`: its decimal digits.
#[verifier::external_body]
pub(crate) fn nat_to_decimal(a: &Natural) -> (res: Vec<char>)
    ensures
        res@ == decimal_chars(a@),
{
    BigUint::from_slice(&a.digits).to_string().chars().collect()
}

} // verus!
