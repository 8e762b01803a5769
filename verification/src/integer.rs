//! Integers of any size. The arithmetic is `num_bigint`'s; the library keeps a
//! number as its two's-complement bytes, which hold its value.
//!
//! Each of the functions below that calls into `num_bigint` reads its arguments
//! with `BigInt::from_signed_bytes_le` and writes its result with
//! `BigInt::to_signed_bytes_le`, which `signed_value` describes.

use crate::text::{signed_decimal, Order, int_order};
use num_bigint::BigInt;
use num_traits::{Signed, ToPrimitive, Zero};
use vstd::arithmetic::power::pow;
use vstd::prelude::*;

verus! {

/// An integer, as little-endian two's-complement bytes.
#[derive(Debug, PartialEq, Eq)]
pub struct Integer {
    pub bytes: Vec<u8>,
}

/// The value of little-endian two's-complement bytes; no bytes stand for zero.
pub open spec fn signed_value(bytes: Seq<u8>) -> int
    decreases bytes.len(),
{
    if bytes.len() == 0 {
        0
    } else if bytes.len() == 1 {
        if bytes[0] < 128 {
            bytes[0] as int
        } else {
            bytes[0] - 256
        }
    } else {
        bytes[0] + 256 * signed_value(bytes.drop_first())
    }
}

/// The quotient of a division that rounds towards zero.
pub open spec fn truncated_quotient(a: int, b: int) -> int {
    if a >= 0 && b > 0 {
        a / b
    } else if a >= 0 {
        -(a / (-b))
    } else if b > 0 {
        -((-a) / b)
    } else {
        (-a) / (-b)
    }
}

/// What such a division leaves over, with the sign of `a`.
pub open spec fn truncated_remainder(a: int, b: int) -> int {
    a - b * truncated_quotient(a, b)
}

/// Whether every character is a decimal digit.
pub open spec fn all_digits(text: Seq<char>) -> bool {
    forall|i: int| 0 <= i < text.len() ==> '0' <= #[trigger] text[i] <= '9'
}

/// The number that a run of decimal digits writes.
pub open spec fn digits_value(text: Seq<char>) -> nat
    decreases text.len(),
{
    if text.len() == 0 {
        0
    } else {
        digits_value(text.drop_last()) * 10 + (text.last() as nat - '0' as nat) as nat
    }
}

impl View for Integer {
    type V = int;

    open spec fn view(&self) -> int {
        signed_value(self.bytes@)
    }
}

impl Clone for Integer {
    fn clone(&self) -> (r: Self)
        ensures
            r@ == self@,
    {
        let bytes = self.bytes.clone();
        assert(bytes@ =~= self.bytes@);
        Integer { bytes }
    }
}

impl Integer {
    /// The integer of a machine integer.
    pub fn from_i64(n: i64) -> (r: Integer)
        ensures
            r@ == n,
    {
        from_i64(n)
    }

    /// The decimal text.
    pub fn to_text(&self) -> (r: String)
        ensures
            r@ == signed_decimal(self@),
    {
        to_text(self)
    }
}

/// `BigInt`'s `From<i64>`: the same number.
#[verifier::external_body]
fn from_i64(n: i64) -> (r: Integer)
    ensures
        r@ == n,
{
    Integer { bytes: BigInt::from(n).to_signed_bytes_le() }
}

/// `BigInt`'s `From<usize>`: the same number.
#[verifier::external_body]
pub(crate) fn from_usize(n: usize) -> (r: Integer)
    ensures
        r@ == n,
{
    Integer { bytes: BigInt::from(n).to_signed_bytes_le() }
}

/// `BigInt`'s `Display`: the decimal digits, behind a `-` where the number is
/// negative.
#[verifier::external_body]
fn to_text(n: &Integer) -> (r: String)
    ensures
        r@ == signed_decimal(n@),
{
    BigInt::from_signed_bytes_le(&n.bytes).to_string()
}

/// `BigInt`'s `FromStr`: a non-empty run of decimal digits is read as the number
/// that it writes.
#[verifier::external_body]
pub(crate) fn from_text(text: &str) -> (r: Option<Integer>)
    requires
        all_digits(text@),
        text@.len() > 0,
    ensures
        r is Some && r->0@ == digits_value(text@),
{
    match text.parse::<BigInt>() {
        Ok(n) => Some(Integer { bytes: n.to_signed_bytes_le() }),
        Err(_) => None,
    }
}

/// `BigInt`'s `+`: the sum.
#[verifier::external_body]
pub(crate) fn sum(a: &Integer, b: &Integer) -> (r: Integer)
    ensures
        r@ == a@ + b@,
{
    let s = BigInt::from_signed_bytes_le(&a.bytes) + BigInt::from_signed_bytes_le(&b.bytes);
    Integer { bytes: s.to_signed_bytes_le() }
}

/// `BigInt`'s `-`: the difference.
#[verifier::external_body]
pub(crate) fn difference(a: &Integer, b: &Integer) -> (r: Integer)
    ensures
        r@ == a@ - b@,
{
    let d = BigInt::from_signed_bytes_le(&a.bytes) - BigInt::from_signed_bytes_le(&b.bytes);
    Integer { bytes: d.to_signed_bytes_le() }
}

/// `BigInt`'s `*`: the product.
#[verifier::external_body]
pub(crate) fn product(a: &Integer, b: &Integer) -> (r: Integer)
    ensures
        r@ == a@ * b@,
{
    let p = BigInt::from_signed_bytes_le(&a.bytes) * BigInt::from_signed_bytes_le(&b.bytes);
    Integer { bytes: p.to_signed_bytes_le() }
}

/// `BigInt`'s unary `-`: the number with the other sign.
#[verifier::external_body]
pub(crate) fn negated(a: &Integer) -> (r: Integer)
    ensures
        r@ == -a@,
{
    Integer { bytes: (-BigInt::from_signed_bytes_le(&a.bytes)).to_signed_bytes_le() }
}

/// `num_integer::div_rem` on `BigInt`: quotient and remainder of the division
/// that rounds towards zero. It panics where the divisor is zero.
#[verifier::external_body]
pub(crate) fn div_rem(a: &Integer, b: &Integer) -> (r: (Integer, Integer))
    requires
        b@ != 0,
    ensures
        r.0@ == truncated_quotient(a@, b@),
        r.1@ == truncated_remainder(a@, b@),
{
    let x = BigInt::from_signed_bytes_le(&a.bytes);
    let y = BigInt::from_signed_bytes_le(&b.bytes);
    let (q, m) = num_integer::div_rem(x, y);
    (Integer { bytes: q.to_signed_bytes_le() }, Integer { bytes: m.to_signed_bytes_le() })
}

/// `BigInt`'s `%`: the remainder of the division that rounds towards zero. It
/// panics where the divisor is zero.
#[verifier::external_body]
pub(crate) fn remainder(a: &Integer, b: &Integer) -> (r: Integer)
    requires
        b@ != 0,
    ensures
        r@ == truncated_remainder(a@, b@),
{
    let m = BigInt::from_signed_bytes_le(&a.bytes) % BigInt::from_signed_bytes_le(&b.bytes);
    Integer { bytes: m.to_signed_bytes_le() }
}

/// `BigInt::pow`: the power; the zeroth power of any number is one. As with the
/// other operations, a result that does not fit into memory ends the program.
#[verifier::external_body]
pub(crate) fn power(a: &Integer, exponent: u32) -> (r: Integer)
    ensures
        r@ == pow(a@, exponent as nat),
{
    Integer { bytes: BigInt::from_signed_bytes_le(&a.bytes).pow(exponent).to_signed_bytes_le() }
}

/// `num_traits::Zero::is_zero` on `BigInt`.
#[verifier::external_body]
pub(crate) fn is_zero(a: &Integer) -> (r: bool)
    ensures
        r == (a@ == 0),
{
    BigInt::from_signed_bytes_le(&a.bytes).is_zero()
}

/// `num_traits::Signed::is_negative` on `BigInt`.
#[verifier::external_body]
pub(crate) fn is_negative(a: &Integer) -> (r: bool)
    ensures
        r == (a@ < 0),
{
    BigInt::from_signed_bytes_le(&a.bytes).is_negative()
}

/// `num_traits::ToPrimitive::to_u32` on `BigInt`: the number, if a `u32` holds it.
#[verifier::external_body]
pub(crate) fn to_u32(a: &Integer) -> (r: Option<u32>)
    ensures
        r == (if 0 <= a@ <= u32::MAX { Some(a@ as u32) } else { None }),
{
    BigInt::from_signed_bytes_le(&a.bytes).to_u32()
}

/// `num_traits::ToPrimitive::to_usize` on `BigInt`: the number, if a `usize`
/// holds it.
#[verifier::external_body]
pub(crate) fn to_usize(a: &Integer) -> (r: Option<usize>)
    ensures
        r == (if 0 <= a@ <= usize::MAX { Some(a@ as usize) } else { None }),
{
    BigInt::from_signed_bytes_le(&a.bytes).to_usize()
}

/// `BigInt`'s `Ord`: the order of the two numbers.
#[verifier::external_body]
pub(crate) fn order(a: &Integer, b: &Integer) -> (r: Order)
    ensures
        r == int_order(a@, b@),
{
    let x = BigInt::from_signed_bytes_le(&a.bytes);
    match x.cmp(&BigInt::from_signed_bytes_le(&b.bytes)) {
        std::cmp::Ordering::Less => Order::Less,
        std::cmp::Ordering::Equal => Order::Equal,
        std::cmp::Ordering::Greater => Order::Greater,
    }
}

/// A division leaves nothing over exactly when the quotient times the divisor
/// gives the dividend back.
pub proof fn law_exact_division(a: int, b: int)
    requires
        b != 0,
    ensures
        truncated_remainder(a, b) == 0 <==> truncated_quotient(a, b) * b == a,
        truncated_remainder(a, b) == 0 <==> exists|q: int| #[trigger] (q * b) == a,
{
    let q = truncated_quotient(a, b);
    assert(q * b == b * q) by (nonlinear_arith);
    if exists|p: int| #[trigger] (p * b) == a {
        let p = choose|p: int| #[trigger] (p * b) == a;
        assert(q == p) by (nonlinear_arith)
            requires
                p * b == a,
                b != 0,
                q == truncated_quotient(a, b),
        {
            if a >= 0 && b > 0 {
                assert(a / b == p) by (nonlinear_arith)
                    requires
                        p * b == a,
                        b > 0,
                ;
            } else if a >= 0 {
                assert(a / (-b) == -p) by (nonlinear_arith)
                    requires
                        p * b == a,
                        b < 0,
                ;
            } else if b > 0 {
                assert((-a) / b == -p) by (nonlinear_arith)
                    requires
                        p * b == a,
                        b > 0,
                ;
            } else {
                assert((-a) / (-b) == p) by (nonlinear_arith)
                    requires
                        p * b == a,
                        b < 0,
                ;
            }
        }
    }
}

} // verus!
