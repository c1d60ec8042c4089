//! Arbitrary-precision integers.
//!
//! The library holds an integer as its two's-complement encoding in
//! little-endian bytes; every arithmetic operation is carried out by the
//! `num-bigint` crate, and the contracts below state what each one computes on
//! the integer values.
use vstd::prelude::*;
use vstd::arithmetic::power::pow;
use crate::text::int_text;

verus! {

/// The unsigned value of little-endian bytes.
pub open spec fn le_value(b: Seq<u8>) -> nat
    decreases b.len(),
{
    if b.len() == 0 {
        0
    } else {
        (b[0] + 256 * le_value(b.subrange(1, b.len() as int))) as nat
    }
}

/// The value of little-endian bytes read as a two's-complement integer: the
/// most significant bit of the last byte carries the weight `-256^len`.
/// The empty sequence encodes zero.
pub open spec fn twos_value(b: Seq<u8>) -> int {
    if b.len() > 0 && b.last() >= 128 {
        le_value(b) - pow(256, b.len())
    } else {
        le_value(b) as int
    }
}

/// Absolute value of an integer.
pub open spec fn abs(v: int) -> nat {
    if v < 0 {
        (-v) as nat
    } else {
        v as nat
    }
}

/// Division truncating toward zero, as Rust's `/` on integers does.
pub open spec fn tdiv(a: int, b: int) -> int {
    let q = abs(a) as int / abs(b) as int;
    if (a < 0) != (b < 0) {
        -q
    } else {
        q
    }
}

/// The greatest common divisor of two natural numbers (Euclid's recursion);
/// `gcd(a, 0) == a`, so `gcd(0, 0) == 0`.
pub open spec fn gcd(a: nat, b: nat) -> nat
    decreases b,
{
    if b == 0 {
        a
    } else {
        gcd(b, a % b)
    }
}

/// The sign of an integer.
#[derive(Debug, Clone, Copy, PartialEq, Eq, Structural)]
pub enum Sign {
    /// Strictly negative.
    Minus,
    /// Zero.
    NoSign,
    /// Strictly positive.
    Plus,
}

/// An arbitrary-precision signed integer.
#[derive(Debug)]
pub struct BigInt {
    bytes: Vec<u8>,
}

impl View for BigInt {
    type V = int;

    /// The integer this value stands for.
    closed spec fn view(&self) -> int {
        twos_value(self.bytes@)
    }
}

// ── Calls into num-bigint ─────────────────────────────────────────────────────

/// `num_bigint::BigInt::from(i64)`: the integer `n`.
#[verifier::external_body]
fn big_from_i64(n: i64) -> (r: BigInt)
    ensures
        r@ == n as int,
{
    BigInt { bytes: num_bigint::BigInt::from(n).to_signed_bytes_le() }
}

/// `num_bigint::BigInt::from(u64)`: the integer `n`.
#[verifier::external_body]
fn big_from_u64(n: u64) -> (r: BigInt)
    ensures
        r@ == n as int,
{
    BigInt { bytes: num_bigint::BigInt::from(n).to_signed_bytes_le() }
}

/// `Add` on `num_bigint::BigInt`: the exact sum.
#[verifier::external_body]
fn big_add(a: &BigInt, b: &BigInt) -> (r: BigInt)
    ensures
        r@ == a@ + b@,
{
    let x = num_bigint::BigInt::from_signed_bytes_le(&a.bytes);
    let y = num_bigint::BigInt::from_signed_bytes_le(&b.bytes);
    BigInt { bytes: (x + y).to_signed_bytes_le() }
}

/// `Sub` on `num_bigint::BigInt`: the exact difference.
#[verifier::external_body]
fn big_sub(a: &BigInt, b: &BigInt) -> (r: BigInt)
    ensures
        r@ == a@ - b@,
{
    let x = num_bigint::BigInt::from_signed_bytes_le(&a.bytes);
    let y = num_bigint::BigInt::from_signed_bytes_le(&b.bytes);
    BigInt { bytes: (x - y).to_signed_bytes_le() }
}

/// `Mul` on `num_bigint::BigInt`: the exact product.
#[verifier::external_body]
fn big_mul(a: &BigInt, b: &BigInt) -> (r: BigInt)
    ensures
        r@ == a@ * b@,
{
    let x = num_bigint::BigInt::from_signed_bytes_le(&a.bytes);
    let y = num_bigint::BigInt::from_signed_bytes_le(&b.bytes);
    BigInt { bytes: (x * y).to_signed_bytes_le() }
}

/// `Div` on `num_bigint::BigInt`: the quotient truncated toward zero. It
/// panics on a zero divisor, which `requires` leaves out.
#[verifier::external_body]
fn big_div(a: &BigInt, b: &BigInt) -> (r: BigInt)
    requires
        b@ != 0,
    ensures
        r@ == tdiv(a@, b@),
{
    let x = num_bigint::BigInt::from_signed_bytes_le(&a.bytes);
    let y = num_bigint::BigInt::from_signed_bytes_le(&b.bytes);
    BigInt { bytes: (x / y).to_signed_bytes_le() }
}

/// `Neg` on `num_bigint::BigInt`: the negation.
#[verifier::external_body]
fn big_neg(a: &BigInt) -> (r: BigInt)
    ensures
        r@ == -a@,
{
    let x = num_bigint::BigInt::from_signed_bytes_le(&a.bytes);
    BigInt { bytes: (-x).to_signed_bytes_le() }
}

/// `num_traits::Signed::abs` on `num_bigint::BigInt`: the absolute value.
#[verifier::external_body]
fn big_abs(a: &BigInt) -> (r: BigInt)
    ensures
        r@ == abs(a@),
{
    let x = num_bigint::BigInt::from_signed_bytes_le(&a.bytes);
    BigInt { bytes: num_traits::Signed::abs(&x).to_signed_bytes_le() }
}

/// `num_integer::Integer::gcd` on `num_bigint::BigInt`: the greatest common
/// divisor of the magnitudes, never negative.
#[verifier::external_body]
fn big_gcd(a: &BigInt, b: &BigInt) -> (r: BigInt)
    ensures
        r@ == gcd(abs(a@), abs(b@)),
{
    let x = num_bigint::BigInt::from_signed_bytes_le(&a.bytes);
    let y = num_bigint::BigInt::from_signed_bytes_le(&b.bytes);
    BigInt { bytes: num_integer::Integer::gcd(&x, &y).to_signed_bytes_le() }
}

/// `PartialEq` on `num_bigint::BigInt`: equality of the values.
#[verifier::external_body]
fn big_eq(a: &BigInt, b: &BigInt) -> (r: bool)
    ensures
        r == (a@ == b@),
{
    num_bigint::BigInt::from_signed_bytes_le(&a.bytes)
        == num_bigint::BigInt::from_signed_bytes_le(&b.bytes)
}

/// `PartialOrd::lt` on `num_bigint::BigInt`: the order of the values.
#[verifier::external_body]
fn big_lt(a: &BigInt, b: &BigInt) -> (r: bool)
    ensures
        r == (a@ < b@),
{
    num_bigint::BigInt::from_signed_bytes_le(&a.bytes)
        < num_bigint::BigInt::from_signed_bytes_le(&b.bytes)
}

/// `num_bigint::BigInt::sign`: the sign of the value.
#[verifier::external_body]
fn big_sign(a: &BigInt) -> (r: Sign)
    ensures
        r == (if a@ < 0 {
            Sign::Minus
        } else if a@ == 0 {
            Sign::NoSign
        } else {
            Sign::Plus
        }),
{
    match num_bigint::BigInt::from_signed_bytes_le(&a.bytes).sign() {
        num_bigint::Sign::Minus => Sign::Minus,
        num_bigint::Sign::NoSign => Sign::NoSign,
        num_bigint::Sign::Plus => Sign::Plus,
    }
}

/// `Display` of `num_bigint::BigInt`: the decimal text of the value, with a
/// leading `-` when negative.
#[verifier::external_body]
fn big_text(a: &BigInt) -> (r: String)
    ensures
        r@ == int_text(a@),
{
    num_bigint::BigInt::from_signed_bytes_le(&a.bytes).to_string()
}

// ── The library's integer type ───────────────────────────────────────────────

impl BigInt {
    /// The integer `n`.
    pub fn from_i64(n: i64) -> (r: BigInt)
        ensures
            r@ == n as int,
    {
        big_from_i64(n)
    }

    /// The integer `n`.
    pub fn from_u64(n: u64) -> (r: BigInt)
        ensures
            r@ == n as int,
    {
        big_from_u64(n)
    }

    /// Zero.
    pub fn zero() -> (r: BigInt)
        ensures
            r@ == 0,
    {
        big_from_i64(0)
    }

    /// One.
    pub fn one() -> (r: BigInt)
        ensures
            r@ == 1,
    {
        big_from_i64(1)
    }

    /// `self + other`.
    pub fn plus(&self, other: &BigInt) -> (r: BigInt)
        ensures
            r@ == self@ + other@,
    {
        big_add(self, other)
    }

    /// `self - other`.
    pub fn minus(&self, other: &BigInt) -> (r: BigInt)
        ensures
            r@ == self@ - other@,
    {
        big_sub(self, other)
    }

    /// `self * other`.
    pub fn times(&self, other: &BigInt) -> (r: BigInt)
        ensures
            r@ == self@ * other@,
    {
        big_mul(self, other)
    }

    /// `self / other`, truncated toward zero.
    pub fn quotient(&self, other: &BigInt) -> (r: BigInt)
        requires
            other@ != 0,
        ensures
            r@ == tdiv(self@, other@),
    {
        big_div(self, other)
    }

    /// `-self`.
    pub fn negated(&self) -> (r: BigInt)
        ensures
            r@ == -self@,
    {
        big_neg(self)
    }

    /// `|self|`.
    pub fn abs(&self) -> (r: BigInt)
        ensures
            r@ == abs(self@),
    {
        big_abs(self)
    }

    /// The greatest common divisor of `|self|` and `|other|`.
    pub fn gcd(&self, other: &BigInt) -> (r: BigInt)
        ensures
            r@ == gcd(abs(self@), abs(other@)),
    {
        big_gcd(self, other)
    }

    /// Whether the value is zero.
    pub fn is_zero(&self) -> (r: bool)
        ensures
            r == (self@ == 0),
    {
        let z = big_from_i64(0);
        big_eq(self, &z)
    }

    /// Whether the value is strictly negative.
    pub fn is_negative(&self) -> (r: bool)
        ensures
            r == (self@ < 0),
    {
        match big_sign(self) {
            Sign::Minus => true,
            _ => false,
        }
    }

    /// Whether the value is strictly positive.
    pub fn is_positive(&self) -> (r: bool)
        ensures
            r == (self@ > 0),
    {
        match big_sign(self) {
            Sign::Plus => true,
            _ => false,
        }
    }

    /// The sign of the value.
    pub fn sign(&self) -> (r: Sign)
        ensures
            r == (if self@ < 0 {
                Sign::Minus
            } else if self@ == 0 {
                Sign::NoSign
            } else {
                Sign::Plus
            }),
    {
        big_sign(self)
    }

    /// Whether `self < other`.
    pub fn less_than(&self, other: &BigInt) -> (r: bool)
        ensures
            r == (self@ < other@),
    {
        big_lt(self, other)
    }

    /// Whether `self == other`.
    pub fn equals(&self, other: &BigInt) -> (r: bool)
        ensures
            r == (self@ == other@),
    {
        big_eq(self, other)
    }

    /// The decimal text of the value.
    pub fn to_string(&self) -> (r: String)
        ensures
            r@ == int_text(self@),
    {
        big_text(self)
    }
}

impl Clone for BigInt {
    fn clone(&self) -> (r: Self)
        ensures
            r@ == self@,
    {
        BigInt { bytes: self.bytes.clone() }
    }
}

impl PartialEq for BigInt {
    fn eq(&self, other: &Self) -> (r: bool) {
        big_eq(self, other)
    }
}

impl vstd::std_specs::cmp::PartialEqSpecImpl for BigInt {
    open spec fn obeys_eq_spec() -> bool {
        true
    }

    open spec fn eq_spec(&self, other: &BigInt) -> bool {
        self@ == other@
    }
}

impl Eq for BigInt {
}

impl From<i64> for BigInt {
    fn from(n: i64) -> (r: BigInt)
        ensures
            r@ == n as int,
    {
        big_from_i64(n)
    }
}

impl vstd::std_specs::convert::FromSpecImpl<i64> for BigInt {
    open spec fn obeys_from_spec() -> bool {
        false
    }

    open spec fn from_spec(n: i64) -> BigInt {
        choose|r: BigInt| r@ == n as int
    }
}

} // verus!
