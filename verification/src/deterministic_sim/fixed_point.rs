//! Fixed-point numbers `raw / DENOM` with integer arithmetic only.
use vstd::prelude::*;
use crate::exact_math::bigint::tdiv;
use crate::exact_math::number_theory::lemma_tdiv_exact;
use crate::text::{nat_text, pad_left, push_char, push_str, push_string, write_u64};

verus! {

/// The decimal places shown for denominator `d`: `round(log10(d))`, that is
/// the number `n` of decimal digits of `d`, less one when `d` is below
/// `√10 · 10^(n-1)` (when `d² < 10^(2n-1)`).
pub open spec fn shown_digits(d: nat) -> nat {
    let n = nat_text(d).len();
    if d * d < pow10((2 * n - 1) as nat) {
        (n - 1) as nat
    } else {
        n
    }
}

/// `10^k`.
pub open spec fn pow10(k: nat) -> nat
    decreases k,
{
    if k == 0 {
        1
    } else {
        10 * pow10((k - 1) as nat)
    }
}

/// The text of `raw / d` with `digits` decimal places: a `-` for a negative
/// value, the integer part of `|raw| / d`, a point, and `|raw| mod d`
/// padded with zeros on the left to `digits` places.
pub open spec fn fixed_text(raw: int, d: nat, digits: nat) -> Seq<char> {
    let a = if raw < 0 {
        -raw
    } else {
        raw
    };
    (if raw < 0 {
        seq!['-']
    } else {
        Seq::empty()
    }) + nat_text((a / (d as int)) as nat) + seq!['.'] + pad_left(
        nat_text((a % (d as int)) as nat),
        digits,
        '0',
    )
}

/// A fixed-point number `raw / DENOM`, where `DENOM` is fixed at compile
/// time. All arithmetic is integer arithmetic, so results are the same on
/// every platform.
#[derive(Clone, Copy, Debug, Eq, Ord, Hash)]
pub struct FixedPoint<const DENOM: u64> {
    raw: i64,
}

impl<const DENOM: u64> FixedPoint<DENOM> {
    /// The numerator.
    pub closed spec fn numerator(self) -> i64 {
        self.raw
    }

    /// The value `raw / DENOM`.
    pub fn from_raw(raw: i64) -> (r: Self)
        ensures
            r.numerator() == raw,
    {
        FixedPoint { raw }
    }

    /// The integer `n`: numerator `n * DENOM`, which must fit in an `i64`
    /// (as `DENOM` itself must).
    pub fn from_int(n: i64) -> (r: Self)
        requires
            DENOM <= i64::MAX,
            i64::MIN <= n * DENOM <= i64::MAX,
        ensures
            r.numerator() == n * DENOM,
    {
        let d = DENOM as i64;
        FixedPoint { raw: n * d }
    }

    /// Zero.
    pub fn zero() -> (r: Self)
        ensures
            r.numerator() == 0,
    {
        FixedPoint { raw: 0 }
    }

    /// One: numerator `DENOM`, which must fit in an `i64`.
    pub fn one() -> (r: Self)
        requires
            DENOM <= i64::MAX,
        ensures
            r.numerator() == DENOM,
    {
        FixedPoint { raw: DENOM as i64 }
    }

    /// The numerator.
    pub fn raw(self) -> (r: i64)
        ensures
            r == self.numerator(),
    {
        self.raw
    }

    /// Whether the value is zero.
    pub fn is_zero(self) -> (r: bool)
        ensures
            r == (self.numerator() == 0),
    {
        self.raw == 0
    }

    /// Whether the value is below zero.
    pub fn is_negative(self) -> (r: bool)
        ensures
            r == (self.numerator() < 0),
    {
        self.raw < 0
    }

    /// Whether the value is above zero.
    pub fn is_positive(self) -> (r: bool)
        ensures
            r == (self.numerator() > 0),
    {
        self.raw > 0
    }

    /// The absolute value; the numerator must not be `i64::MIN`.
    pub fn abs(self) -> (r: Self)
        requires
            self.numerator() != i64::MIN,
        ensures
            r.numerator() == (if self.numerator() < 0 {
                -self.numerator()
            } else {
                self.numerator() as int
            }),
    {
        FixedPoint {
            raw: if self.raw < 0 {
                -self.raw
            } else {
                self.raw
            },
        }
    }

    /// The decimal text, such as `1.500` or `-0.750` for `DENOM = 1000`:
    /// a sign, the integer part, a point and the fraction padded with zeros
    /// to `round(log10(DENOM))` places. `DENOM` must be positive.
    pub fn to_string(self) -> (s: String)
        requires
            DENOM > 0,
        ensures
            s@ == fixed_text(self.numerator() as int, DENOM as nat, shown_digits(DENOM as nat)),
    {
        let digits = decimal_places(DENOM);
        let abs_raw: u64 = if self.raw < 0 {
            if self.raw == i64::MIN {
                9223372036854775808u64
            } else {
                (-self.raw) as u64
            }
        } else {
            self.raw as u64
        };
        let mut s = String::new();
        if self.raw < 0 {
            push_char(&mut s, '-');
        }
        write_u64(&mut s, abs_raw / DENOM);
        push_char(&mut s, '.');
        let mut frac = String::new();
        write_u64(&mut frac, abs_raw % DENOM);
        let ghost ft = frac@;
        let mut pad = String::new();
        let mut k: usize = frac.as_str().unicode_len();
        while k < digits
            invariant
                frac@ == ft,
                ft.len() <= k <= digits || k == ft.len(),
                pad@ == Seq::new((k - ft.len()) as nat, |i: int| '0'),
            decreases digits - k,
        {
            push_char(&mut pad, '0');
            k = k + 1;
            assert(pad@ =~= Seq::new((k - ft.len()) as nat, |i: int| '0'));
        }
        push_string(&mut s, &pad);
        push_string(&mut s, &frac);
        proof {
            let a: int = if self.raw < 0 {
                -self.raw
            } else {
                self.raw as int
            };
            assert(abs_raw == a);
            if ft.len() >= digits {
                assert(pad@ =~= Seq::<char>::empty());
                assert(pad@ + ft =~= ft);
            }
            assert(pad@ + ft == pad_left(ft, digits as nat, '0'));
            assert(s@ =~= fixed_text(self.raw as int, DENOM as nat, shown_digits(DENOM as nat)));
        }
        s
    }
}

/// The number of decimal digits of `d`.
fn digit_count(d: u64) -> (n: usize)
    requires
        d > 0,
    ensures
        n == nat_text(d as nat).len(),
        1 <= n <= 20,
        pow10((n - 1) as nat) <= d,
    decreases d,
{
    if d < 10 {
        1
    } else {
        let m = digit_count(d / 10);
        proof {
            assert(nat_text(d as nat) == nat_text((d / 10) as nat).push(
                crate::text::digit_char((d % 10) as nat),
            ));
            let p = pow10((m - 1) as nat);
            assert(pow10(m as nat) == 10 * p);
            assert(10 * p <= d) by (nonlinear_arith)
                requires
                    p <= d / 10,
                    d >= 10,
            ;
            lemma_u64_digits(d, (m + 1) as nat);
        }
        m + 1
    }
}

/// `10^20` exceeds every `u64`, so a `u64` has at most 20 digits.
proof fn lemma_u64_digits(d: u64, n: nat)
    requires
        pow10((n - 1) as nat) <= d,
        n >= 1,
    ensures
        n <= 20,
{
    if n > 20 {
        lemma_pow10_monotone(20, (n - 1) as nat);
        assert(pow10(20) == 100000000000000000000nat) by {
            reveal_with_fuel(pow10, 21);
        }
    }
}

/// The quotient of `a` by `b` rounded toward zero, as Rust's `/` on `i64`
/// computes it.
fn trunc_div(a: i64, b: i64) -> (q: i64)
    requires
        b != 0,
        !(a == i64::MIN && b == -1),
    ensures
        q == tdiv(a as int, b as int),
{
    let ua: u64 = if a < 0 {
        if a == i64::MIN {
            9223372036854775808u64
        } else {
            (-a) as u64
        }
    } else {
        a as u64
    };
    let ub: u64 = if b < 0 {
        if b == i64::MIN {
            9223372036854775808u64
        } else {
            (-b) as u64
        }
    } else {
        b as u64
    };
    let uq = ua / ub;
    proof {
        if ua == 9223372036854775808u64 && ub == 1 {
            assert(a == i64::MIN && b == 1);
        }
        assert(uq <= ua);
    }
    if (a < 0) != (b < 0) {
        if uq == 9223372036854775808u64 {
            i64::MIN
        } else {
            -(uq as i64)
        }
    } else {
        proof {
            if uq == 9223372036854775808u64 {
                assert(ub == 1) by (nonlinear_arith)
                    requires
                        uq == ua / ub,
                        ub >= 1,
                        ua <= 9223372036854775808u64,
                        uq == 9223372036854775808u64,
                ;
            }
        }
        uq as i64
    }
}

/// `10^k` for `k <= 38`.
fn pow10_u128(k: u32) -> (r: u128)
    requires
        k <= 38,
    ensures
        r == pow10(k as nat),
{
    let mut r: u128 = 1;
    let mut i: u32 = 0;
    proof {
        lemma_pow10_monotone(0, 38);
        assert(pow10(38) == 100000000000000000000000000000000000000nat) by {
            reveal_with_fuel(pow10, 39);
        }
    }
    while i < k
        invariant
            i <= k <= 38,
            r == pow10(i as nat),
            r <= pow10(38),
            pow10(38) == 100000000000000000000000000000000000000nat,
        decreases k - i,
    {
        proof {
            lemma_pow10_monotone((i + 1) as nat, 38);
        }
        r = r * 10;
        i = i + 1;
    }
    r
}

/// `10^a <= 10^b` for `a <= b`.
proof fn lemma_pow10_monotone(a: nat, b: nat)
    requires
        a <= b,
    ensures
        pow10(a) <= pow10(b),
    decreases b,
{
    if a < b {
        lemma_pow10_monotone(a, (b - 1) as nat);
    }
}

/// `round(log10(d))` for a positive `d` (see `shown_digits`).
fn decimal_places(d: u64) -> (k: usize)
    requires
        d > 0,
    ensures
        k == shown_digits(d as nat),
{
    let n = digit_count(d);
    proof {
        lemma_u64_digits(d, n as nat);
    }
    if n == 20 {
        proof {
            assert(pow10(39) == 1000000000000000000000000000000000000000nat) by {
                reveal_with_fuel(pow10, 40);
            }
            assert((d as nat) * (d as nat) < pow10(39)) by (nonlinear_arith)
                requires
                    d <= 18446744073709551615nat,
                    pow10(39) == 1000000000000000000000000000000000000000nat,
            ;
        }
        return 19;
    }
    let p = pow10_u128((2 * n - 1) as u32);
    assert((d as u128) * (d as u128) <= u128::MAX) by (nonlinear_arith)
        requires
            d <= u64::MAX,
    ;
    let dd: u128 = (d as u128) * (d as u128);
    if dd < p {
        n - 1
    } else {
        n
    }
}

/// One is the unit of multiplication and division: the numerator of
/// `x * one()` and of `x / one()` is that of `x`.
pub proof fn lemma_one_is_identity<const DENOM: u64>(x: FixedPoint<DENOM>, one: FixedPoint<DENOM>)
    requires
        0 < DENOM <= i64::MAX,
        one.numerator() == DENOM,
    ensures
        tdiv(x.numerator() * one.numerator(), DENOM as int) == x.numerator(),
        tdiv(x.numerator() * DENOM, one.numerator() as int) == x.numerator(),
{
    assert(x.numerator() * one.numerator() == (DENOM as int) * x.numerator()) by (nonlinear_arith)
        requires
            one.numerator() == DENOM,
    ;
    lemma_tdiv_exact(x.numerator() * one.numerator(), DENOM as int, x.numerator() as int);
    lemma_tdiv_exact(x.numerator() * DENOM, one.numerator() as int, x.numerator() as int);
}

/// Every value is exactly one of positive, negative and zero.
pub proof fn lemma_sign_cases<const DENOM: u64>(x: FixedPoint<DENOM>)
    ensures
        (x.numerator() > 0) <==> !(x.numerator() < 0) && !(x.numerator() == 0),
        (x.numerator() < 0) <==> !(x.numerator() > 0) && !(x.numerator() == 0),
        (x.numerator() == 0) <==> !(x.numerator() > 0) && !(x.numerator() < 0),
{
}

impl<const DENOM: u64> core::ops::Add for FixedPoint<DENOM> {
    type Output = Self;

    /// The exact sum; it must fit.
    fn add(self, rhs: Self) -> (r: Self)
        ensures
            r.numerator() == self.numerator() + rhs.numerator(),
    {
        FixedPoint { raw: self.raw + rhs.raw }
    }
}

impl<const DENOM: u64> vstd::std_specs::ops::AddSpecImpl for FixedPoint<DENOM> {
    open spec fn obeys_add_spec() -> bool {
        false
    }

    open spec fn add_req(self, rhs: Self) -> bool {
        i64::MIN <= self.numerator() + rhs.numerator() <= i64::MAX
    }

    open spec fn add_spec(self, rhs: Self) -> Self {
        choose|r: Self| r.numerator() == self.numerator() + rhs.numerator()
    }
}

impl<const DENOM: u64> core::ops::Sub for FixedPoint<DENOM> {
    type Output = Self;

    /// The exact difference; it must fit.
    fn sub(self, rhs: Self) -> (r: Self)
        ensures
            r.numerator() == self.numerator() - rhs.numerator(),
    {
        FixedPoint { raw: self.raw - rhs.raw }
    }
}

impl<const DENOM: u64> vstd::std_specs::ops::SubSpecImpl for FixedPoint<DENOM> {
    open spec fn obeys_sub_spec() -> bool {
        false
    }

    open spec fn sub_req(self, rhs: Self) -> bool {
        i64::MIN <= self.numerator() - rhs.numerator() <= i64::MAX
    }

    open spec fn sub_spec(self, rhs: Self) -> Self {
        choose|r: Self| r.numerator() == self.numerator() - rhs.numerator()
    }
}

impl<const DENOM: u64> core::ops::Neg for FixedPoint<DENOM> {
    type Output = Self;

    /// The negation; the numerator must not be `i64::MIN`.
    fn neg(self) -> (r: Self)
        ensures
            r.numerator() == -self.numerator(),
    {
        FixedPoint { raw: -self.raw }
    }
}

impl<const DENOM: u64> vstd::std_specs::ops::NegSpecImpl for FixedPoint<DENOM> {
    open spec fn obeys_neg_spec() -> bool {
        false
    }

    open spec fn neg_req(self) -> bool {
        self.numerator() != i64::MIN
    }

    open spec fn neg_spec(self) -> Self {
        choose|r: Self| r.numerator() == -self.numerator()
    }
}

impl<const DENOM: u64> core::ops::Mul for FixedPoint<DENOM> {
    type Output = Self;

    /// `(a/D) * (b/D)`: the product of the numerators divided by `D`,
    /// rounded toward zero. The product must fit in an `i64` and `D` must be
    /// a positive `i64`.
    fn mul(self, rhs: Self) -> (r: Self)
        ensures
            r.numerator() == tdiv(self.numerator() * rhs.numerator(), DENOM as int),
    {
        let prod = self.raw * rhs.raw;
        let d = DENOM as i64;
        FixedPoint { raw: trunc_div(prod, d) }
    }
}

impl<const DENOM: u64> vstd::std_specs::ops::MulSpecImpl for FixedPoint<DENOM> {
    open spec fn obeys_mul_spec() -> bool {
        false
    }

    open spec fn mul_req(self, rhs: Self) -> bool {
        &&& i64::MIN <= self.numerator() * rhs.numerator() <= i64::MAX
        &&& 0 < DENOM <= i64::MAX
    }

    open spec fn mul_spec(self, rhs: Self) -> Self {
        choose|r: Self| r.numerator() == tdiv(self.numerator() * rhs.numerator(), DENOM as int)
    }
}

impl<const DENOM: u64> core::ops::Div for FixedPoint<DENOM> {
    type Output = Self;

    /// `(a/D) / (b/D)`: `a * D` divided by `b`, rounded toward zero. `b`
    /// must not be zero, `a * D` must fit in an `i64`, and the quotient must
    /// fit too (`a * D = i64::MIN` with `b = -1` does not).
    fn div(self, rhs: Self) -> (r: Self)
        ensures
            r.numerator() == tdiv(self.numerator() * DENOM, rhs.numerator() as int),
    {
        let d = DENOM as i64;
        let scaled = self.raw * d;
        FixedPoint { raw: trunc_div(scaled, rhs.raw) }
    }
}

impl<const DENOM: u64> vstd::std_specs::ops::DivSpecImpl for FixedPoint<DENOM> {
    open spec fn obeys_div_spec() -> bool {
        false
    }

    open spec fn div_req(self, rhs: Self) -> bool {
        &&& rhs.numerator() != 0
        &&& DENOM <= i64::MAX
        &&& i64::MIN <= self.numerator() * DENOM <= i64::MAX
        &&& !(self.numerator() * DENOM == i64::MIN && rhs.numerator() == -1)
    }

    open spec fn div_spec(self, rhs: Self) -> Self {
        choose|r: Self| r.numerator() == tdiv(self.numerator() * DENOM, rhs.numerator() as int)
    }
}

} // verus!
