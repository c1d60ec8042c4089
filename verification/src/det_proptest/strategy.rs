//! Strategies: deterministic generators of test values.
use vstd::prelude::*;
use core::marker::PhantomData;
use crate::det_proptest::rng::{xorshift, Xorshift64};
use crate::verified_algorithms::order::{lawful_partial_ord, less};

verus! {

/// The seed of a property-test run: the same seed gives the same generated
/// values and the same shrinking.
#[derive(Clone, Copy, Debug, PartialEq, Eq)]
pub struct Seed(pub u64);

impl Default for Seed {
    fn default() -> (r: Self)
        ensures
            r.0 == 0x1234_5678_9ABC_DEF1,
    {
        Seed(0x1234_5678_9ABC_DEF1)
    }
}

/// A generator of values of type `Value` from a `Xorshift64`. The same
/// generator state always gives the same value.
///
/// A strategy may also offer an index space `[lo, hi)` whose values it can
/// produce one by one; the test runner shrinks a counterexample within it.
pub trait Strategy {
    /// The type of the values.
    type Value;

    /// The value drawn from generator state `state`, with the state after.
    spec fn generate_spec(&self, state: u64) -> (Self::Value, u64);

    /// The index space `[lo, hi)`, if the strategy has one.
    spec fn bounds_spec(&self) -> Option<(u64, u64)>;

    /// The value at index `idx` of the index space, if there is one.
    spec fn index_spec(&self, idx: u64) -> Option<Self::Value>;

    /// Draws the next value from `rng`.
    fn generate(&self, rng: &mut Xorshift64) -> (r: Self::Value)
        ensures
            (r, final(rng)@) == self.generate_spec(old(rng)@),
    ;

    /// The index space `[lo, hi)`, if the strategy has one.
    fn shrink_bounds(&self) -> (r: Option<(u64, u64)>)
        ensures
            r == self.bounds_spec(),
    ;

    /// The value at index `idx`, if there is one.
    fn at_index(&self, idx: u64) -> (r: Option<Self::Value>)
        ensures
            r == self.index_spec(idx),
    ;
}

/// An order-preserving bijection between an integer type and `u64`, by which
/// an integer range is indexed.
pub trait IntConvert: Sized {
    /// The mathematical value.
    spec fn value(self) -> int;

    /// The index of `self` in `u64`.
    spec fn index(self) -> u64;

    /// The value at index `v`.
    spec fn at(v: u64) -> Self;

    /// The index of `self`.
    fn to_u64(self) -> (r: u64)
        ensures
            r == self.index(),
    ;

    /// The value at index `v`.
    fn from_u64(v: u64) -> (r: Self)
        ensures
            r == Self::at(v),
    ;

    /// Reading back the index of a value gives the value.
    proof fn lemma_inverse(x: Self)
        ensures
            Self::at(x.index()) == x,
    ;

    /// Indices are ordered as the values are.
    proof fn lemma_order(a: Self, b: Self)
        ensures
            (a.value() < b.value()) == (a.index() < b.index()),
    ;
}

impl IntConvert for i8 {
    open spec fn value(self) -> int {
        self as int
    }

    open spec fn index(self) -> u64 {
        ((self as i64) as u64) ^ 0x8000_0000_0000_0000u64
    }

    open spec fn at(v: u64) -> i8 {
        ((v ^ 0x8000_0000_0000_0000u64) as i64) as i8
    }

    fn to_u64(self) -> (r: u64) {
        ((self as i64) as u64) ^ 0x8000_0000_0000_0000u64
    }

    fn from_u64(v: u64) -> (r: i8) {
        ((v ^ 0x8000_0000_0000_0000u64) as i64) as i8
    }

    proof fn lemma_inverse(x: i8) {
        assert(((((x as i64) as u64) ^ 0x8000_0000_0000_0000u64) ^ 0x8000_0000_0000_0000u64) as i64
            as i8 == x) by (bit_vector);
    }

    proof fn lemma_order(a: i8, b: i8) {
        assert((a < b) == ((((a as i64) as u64) ^ 0x8000_0000_0000_0000u64) < (((b as i64) as u64)
            ^ 0x8000_0000_0000_0000u64))) by (bit_vector);
    }
}

impl IntConvert for i16 {
    open spec fn value(self) -> int {
        self as int
    }

    open spec fn index(self) -> u64 {
        ((self as i64) as u64) ^ 0x8000_0000_0000_0000u64
    }

    open spec fn at(v: u64) -> i16 {
        ((v ^ 0x8000_0000_0000_0000u64) as i64) as i16
    }

    fn to_u64(self) -> (r: u64) {
        ((self as i64) as u64) ^ 0x8000_0000_0000_0000u64
    }

    fn from_u64(v: u64) -> (r: i16) {
        ((v ^ 0x8000_0000_0000_0000u64) as i64) as i16
    }

    proof fn lemma_inverse(x: i16) {
        assert(((((x as i64) as u64) ^ 0x8000_0000_0000_0000u64) ^ 0x8000_0000_0000_0000u64) as i64
            as i16 == x) by (bit_vector);
    }

    proof fn lemma_order(a: i16, b: i16) {
        assert((a < b) == ((((a as i64) as u64) ^ 0x8000_0000_0000_0000u64) < (((b as i64) as u64)
            ^ 0x8000_0000_0000_0000u64))) by (bit_vector);
    }
}

impl IntConvert for i32 {
    open spec fn value(self) -> int {
        self as int
    }

    open spec fn index(self) -> u64 {
        ((self as i64) as u64) ^ 0x8000_0000_0000_0000u64
    }

    open spec fn at(v: u64) -> i32 {
        ((v ^ 0x8000_0000_0000_0000u64) as i64) as i32
    }

    fn to_u64(self) -> (r: u64) {
        ((self as i64) as u64) ^ 0x8000_0000_0000_0000u64
    }

    fn from_u64(v: u64) -> (r: i32) {
        ((v ^ 0x8000_0000_0000_0000u64) as i64) as i32
    }

    proof fn lemma_inverse(x: i32) {
        assert(((((x as i64) as u64) ^ 0x8000_0000_0000_0000u64) ^ 0x8000_0000_0000_0000u64) as i64
            as i32 == x) by (bit_vector);
    }

    proof fn lemma_order(a: i32, b: i32) {
        assert((a < b) == ((((a as i64) as u64) ^ 0x8000_0000_0000_0000u64) < (((b as i64) as u64)
            ^ 0x8000_0000_0000_0000u64))) by (bit_vector);
    }
}

impl IntConvert for i64 {
    open spec fn value(self) -> int {
        self as int
    }

    open spec fn index(self) -> u64 {
        (self as u64) ^ 0x8000_0000_0000_0000u64
    }

    open spec fn at(v: u64) -> i64 {
        (v ^ 0x8000_0000_0000_0000u64) as i64
    }

    fn to_u64(self) -> (r: u64) {
        (self as u64) ^ 0x8000_0000_0000_0000u64
    }

    fn from_u64(v: u64) -> (r: i64) {
        (v ^ 0x8000_0000_0000_0000u64) as i64
    }

    proof fn lemma_inverse(x: i64) {
        assert((((x as u64) ^ 0x8000_0000_0000_0000u64) ^ 0x8000_0000_0000_0000u64) as i64 == x)
            by (bit_vector);
    }

    proof fn lemma_order(a: i64, b: i64) {
        assert((a < b) == (((a as u64) ^ 0x8000_0000_0000_0000u64) < ((b as u64)
            ^ 0x8000_0000_0000_0000u64))) by (bit_vector);
    }
}

impl IntConvert for u8 {
    open spec fn value(self) -> int {
        self as int
    }

    open spec fn index(self) -> u64 {
        self as u64
    }

    open spec fn at(v: u64) -> u8 {
        v as u8
    }

    fn to_u64(self) -> (r: u64) {
        self as u64
    }

    fn from_u64(v: u64) -> (r: u8) {
        v as u8
    }

    proof fn lemma_inverse(x: u8) {
        assert((x as u64) as u8 == x) by (bit_vector);
    }

    proof fn lemma_order(a: u8, b: u8) {
    }
}

impl IntConvert for u16 {
    open spec fn value(self) -> int {
        self as int
    }

    open spec fn index(self) -> u64 {
        self as u64
    }

    open spec fn at(v: u64) -> u16 {
        v as u16
    }

    fn to_u64(self) -> (r: u64) {
        self as u64
    }

    fn from_u64(v: u64) -> (r: u16) {
        v as u16
    }

    proof fn lemma_inverse(x: u16) {
        assert((x as u64) as u16 == x) by (bit_vector);
    }

    proof fn lemma_order(a: u16, b: u16) {
    }
}

impl IntConvert for u32 {
    open spec fn value(self) -> int {
        self as int
    }

    open spec fn index(self) -> u64 {
        self as u64
    }

    open spec fn at(v: u64) -> u32 {
        v as u32
    }

    fn to_u64(self) -> (r: u64) {
        self as u64
    }

    fn from_u64(v: u64) -> (r: u32) {
        v as u32
    }

    proof fn lemma_inverse(x: u32) {
        assert((x as u64) as u32 == x) by (bit_vector);
    }

    proof fn lemma_order(a: u32, b: u32) {
    }
}

impl IntConvert for u64 {
    open spec fn value(self) -> int {
        self as int
    }

    open spec fn index(self) -> u64 {
        self
    }

    open spec fn at(v: u64) -> u64 {
        v
    }

    fn to_u64(self) -> (r: u64) {
        self
    }

    fn from_u64(v: u64) -> (r: u64) {
        v
    }

    proof fn lemma_inverse(x: u64) {
    }

    proof fn lemma_order(a: u64, b: u64) {
    }
}

/// Generates integers in the half-open range `[low, high)`, through their
/// indices in `u64`.
#[derive(Debug)]
pub struct IntRange<T> {
    low_u64: u64,
    high_u64: u64,
    _marker: PhantomData<T>,
}

impl<T> View for IntRange<T> {
    type V = (u64, u64);

    /// The index range `[low, high)`.
    closed spec fn view(&self) -> (u64, u64) {
        (self.low_u64, self.high_u64)
    }
}

impl<T> Clone for IntRange<T> {
    fn clone(&self) -> (r: Self)
        ensures
            r@ == self@,
    {
        proof {
            use_type_invariant(self);
        }
        IntRange { low_u64: self.low_u64, high_u64: self.high_u64, _marker: PhantomData }
    }
}

impl<T> Copy for IntRange<T> {
}

impl<T> IntRange<T> {
    #[verifier::type_invariant]
    closed spec fn nonempty(self) -> bool {
        self.low_u64 < self.high_u64
    }

    /// The index range is never empty.
    pub fn check_nonempty(&self)
        ensures
            self@.0 < self@.1,
    {
        proof {
            use_type_invariant(self);
        }
    }

    /// The strategy for values in `[low, high)`. `low` must be below `high`,
    /// and so must its index be below that of `high`.
    pub fn new(low: T, high: T) -> (r: Self) where T: Copy + PartialOrd + IntConvert
        requires
            lawful_partial_ord::<T>(),
            less(low, high),
            low.index() < high.index(),
        ensures
            r@ == (low.index(), high.index()),
    {
        let low_u64 = low.to_u64();
        let high_u64 = high.to_u64();
        IntRange { low_u64, high_u64, _marker: PhantomData }
    }
}

impl<T: IntConvert> Strategy for IntRange<T> {
    type Value = T;

    /// The value at index `low + x % (high - low)` for the generator's next
    /// output `x`.
    open spec fn generate_spec(&self, state: u64) -> (T, u64) {
        let x = xorshift(state);
        (T::at((self@.0 + x % ((self@.1 - self@.0) as u64)) as u64), x)
    }

    open spec fn bounds_spec(&self) -> Option<(u64, u64)> {
        Some(self@)
    }

    /// The value at `idx` for every index below `high`.
    open spec fn index_spec(&self, idx: u64) -> Option<T> {
        if idx >= self@.1 {
            None
        } else {
            Some(T::at(idx))
        }
    }

    fn generate(&self, rng: &mut Xorshift64) -> (r: T) {
        proof {
            use_type_invariant(self);
        }
        let span = self.high_u64 - self.low_u64;
        let idx = rng.next_u64() % span;
        T::from_u64(self.low_u64 + idx)
    }

    fn shrink_bounds(&self) -> (r: Option<(u64, u64)>) {
        Some((self.low_u64, self.high_u64))
    }

    fn at_index(&self, idx: u64) -> (r: Option<T>) {
        if idx >= self.high_u64 {
            None
        } else {
            Some(T::from_u64(idx))
        }
    }
}

/// Generates `true` and `false`, each as likely.
#[derive(Clone, Copy, Debug, Default)]
pub struct AnyBool;

impl Strategy for AnyBool {
    type Value = bool;

    /// The low bit of the generator's next output.
    open spec fn generate_spec(&self, state: u64) -> (bool, u64) {
        ((xorshift(state) & 1) == 1, xorshift(state))
    }

    open spec fn bounds_spec(&self) -> Option<(u64, u64)> {
        None
    }

    open spec fn index_spec(&self, idx: u64) -> Option<bool> {
        None
    }

    fn generate(&self, rng: &mut Xorshift64) -> (r: bool) {
        (rng.next_u64() & 1) == 1
    }

    fn shrink_bounds(&self) -> (r: Option<(u64, u64)>) {
        None
    }

    fn at_index(&self, idx: u64) -> (r: Option<bool>) {
        None
    }
}

} // verus!
