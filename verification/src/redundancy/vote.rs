//! Voting over the channels of a `Replicated`.
use vstd::prelude::*;
use vstd::laws_eq::obeys_concrete_eq;
use vstd::std_specs::cmp::PartialEqSpec;
use crate::verified_algorithms::order::{lemma_total_order, leq, same, total_order};
use crate::verified_algorithms::predicates::sorted;
use crate::verified_algorithms::sort::{lemma_sorted_pairwise, verified_sort};
use crate::redundancy::count::{
    eq_count, lawful_eq, lemma_concrete_eq_is_lawful, lemma_eq_count_bound,
    lemma_eq_count_concrete, lemma_eq_count_equal_values, lemma_eq_count_extend,
    lemma_eq_count_split, lemma_eq_count_witness, lemma_first_eq, lemma_majority_unique,
    lemma_occurrences_bound, lemma_occurrences_multiset, lemma_occurrences_none,
    lemma_occurrences_split, lemma_occurrences_witness, occurrences,
};

verus! {

/// `N` copies of a value, one from each independent channel.
#[derive(Clone, Copy, Debug, PartialEq, Eq, Hash)]
pub struct Replicated<T, const N: usize> {
    channels: [T; N],
}

/// The outcome of a value-based majority vote: a value held by all channels,
/// one held by more than `N / 2` of them, or none.
#[derive(Clone, Copy, Debug, PartialEq, Eq, Hash)]
pub enum VoteResult<T> {
    /// All `N` channels reported the same value.
    Unanimous(T),
    /// More than `N / 2` channels, but not all, reported this value.
    Majority(T),
    /// No value was reported by more than `N / 2` channels.
    NoMajority,
}

impl<T, const N: usize> View for Replicated<T, N> {
    type V = Seq<T>;

    /// The channel values in channel order.
    closed spec fn view(&self) -> Seq<T> {
        self.channels@
    }
}

/// What a majority vote over the channel values `s` returns: `Unanimous`
/// with a clone of a value that every channel holds, `Majority` with a clone
/// of a value that more than half but not all of the channels hold, or
/// `NoMajority` when no value is held by more than half of them.
pub open spec fn vote_outcome<T: Clone>(s: Seq<T>, r: VoteResult<T>) -> bool {
    match r {
        VoteResult::Unanimous(w) => exists|i: int|
            0 <= i < s.len() && occurrences(s, #[trigger] s[i]) == s.len() && cloned(s[i], w),
        VoteResult::Majority(w) => exists|i: int|
            0 <= i < s.len() && s.len() / 2 < occurrences(s, #[trigger] s[i]) < s.len() && cloned(
                s[i],
                w,
            ),
        VoteResult::NoMajority => forall|i: int|
            0 <= i < s.len() ==> occurrences(s, #[trigger] s[i]) <= s.len() / 2,
    }
}

/// The number of elements from position `i` on that are `==` to the one
/// at `i` (itself included).
pub open spec fn tail_eq_count<T: PartialEq>(s: Seq<T>, i: int) -> nat {
    eq_count(s.subrange(i, s.len() as int), s[i])
}

/// What a majority vote over the channel values `s` returns when values are
/// compared with the type's `==`: `Unanimous` with a clone of a value that
/// every channel is `==` to, `Majority` with a clone of a value that more
/// than half but not all of the channels are `==` to, or `NoMajority` when
/// no value is `==` to more than half of them.
pub open spec fn vote_outcome_eq<T: Clone + PartialEq>(s: Seq<T>, r: VoteResult<T>) -> bool {
    match r {
        VoteResult::Unanimous(w) => exists|i: int|
            0 <= i < s.len() && eq_count(s, #[trigger] s[i]) == s.len() && cloned(s[i], w),
        VoteResult::Majority(w) => exists|i: int|
            0 <= i < s.len() && s.len() / 2 < eq_count(s, #[trigger] s[i]) < s.len() && cloned(
                s[i],
                w,
            ),
        VoteResult::NoMajority => forall|i: int|
            0 <= i < s.len() ==> eq_count(s, #[trigger] s[i]) <= s.len() / 2,
    }
}

/// When `==` is equality of values, the vote by `==` is the vote by equal
/// values.
pub proof fn lemma_vote_outcome_concrete<T: Clone + PartialEq>(s: Seq<T>, r: VoteResult<T>)
    requires
        obeys_concrete_eq::<T>(),
        vote_outcome_eq(s, r),
    ensures
        vote_outcome(s, r),
{
    assert forall|i: int| 0 <= i < s.len() implies eq_count(s, #[trigger] s[i]) == occurrences(
        s,
        s[i],
    ) by {
        lemma_eq_count_concrete(s, s[i]);
    }
}

/// A vote by a lawful `==` reports a majority exactly when some value is
/// `==` to more than half of the channels: `is_majority` of the result of
/// `majority_vote` answers that question.
pub proof fn lemma_majority_iff_strict_majority_eq<T: Clone + PartialEq>(
    s: Seq<T>,
    r: VoteResult<T>,
)
    requires
        lawful_eq::<T>(),
        vote_outcome_eq(s, r),
    ensures
        !(r is NoMajority) <==> exists|v: T| eq_count(s, v) > s.len() / 2,
{
    match r {
        VoteResult::Unanimous(w) => {
            let i = choose|i: int|
                0 <= i < s.len() && eq_count(s, #[trigger] s[i]) == s.len() && cloned(s[i], w);
            assert(eq_count(s, s[i]) > s.len() / 2);
        },
        VoteResult::Majority(w) => {
            let i = choose|i: int|
                0 <= i < s.len() && s.len() / 2 < eq_count(s, #[trigger] s[i]) < s.len() && cloned(
                    s[i],
                    w,
                );
            assert(eq_count(s, s[i]) > s.len() / 2);
        },
        VoteResult::NoMajority => {
            if exists|v: T| eq_count(s, v) > s.len() / 2 {
                let v = choose|v: T| eq_count(s, v) > s.len() / 2;
                let k = lemma_eq_count_witness(s, v);
                lemma_eq_count_equal_values(s, s[k], v);
                assert(eq_count(s, s[k]) <= s.len() / 2);
            }
        },
    }
}

/// A vote outlasts faulty channels as long as they are fewer than half:
/// when more than half of the channel values equal `v`, the vote reaches a
/// majority and its value is a clone of `v`.
pub proof fn lemma_vote_tolerates_faults<T: Clone>(s: Seq<T>, r: VoteResult<T>, v: T)
    requires
        vote_outcome(s, r),
        occurrences(s, v) > s.len() / 2,
    ensures
        r !is NoMajority,
        match r {
            VoteResult::Unanimous(w) => cloned(v, w),
            VoteResult::Majority(w) => cloned(v, w),
            VoteResult::NoMajority => true,
        },
{
    let j = lemma_occurrences_witness(s, v);
    match r {
        VoteResult::Unanimous(w) => {
            let i = choose|i: int|
                0 <= i < s.len() && occurrences(s, #[trigger] s[i]) == s.len() && cloned(s[i], w);
            lemma_majority_unique(s, s[i], v);
        },
        VoteResult::Majority(w) => {
            let i = choose|i: int|
                0 <= i < s.len() && s.len() / 2 < occurrences(s, #[trigger] s[i]) < s.len()
                    && cloned(s[i], w);
            lemma_majority_unique(s, s[i], v);
        },
        VoteResult::NoMajority => {
            assert(occurrences(s, s[j]) <= s.len() / 2);
        },
    }
}

impl<T> VoteResult<T> {
    /// Whether some value was agreed by more than half of the channels.
    pub fn is_majority(&self) -> (r: bool)
        ensures
            r == !(self is NoMajority),
    {
        match self {
            VoteResult::NoMajority => false,
            _ => true,
        }
    }

    /// The agreed value, or `None` when no majority was reached.
    pub fn value(&self) -> (r: Option<&T>)
        ensures
            r == match self {
                VoteResult::Unanimous(v) => Some(v),
                VoteResult::Majority(v) => Some(v),
                VoteResult::NoMajority => None,
            },
    {
        match self {
            VoteResult::Unanimous(v) => Some(v),
            VoteResult::Majority(v) => Some(v),
            VoteResult::NoMajority => None,
        }
    }
}

impl<T, const N: usize> Replicated<T, N> {
    /// The replicated value made of the `N` channel outputs.
    pub fn new(channels: [T; N]) -> (r: Self)
        ensures
            r@ == channels@,
    {
        Replicated { channels }
    }

    /// The number of channels, `N`.
    pub fn len(&self) -> (r: usize)
        ensures
            r == N,
            r == self@.len(),
    {
        N
    }

    /// Whether there are no channels (`N == 0`).
    pub fn is_empty(&self) -> (r: bool)
        ensures
            r == (N == 0),
    {
        N == 0
    }

    /// The value of channel `i`; `i` must be below `N`.
    pub fn channel(&self, i: usize) -> (r: &T)
        requires
            i < N,
        ensures
            *r == self@[i as int],
    {
        &self.channels[i]
    }
}

impl<T: Clone + PartialEq, const N: usize> Replicated<T, N> {
    /// The value-based majority vote.
    ///
    /// For a type whose `==` is an equivalence relation, values are counted
    /// by `==`: the result is `Unanimous` (a copy of a channel value) when
    /// every channel is `==` to it, `Majority` (a copy of a channel value)
    /// when more than `N / 2` channels but not all are, and `NoMajority`
    /// otherwise, in particular for `N == 0` and for an exact tie on an even
    /// `N`. For a type whose `==` is equality of values this is the count of
    /// equal values.
    pub fn majority_vote(&self) -> (r: VoteResult<T>)
        ensures
            N == 0 ==> r is NoMajority,
            lawful_eq::<T>() ==> vote_outcome_eq(self@, r),
            obeys_concrete_eq::<T>() ==> vote_outcome(self@, r),
    {
        if N == 0 {
            return VoteResult::NoMajority;
        }
        let ghost s = self@;
        let ghost lw = lawful_eq::<T>();
        let mut best_count: usize = 0;
        let mut best_idx: usize = 0;
        let mut i: usize = 0;
        while i < N
            invariant
                s == self@,
                s.len() == N,
                i <= N,
                best_count <= N,
                i == 0 ==> best_count == 0,
                i > 0 ==> best_idx < i && best_count >= 1,
                lw == lawful_eq::<T>(),
                lw ==> i > 0 ==> best_count == tail_eq_count(s, best_idx as int),
                lw ==> forall|k: int| 0 <= k < i ==> tail_eq_count(s, k) <= best_count,
            decreases N - i,
        {
            let mut count: usize = 1;
            let mut j: usize = i + 1;
            proof {
                if lw {
                    let v = s[i as int];
                    lemma_eq_count_extend(s, i as int, i as int, v);
                    assert(s.subrange(i as int, i as int) =~= Seq::<T>::empty());
                    assert(v.eq_spec(&v));
                }
            }
            while j < N
                invariant
                    s == self@,
                    s.len() == N,
                    i < j <= N,
                    1 <= count <= j - i,
                    lw == lawful_eq::<T>(),
                    lw ==> count == eq_count(s.subrange(i as int, j as int), s[i as int]),
                decreases N - j,
            {
                proof {
                    lemma_eq_count_extend(s, i as int, j as int, s[i as int]);
                }
                if self.channels[j].eq(&self.channels[i]) {
                    count = count + 1;
                }
                j = j + 1;
            }
            proof {
                assert(s.subrange(i as int, N as int) == s.subrange(i as int, j as int));
            }
            if count > best_count {
                best_count = count;
                best_idx = i;
            }
            i = i + 1;
        }
        let threshold = N / 2;
        proof {
            if lw {
                let b = best_idx as int;
                lemma_eq_count_split(s, b, s[b]);
                assert(s.subrange(0, N as int) =~= s);
                assert forall|k: int| 0 <= k < N implies eq_count(s, #[trigger] s[k])
                    <= best_count by {
                    let f = lemma_first_eq(s, k);
                    lemma_eq_count_split(s, f, s[k]);
                    lemma_eq_count_equal_values(s.subrange(f, N as int), s[f], s[k]);
                    assert(tail_eq_count(s, f) <= best_count);
                }
                assert(eq_count(s, s[b]) <= best_count);
                assert(eq_count(s, s[b]) == best_count);
                lemma_eq_count_bound(s, s[b]);
            }
        }
        let r = if best_count == N {
            let w = self.channels[best_idx].clone();
            VoteResult::Unanimous(w)
        } else if best_count > threshold {
            let w = self.channels[best_idx].clone();
            VoteResult::Majority(w)
        } else {
            VoteResult::NoMajority
        };
        proof {
            if obeys_concrete_eq::<T>() {
                lemma_concrete_eq_is_lawful::<T>();
                lemma_vote_outcome_concrete(s, r);
            }
        }
        r
    }
}

/// `p` is the channel values `chs`, each cloned, in the order that sorting
/// gives them: a permutation of clones of the channels, sorted when the
/// type's `Ord` is a total order.
pub open spec fn sorted_clones<T: Ord + Clone>(chs: Seq<T>, p: Seq<T>) -> bool {
    &&& p.len() == chs.len()
    &&& exists|c: Seq<T>|
        #![trigger c.to_multiset()]
        c.len() == chs.len() && (forall|i: int| 0 <= i < c.len() ==> cloned(chs[i], #[trigger] c[i]))
            && p.to_multiset() == c.to_multiset()
    &&& total_order::<T>() ==> sorted(p)
}

/// `r` is a median of the channel values `chs`: a clone of the element at
/// index `len / 2` of a sorted arrangement of clones of them.
pub open spec fn median_of<T: Ord + Clone>(chs: Seq<T>, r: T) -> bool {
    exists|p: Seq<T>| sorted_clones(chs, p) && cloned(#[trigger] p[(chs.len() / 2) as int], r)
}

impl<T: Ord + Clone, const N: usize> Replicated<T, N> {
    /// A sorted copy of the channel values.
    fn sorted_copy(&self) -> (v: Vec<T>)
        ensures
            sorted_clones(self@, v@),
    {
        let mut v: Vec<T> = Vec::new();
        let mut i: usize = 0;
        while i < N
            invariant
                i <= N,
                self@.len() == N,
                v@.len() == i,
                forall|m: int| 0 <= m < i ==> cloned(self@[m], #[trigger] v@[m]),
            decreases N - i,
        {
            let c = self.channels[i].clone();
            v.push(c);
            i = i + 1;
        }
        let ghost c = v@;
        verified_sort(v.as_mut_slice());
        proof {
            broadcast use vstd::seq_lib::group_to_multiset_ensures;

            assert(v@.to_multiset() == c.to_multiset());
            assert(v@.to_multiset().len() == c.to_multiset().len());
            assert(c.len() == self@.len() && (forall|m: int|
                0 <= m < c.len() ==> cloned(self@[m], #[trigger] c[m])) && v@.to_multiset()
                == c.to_multiset());
        }
        v
    }

    /// The median: the element at index `N / 2` of the sorted channel
    /// values (the upper middle one for even `N`). For odd `N` it is robust
    /// against `(N - 1) / 2` outlying channels. `N` must be positive.
    pub fn median_vote(&self) -> (r: T)
        requires
            N > 0,
        ensures
            median_of(self@, r),
    {
        let v = self.sorted_copy();
        let r = v[N / 2].clone();
        assert(sorted_clones(self@, v@) && cloned(v@[(N / 2) as int], r));
        r
    }

    /// The `k`-th smallest channel value (0-based): the element at index `k`
    /// of the sorted channel values. `k` must be below `N`.
    pub fn order_statistic(&self, k: usize) -> (r: T)
        requires
            k < N,
        ensures
            exists|p: Seq<T>| sorted_clones(self@, p) && cloned(#[trigger] p[k as int], r),
    {
        let v = self.sorted_copy();
        let r = v[k].clone();
        assert(sorted_clones(self@, v@) && cloned(v@[k as int], r));
        r
    }
}

/// Bit `b` of `w` is set.
pub open spec fn bit_set(w: u64, b: u32) -> bool {
    (w >> b) & 1 == 1
}

/// How many of the first `n` words have bit `b` set.
pub open spec fn ones_at(ws: Seq<u64>, b: u32, n: int) -> nat
    decreases n,
{
    if n <= 0 {
        0
    } else {
        ones_at(ws, b, n - 1) + if bit_set(ws[n - 1], b) {
            1nat
        } else {
            0nat
        }
    }
}

/// `w` holds, at each of its 64 bit positions, the bit that more than half
/// of the words `ws` hold there (a tie gives 0).
pub open spec fn is_bit_majority(ws: Seq<u64>, w: u64) -> bool {
    forall|b: u32| b < 64 ==> (#[trigger] bit_set(w, b) <==> 2 * ones_at(ws, b, ws.len() as int) > ws.len())
}

/// Setting bit `bit` changes that bit only.
proof fn lemma_set_bit(acc: u64, bit: u32, b: u32)
    requires
        bit < 64,
        b < 64,
    ensures
        bit_set(acc | (1u64 << bit), b) == (b == bit || bit_set(acc, b)),
{
    assert(((acc | (1u64 << bit)) >> b) & 1 == 1 <==> (b == bit || (acc >> b) & 1 == 1))
        by (bit_vector)
        requires
            bit < 64,
            b < 64,
    ;
}

/// No bit of zero is set.
proof fn lemma_zero_bits(b: u32)
    requires
        b < 64,
    ensures
        !bit_set(0, b),
{
    assert((0u64 >> b) & 1 != 1) by (bit_vector)
        requires
            b < 64,
    ;
}

/// An unsigned integer type that widens losslessly to `u64` and narrows
/// back from it by keeping the low bits.
pub trait BitNarrow: Copy {
    /// The value `v` truncated to `Self`.
    spec fn narrow_spec(v: u64) -> Self;

    /// The value `self` as a `u64`.
    spec fn widen_spec(self) -> u64;

    /// Converts `v` to `Self` by truncation.
    fn bit_narrow(v: u64) -> (r: Self)
        ensures
            r == Self::narrow_spec(v),
    ;

    /// Converts `self` to `u64`, keeping its value.
    fn bit_widen(self) -> (r: u64)
        ensures
            r == self.widen_spec(),
    ;
}

impl BitNarrow for u8 {
    open spec fn narrow_spec(v: u64) -> u8 {
        v as u8
    }

    fn bit_narrow(v: u64) -> (r: u8) {
        v as u8
    }

    open spec fn widen_spec(self) -> u64 {
        self as u64
    }

    fn bit_widen(self) -> (r: u64) {
        self as u64
    }
}

impl BitNarrow for u16 {
    open spec fn narrow_spec(v: u64) -> u16 {
        v as u16
    }

    fn bit_narrow(v: u64) -> (r: u16) {
        v as u16
    }

    open spec fn widen_spec(self) -> u64 {
        self as u64
    }

    fn bit_widen(self) -> (r: u64) {
        self as u64
    }
}

impl BitNarrow for u32 {
    open spec fn narrow_spec(v: u64) -> u32 {
        v as u32
    }

    fn bit_narrow(v: u64) -> (r: u32) {
        v as u32
    }

    open spec fn widen_spec(self) -> u64 {
        self as u64
    }

    fn bit_widen(self) -> (r: u64) {
        self as u64
    }
}

impl BitNarrow for u64 {
    open spec fn narrow_spec(v: u64) -> u64 {
        v
    }

    fn bit_narrow(v: u64) -> (r: u64) {
        v
    }

    open spec fn widen_spec(self) -> u64 {
        self
    }

    fn bit_widen(self) -> (r: u64) {
        self
    }
}

impl<T: Copy + Into<u64> + BitNarrow, const N: usize> Replicated<T, N> {
    /// The channel values widened to `u64`.
    pub open spec fn widened(&self) -> Seq<u64> {
        Seq::new(N as nat, |i: int| self@[i].widen_spec())
    }

    /// The bit-by-bit majority vote: each channel value is widened to `u64`,
    /// each of the 64 bits of the result is the bit that more than half of the
    /// channels hold there (a tie gives 0), and the result is narrowed back to
    /// `T`.
    pub fn bitwise_vote(&self) -> (r: T)
        ensures
            exists|w: u64|
                is_bit_majority(self.widened(), w) && r == T::narrow_spec(w),
    {
        let ghost ws = self.widened();
        let mut acc: u64 = 0;
        let mut bit: u32 = 0;
        proof {
            assert forall|b: u32| 0 <= b < 64 implies !#[trigger] bit_set(acc, b) by {
                lemma_zero_bits(b);
            }
        }
        while bit < 64
            invariant
                bit <= 64,
                ws == self.widened(),
                ws.len() == N,
                self@.len() == N,
                forall|b: u32|
                    b < bit ==> (#[trigger] bit_set(acc, b) <==> 2 * ones_at(ws, b, N as int) > N),
                forall|b: u32| bit <= b < 64 ==> !#[trigger] bit_set(acc, b),
            decreases 64 - bit,
        {
            let mut zeros: usize = 0;
            let mut ones: usize = 0;
            let mut i: usize = 0;
            while i < N
                invariant
                    i <= N,
                    bit < 64,
                    ws == self.widened(),
                    ws.len() == N,
                    self@.len() == N,
                    ones + zeros == i,
                    ones == ones_at(ws, bit, i as int),
                decreases N - i,
            {
                let w: u64 = self.channels[i].bit_widen();
                if (w >> bit) & 1 == 1 {
                    ones = ones + 1;
                } else {
                    zeros = zeros + 1;
                }
                i = i + 1;
            }
            let ghost old_acc = acc;
            if ones > zeros {
                acc = acc | (1u64 << bit);
            }
            proof {
                assert forall|b: u32| b < 64 implies #[trigger] bit_set(acc, b) == (if b == bit {
                    ones > zeros
                } else {
                    bit_set(old_acc, b)
                }) by {
                    if ones > zeros {
                        lemma_set_bit(old_acc, bit, b);
                    }
                }
            }
            bit = bit + 1;
        }
        let r = T::bit_narrow(acc);
        assert(is_bit_majority(ws, acc));
        r
    }
}

/// In a sorted sequence of which more than half of the elements equal `v`,
/// the element at the middle index `len / 2` is `v`.
pub proof fn lemma_middle_of_sorted_majority<T: Ord>(p: Seq<T>, v: T)
    requires
        total_order::<T>(),
        obeys_concrete_eq::<T>(),
        sorted(p),
        occurrences(p, v) > p.len() / 2,
    ensures
        p[(p.len() / 2) as int] == v,
{
    reveal(obeys_concrete_eq);
    lemma_total_order::<T>();
    lemma_sorted_pairwise(p);
    lemma_occurrences_bound(p, v);
    let n = p.len() as int;
    let m = n / 2;
    let x = p[m];
    if x != v {
        if leq(x, v) {
            // Nothing up to the middle equals `v`.
            assert forall|k: int| 0 <= k < m + 1 implies #[trigger] p.subrange(0, m + 1)[k] != v by {
                if k < m {
                    assert(leq(p[k], p[m]));
                }
                if p[k] == v {
                    assert(same(x, v));
                }
            }
            lemma_occurrences_none(p.subrange(0, m + 1), v);
            lemma_occurrences_split(p, m + 1, v);
            lemma_occurrences_bound(p.subrange(m + 1, n), v);
        } else {
            assert(leq(v, x));
            // Nothing from the middle on equals `v`.
            assert forall|k: int| 0 <= k < n - m implies #[trigger] p.subrange(m, n)[k] != v by {
                if k > 0 {
                    assert(leq(p[m], p[m + k]));
                }
                if p[m + k] == v {
                    assert(same(x, v));
                }
            }
            lemma_occurrences_none(p.subrange(m, n), v);
            lemma_occurrences_split(p, m, v);
            lemma_occurrences_bound(p.subrange(0, m), v);
        }
    }
}

/// The median vote outlasts faulty channels as long as they are fewer than
/// half: when more than half of the channel values equal `v`, and cloning
/// copies a value exactly, the median of the channels is `v`.
pub proof fn lemma_median_tolerates_faults<T: Ord + Clone>(chs: Seq<T>, p: Seq<T>, v: T)
    requires
        total_order::<T>(),
        obeys_concrete_eq::<T>(),
        forall|x: T, y: T| #[trigger] cloned(x, y) ==> x == y,
        sorted_clones(chs, p),
        occurrences(chs, v) > chs.len() / 2,
    ensures
        p[(p.len() / 2) as int] == v,
{
    let c = choose|c: Seq<T>|
        #![trigger c.to_multiset()]
        c.len() == chs.len() && (forall|i: int| 0 <= i < c.len() ==> cloned(chs[i], #[trigger] c[i]))
            && p.to_multiset() == c.to_multiset();
    assert forall|i: int| 0 <= i < c.len() implies c[i] == chs[i] by {
        assert(cloned(chs[i], c[i]));
    }
    assert(c =~= chs);
    lemma_occurrences_multiset(p, v);
    lemma_occurrences_multiset(chs, v);
    lemma_middle_of_sorted_majority(p, v);
}

/// Agreeing at bit `k - 1` and above `k - 1` is agreeing from `k - 1` on.
proof fn lemma_shift_step(x: u64, y: u64, k: u64)
    by (bit_vector)
    requires
        1 <= k <= 64,
        x >> k == y >> k,
        (x >> ((k - 1) as u64)) & 1 == (y >> ((k - 1) as u64)) & 1,
    ensures
        x >> ((k - 1) as u64) == y >> ((k - 1) as u64),
{
}

/// Two words that agree at every bit agree from every bit `k` on.
proof fn lemma_same_bits(x: u64, y: u64, k: u64)
    requires
        k <= 64,
        forall|b: u32| b < 64 ==> (#[trigger] bit_set(x, b) <==> bit_set(y, b)),
    ensures
        x >> k == y >> k,
    decreases 64 - k,
{
    if k == 64 {
        assert(x >> 64u64 == 0 && y >> 64u64 == 0) by (bit_vector);
    } else {
        lemma_same_bits(x, y, (k + 1) as u64);
        let b = k as u32;
        assert(bit_set(x, b) <==> bit_set(y, b));
        assert((x >> b) & 1 == 1 <==> (x >> k) & 1 == 1) by (bit_vector)
            requires
                b == k,
        ;
        assert((y >> b) & 1 == 1 <==> (y >> k) & 1 == 1) by (bit_vector)
            requires
                b == k,
        ;
        assert((x >> k) & 1 == (y >> k) & 1) by (bit_vector)
            requires
                (x >> k) & 1 == 1 <==> (y >> k) & 1 == 1,
        ;
        lemma_shift_step(x, y, (k + 1) as u64);
    }
}

/// The count of set bits at position `b` against the count of `v`: where
/// `v` has the bit, each copy of `v` counts; where it has not, no copy does.
proof fn lemma_ones_and_copies(ws: Seq<u64>, b: u32, n: int, v: u64)
    requires
        0 <= n <= ws.len(),
    ensures
        bit_set(v, b) ==> ones_at(ws, b, n) >= occurrences(ws.take(n), v),
        !bit_set(v, b) ==> ones_at(ws, b, n) + occurrences(ws.take(n), v) <= n,
    decreases n,
{
    if n > 0 {
        lemma_ones_and_copies(ws, b, n - 1, v);
        assert(ws.take(n).drop_last() =~= ws.take(n - 1));
        lemma_occurrences_bound(ws.take(n - 1), v);
    } else {
        assert(ws.take(0) =~= Seq::<u64>::empty());
    }
}

/// Bitwise voting outlasts faulty channels too: when more than half of the
/// widened channel values equal `v`, the bit majority is `v` itself.
pub proof fn lemma_bit_majority_tolerates_faults(ws: Seq<u64>, w: u64, v: u64)
    requires
        is_bit_majority(ws, w),
        occurrences(ws, v) > ws.len() / 2,
    ensures
        w == v,
{
    let n = ws.len() as int;
    assert(ws.take(n) =~= ws);
    assert forall|b: u32| b < 64 implies (#[trigger] bit_set(w, b) <==> bit_set(v, b)) by {
        lemma_ones_and_copies(ws, b, n, v);
    }
    lemma_same_bits(w, v, 0);
    assert(w >> 0u64 == w && v >> 0u64 == v) by (bit_vector);
}

/// The median vote rejects outliers: when more than half of the channel
/// values equal `v` and cloning copies a value exactly, the median that the
/// vote returns is `v`, whatever the other channels hold.
pub proof fn lemma_median_rejects_outliers<T: Ord + Clone>(chs: Seq<T>, r: T, v: T)
    requires
        total_order::<T>(),
        obeys_concrete_eq::<T>(),
        forall|x: T, y: T| #[trigger] cloned(x, y) ==> x == y,
        median_of(chs, r),
        occurrences(chs, v) > chs.len() / 2,
    ensures
        r == v,
{
    let p = choose|p: Seq<T>| sorted_clones(chs, p) && cloned(#[trigger] p[(chs.len() / 2) as int], r);
    lemma_median_tolerates_faults(chs, p, v);
    assert(cloned(p[(p.len() / 2) as int], r));
}

/// Sorting gives one arrangement only: two sorted arrangements of clones of
/// the same channel values are equal, when the order is total with equality
/// as identity and cloning copies a value exactly.
pub proof fn lemma_sorted_clones_unique<T: Ord + Clone>(chs: Seq<T>, p: Seq<T>, q: Seq<T>)
    requires
        total_order::<T>(),
        obeys_concrete_eq::<T>(),
        forall|x: T, y: T| #[trigger] cloned(x, y) ==> x == y,
        sorted_clones(chs, p),
        sorted_clones(chs, q),
    ensures
        p == q,
{
    reveal(obeys_concrete_eq);
    lemma_total_order::<T>();
    let cp = choose|c: Seq<T>|
        #![trigger c.to_multiset()]
        c.len() == chs.len() && (forall|i: int| 0 <= i < c.len() ==> cloned(chs[i], #[trigger] c[i]))
            && p.to_multiset() == c.to_multiset();
    let cq = choose|c: Seq<T>|
        #![trigger c.to_multiset()]
        c.len() == chs.len() && (forall|i: int| 0 <= i < c.len() ==> cloned(chs[i], #[trigger] c[i]))
            && q.to_multiset() == c.to_multiset();
    assert forall|i: int| 0 <= i < cp.len() implies cp[i] == chs[i] by {
        assert(cloned(chs[i], cp[i]));
    }
    assert forall|i: int| 0 <= i < cq.len() implies cq[i] == chs[i] by {
        assert(cloned(chs[i], cq[i]));
    }
    assert(cp =~= chs);
    assert(cq =~= chs);
    let le = |a: T, b: T| leq(a, b);
    assert(vstd::relations::total_ordering(le)) by {
        assert forall|x: T| #[trigger] le(x, x) by {
            assert(leq(x, x) || leq(x, x));
        }
        assert forall|x: T, y: T| #[trigger] le(x, y) && #[trigger] le(y, x) implies x == y by {
            assert(leq(x, y) && leq(y, x));
            assert(same(x, y));
            assert(x.eq_spec(&y));
        }
        assert forall|x: T, y: T, z: T| #[trigger] le(x, y) && #[trigger] le(y, z) implies le(
            x,
            z,
        ) by {
            assert(leq(x, y) && leq(y, z));
        }
        assert forall|x: T, y: T| #[trigger] le(x, y) || #[trigger] le(y, x) by {
            assert(leq(x, y) || leq(y, x));
        }
    }
    lemma_sorted_pairwise(p);
    lemma_sorted_pairwise(q);
    assert(vstd::relations::sorted_by(p, le)) by {
        assert forall|i: int, j: int| 0 <= i < j < p.len() implies #[trigger] le(p[i], p[j]) by {
            assert(leq(p[i], p[j]));
        }
    }
    assert(vstd::relations::sorted_by(q, le)) by {
        assert forall|i: int, j: int| 0 <= i < j < q.len() implies #[trigger] le(q[i], q[j]) by {
            assert(leq(q[i], q[j]));
        }
    }
    vstd::seq_lib::lemma_sorted_unique(p, q, le);
}

/// The median is the middle order statistic: when the order is total with
/// equality as identity and cloning copies a value exactly, what
/// `median_vote` returns equals what `order_statistic(len / 2)` returns.
pub proof fn lemma_median_is_middle_order_statistic<T: Ord + Clone>(chs: Seq<T>, r: T, s: T)
    requires
        total_order::<T>(),
        obeys_concrete_eq::<T>(),
        forall|x: T, y: T| #[trigger] cloned(x, y) ==> x == y,
        median_of(chs, r),
        exists|p: Seq<T>| sorted_clones(chs, p) && cloned(#[trigger] p[(chs.len() / 2) as int], s),
    ensures
        r == s,
{
    let p = choose|p: Seq<T>| sorted_clones(chs, p) && cloned(#[trigger] p[(chs.len() / 2) as int], r);
    let q = choose|p: Seq<T>| sorted_clones(chs, p) && cloned(#[trigger] p[(chs.len() / 2) as int], s);
    lemma_sorted_clones_unique(chs, p, q);
    assert(cloned(p[(chs.len() / 2) as int], r));
    assert(cloned(q[(chs.len() / 2) as int], s));
}

/// A vote reports a majority exactly when some value is held by more than
/// half of the channels: `is_majority` of the result of `majority_vote`
/// answers that question.
pub proof fn lemma_majority_iff_strict_majority<T: Clone>(s: Seq<T>, r: VoteResult<T>)
    requires
        vote_outcome(s, r),
    ensures
        !(r is NoMajority) <==> exists|v: T| occurrences(s, v) > s.len() / 2,
{
    match r {
        VoteResult::Unanimous(w) => {
            let i = choose|i: int|
                0 <= i < s.len() && occurrences(s, #[trigger] s[i]) == s.len() && cloned(s[i], w);
            assert(occurrences(s, s[i]) > s.len() / 2);
        },
        VoteResult::Majority(w) => {
            let i = choose|i: int|
                0 <= i < s.len() && s.len() / 2 < occurrences(s, #[trigger] s[i]) < s.len()
                    && cloned(s[i], w);
            assert(occurrences(s, s[i]) > s.len() / 2);
        },
        VoteResult::NoMajority => {
            if exists|v: T| occurrences(s, v) > s.len() / 2 {
                let v = choose|v: T| occurrences(s, v) > s.len() / 2;
                lemma_vote_tolerates_faults(s, r, v);
            }
        },
    }
}

} // verus!
