//! Majority, median and bitwise voting over redundant channels.

use tpt_formal_lab::redundancy::vote::{Replicated, VoteResult};

#[test]
fn unanimous_vote() {
    let r = Replicated::new([5u8, 5u8, 5u8]);
    assert!(matches!(r.majority_vote(), VoteResult::Unanimous(5)));
    assert_eq!(r.majority_vote().value(), Some(&5u8));
}

#[test]
fn majority_vote_detects_plurality() {
    let r = Replicated::new([5u8, 5u8, 9u8]);
    assert!(matches!(r.majority_vote(), VoteResult::Majority(5)));
    assert!(r.majority_vote().is_majority());
}

#[test]
fn no_majority_on_tie() {
    let r = Replicated::new([1u8, 2u8]);
    assert!(matches!(r.majority_vote(), VoteResult::NoMajority));
    assert!(!r.majority_vote().is_majority());
    assert_eq!(r.majority_vote().value(), None);
}

#[test]
fn even_n_exact_tie_is_no_majority() {
    // Two groups of two — neither reaches N/2 + something.
    let r = Replicated::new([1u32, 1u32, 2u32, 2u32]);
    assert!(matches!(r.majority_vote(), VoteResult::NoMajority));
}

#[test]
fn even_n_with_majority() {
    let r = Replicated::new([1u32, 1u32, 1u32, 2u32]);
    assert!(matches!(r.majority_vote(), VoteResult::Majority(1)));
}

#[test]
fn empty_replication_is_no_majority() {
    let r: Replicated<u8, 0> = Replicated::new([]);
    assert!(matches!(r.majority_vote(), VoteResult::NoMajority));
    assert!(r.is_empty());
}

#[test]
fn median_vote_odd_n() {
    let r = Replicated::new([3u32, 1u32, 2u32, 4u32, 9u32]);
    // sorted: [1, 2, 3, 4, 9]; middle index 2 → 3
    assert_eq!(r.median_vote(), 3u32);
}

#[test]
fn median_rejects_outlier() {
    let r = Replicated::new([10u32, 10u32, 10u32, 10u32, 999u32]);
    assert_eq!(r.median_vote(), 10u32);
}

#[test]
fn median_vote_known_array() {
    let r = Replicated::new([5u32, 1u32, 3u32]);
    assert_eq!(r.median_vote(), 3u32);
}

#[test]
fn order_statistic_matches() {
    let r = Replicated::new([3u32, 1u32, 2u32]);
    assert_eq!(r.order_statistic(0), 1u32);
    assert_eq!(r.order_statistic(1), 2u32);
    assert_eq!(r.order_statistic(2), 3u32);
}

#[test]
fn bitwise_vote_majority_bits() {
    // Two channels set bits 1 and 3; one clears bit 3.
    let r = Replicated::new([0b1010u8, 0b1010u8, 0b0010u8]);
    assert_eq!(r.bitwise_vote(), 0b1010u8);
}

#[test]
fn bitwise_vote_unanimous_passthrough() {
    let r = Replicated::new([0b1100u8, 0b1100u8, 0b1100u8]);
    assert_eq!(r.bitwise_vote(), 0b1100u8);
}

#[test]
fn bitwise_vote_hand_computed_pattern() {
    // Bits layout:        ch0 = 0b1011_0010  (178)
    //                     ch1 = 0b1001_0011  (147)
    //                     ch2 = 0b1010_0010  (162)
    // Per-bit majority:   bit7=1 bit6=0 bit5=1 bit4=1 bit3=0 bit2=0 bit1=1 bit0=0
    //                   = 0b1011_0010  (178)
    let r = Replicated::new([0b1011_0010u8, 0b1001_0011u8, 0b1010_0010u8]);
    assert_eq!(r.bitwise_vote(), 0b1011_0010u8);
}

#[test]
fn bitwise_vote_even_n_tie_favors_zeros() {
    let r = Replicated::new([0b1111_1111u8, 0b0000_0000u8]);
    assert_eq!(r.bitwise_vote(), 0b0000_0000u8);
}

#[test]
fn bitwise_vote_wider_type() {
    let r = Replicated::new([0xFFFFu16, 0xFFFFu16, 0x0u16]);
    assert_eq!(r.bitwise_vote(), 0xFFFFu16);
}

// ── Further cases ──────────────────────────────────────────────────────────

#[test]
fn channels_and_length() {
    let r = Replicated::new([4i64, -2, 7]);
    assert_eq!(r.len(), 3);
    assert!(!r.is_empty());
    assert_eq!(*r.channel(1), -2);
}

#[test]
fn majority_needs_more_than_half() {
    // Three of five agree: a majority but not unanimity.
    let r = Replicated::new([2u8, 7, 2, 9, 2]);
    assert!(matches!(r.majority_vote(), VoteResult::Majority(2)));
    // Two of five agree: no majority even though 2 is the most common.
    let r = Replicated::new([2u8, 7, 2, 9, 3]);
    assert!(matches!(r.majority_vote(), VoteResult::NoMajority));
    // One channel is unanimous with itself.
    let r = Replicated::new([6u8]);
    assert!(matches!(r.majority_vote(), VoteResult::Unanimous(6)));
}

#[test]
fn median_of_even_count_is_upper_middle() {
    // sorted [1, 2, 3, 4]: index 4 / 2 = 2 → 3
    let r = Replicated::new([4u32, 1, 3, 2]);
    assert_eq!(r.median_vote(), 3);
    assert_eq!(r.order_statistic(3), 4);
}

#[test]
fn bitwise_vote_other_widths() {
    let r = Replicated::new([0xF0F0_F0F0u32, 0x0F0F_F0F0u32, 0xF0F0_0000u32]);
    assert_eq!(r.bitwise_vote(), 0xF0F0_F0F0u32);
    let r = Replicated::new([u64::MAX, 1u64, 1u64]);
    assert_eq!(r.bitwise_vote(), 1u64);
}

#[test]
fn median_rejects_outliers_and_picks_middle() {
    assert_eq!(Replicated::new([3u32, 1, 2, 4, 9]).median_vote(), 3);
    assert_eq!(Replicated::new([10u32, 10, 10, 10, 999]).median_vote(), 10);
    assert_eq!(Replicated::new([0u32, 7, 7, 7, 1_000_000]).median_vote(), 7);
}

#[test]
fn is_majority_after_vote() {
    assert!(!Replicated::new([1u8, 2, 3]).majority_vote().is_majority());
    assert!(Replicated::new([1u8, 1, 2]).majority_vote().is_majority());
    assert!(Replicated::new([4u8, 4, 4]).majority_vote().is_majority());
}

#[test]
fn bitwise_vote_u64_high_bits() {
    let r = Replicated::new([
        0x8000_0000_0000_0001u64,
        0x8000_0000_0000_0000u64,
        0x0000_0000_0000_0003u64,
    ]);
    assert_eq!(r.bitwise_vote(), 0x8000_0000_0000_0001u64);
}

/// A reading whose `==` looks at the value only, not at the channel tag.
#[derive(Debug, Clone)]
struct Reading {
    value: u32,
    tag: u8,
}

impl PartialEq for Reading {
    fn eq(&self, other: &Self) -> bool {
        self.value == other.value
    }
}

#[test]
fn majority_vote_counts_by_eq() {
    let r = Replicated::new([
        Reading { value: 7, tag: 0 },
        Reading { value: 7, tag: 1 },
        Reading { value: 3, tag: 2 },
    ]);
    match r.majority_vote() {
        VoteResult::Majority(w) => {
            assert_eq!(w.value, 7);
            assert_eq!(w.tag, 0);
        }
        other => panic!("expected a majority, got {:?}", other),
    }
    let r = Replicated::new([Reading { value: 1, tag: 0 }, Reading { value: 1, tag: 9 }]);
    assert!(matches!(r.majority_vote(), VoteResult::Unanimous(_)));
}
