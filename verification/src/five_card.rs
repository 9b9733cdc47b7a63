//! The five-card evaluator: maps a five-card hand to its dense rank on the
//! 1..=7462 scale, where 1 is a royal flush and 7462 the worst high card.
//!
//! The dense index of a hand is determined by its category (straight flush,
//! four of a kind, ... , high card) and by a combinatorial sub-rank within
//! the category; the layout reproduces the classic fixed category table
//! (10 straight flushes, 156 four of a kinds, 156 full houses, 1277 flushes,
//! 10 straights, 858 three of a kinds, 858 two pairs, 2860 pairs, and 1277
//! high cards).

use vstd::prelude::*;
use crate::card::Card;
use crate::combinatorics::{spec_binom, binom, lemma_binom_monotone, lemma_binom_values};
use crate::combos::distinct_cards;

verus! {

/// How many cards in `s` have value ordinal `v`.
pub open spec fn rank_count(s: Seq<Card>, v: int) -> int
    decreases s.len(),
{
    if s.len() == 0 {
        0
    } else {
        rank_count(s.drop_last(), v) + if s.last().value.index() == v { 1int } else { 0 }
    }
}

/// All cards in `s` share one suit.
pub open spec fn is_flush(s: Seq<Card>) -> bool {
    forall|i: int| 0 <= i < s.len() ==> (#[trigger] s[i]).suit == s[0].suit
}

/// The least value ordinal in `v..13` whose count in `s` is `m`, or 13 when
/// there is none.
pub open spec fn scan_count(s: Seq<Card>, m: int, v: int) -> int
    decreases 13 - v,
{
    if v < 0 || v >= 13 {
        13
    } else if rank_count(s, v) == m {
        v
    } else {
        scan_count(s, m, v + 1)
    }
}

/// The position of value `k` among the twelve values other than `a`,
/// counting upward.
pub open spec fn skip1(k: int, a: int) -> int {
    if k > a { k - 1 } else { k }
}

/// The colexicographic rank of the five-element value set
/// `{v1 < v2 < v3 < v4 < v5}` among all five-element subsets of 0..13.
pub open spec fn colex5(v1: int, v2: int, v3: int, v4: int, v5: int) -> int {
    spec_binom(v5 as nat, 5) + spec_binom(v4 as nat, 4) + spec_binom(v3 as nat, 3)
        + spec_binom(v2 as nat, 2) + v1
}

/// How many of the ten straight value-sets have a colexicographic rank
/// strictly below `c`.
pub open spec fn straights_below(c: int) -> int {
    (if c > 0 { 1int } else { 0 }) + (if c > 5 { 1int } else { 0 })
        + (if c > 20 { 1int } else { 0 }) + (if c > 55 { 1int } else { 0 })
        + (if c > 125 { 1int } else { 0 }) + (if c > 251 { 1int } else { 0 })
        + (if c > 461 { 1int } else { 0 }) + (if c > 791 { 1int } else { 0 })
        + (if c > 792 { 1int } else { 0 }) + (if c > 1286 { 1int } else { 0 })
}

/// The dense rank of a five-card hand: 1 for a royal flush through 7462 for
/// the weakest high card.  Within every category the sub-rank is the
/// combinatorial position of the hand, stronger hands getting smaller dense
/// indices.
#[verifier::opaque]
pub open spec fn spec_rank5(s: Seq<Card>) -> int {
    let q = scan_count(s, 4, 0);
    let t = scan_count(s, 3, 0);
    let p1 = scan_count(s, 2, 0);
    if q < 13 {
        // four of a kind, kicker ordered among the remaining values
        let k = scan_count(s, 1, 0);
        166 - 12 * q - skip1(k, q)
    } else if t < 13 && p1 < 13 {
        // full house: trips value then pair value
        322 - 12 * t - skip1(p1, t)
    } else if t < 13 {
        // three of a kind with two kickers x < y
        let x = scan_count(s, 1, 0);
        let y = scan_count(s, 1, x + 1);
        2467 - 66 * t - spec_binom(skip1(y, t) as nat, 2) as int - skip1(x, t)
    } else if p1 < 13 && scan_count(s, 2, p1 + 1) < 13 {
        // two pair a < b with kicker k
        let p2 = scan_count(s, 2, p1 + 1);
        let k = scan_count(s, 1, 0);
        let kk = k - (if k > p1 { 1int } else { 0 }) - (if k > p2 { 1int } else { 0 });
        3325 - 11 * (spec_binom(p2 as nat, 2) as int + p1) - kk
    } else if p1 < 13 {
        // one pair with three kickers x < y < z
        let x = scan_count(s, 1, 0);
        let y = scan_count(s, 1, x + 1);
        let z = scan_count(s, 1, y + 1);
        6185 - 220 * p1 - spec_binom(skip1(z, p1) as nat, 3) as int
            - spec_binom(skip1(y, p1) as nat, 2) as int - skip1(x, p1)
    } else {
        // five distinct values v1 < ... < v5
        let v1 = scan_count(s, 1, 0);
        let v2 = scan_count(s, 1, v1 + 1);
        let v3 = scan_count(s, 1, v2 + 1);
        let v4 = scan_count(s, 1, v3 + 1);
        let v5 = scan_count(s, 1, v4 + 1);
        let wheel = v4 == 3 && v5 == 12;
        let straight = v5 - v1 == 4 || wheel;
        let high = if wheel { 3 } else { v5 };
        let cx = colex5(v1, v2, v3, v4, v5);
        if is_flush(s) {
            if straight {
                13 - high
            } else {
                1599 - cx + straights_below(cx)
            }
        } else {
            if straight {
                1612 - high
            } else {
                7462 - cx + straights_below(cx)
            }
        }
    }
}

// ---------------------------------------------------------------------------
// Facts about counts and scans
// ---------------------------------------------------------------------------

/// A value's count never exceeds the hand size.
proof fn lemma_rank_count_le_len(s: Seq<Card>, v: int)
    ensures
        0 <= rank_count(s, v) <= s.len(),
    decreases s.len(),
{
    if s.len() > 0 {
        lemma_rank_count_le_len(s.drop_last(), v);
    }
}

/// When a value's count equals the hand size, every card has that value.
proof fn lemma_all_same_value(s: Seq<Card>, v: int)
    requires
        rank_count(s, v) == s.len(),
    ensures
        forall|i: int| 0 <= i < s.len() ==> (#[trigger] s[i]).value.index() == v,
    decreases s.len(),
{
    if s.len() > 0 {
        lemma_rank_count_le_len(s.drop_last(), v);
        lemma_all_same_value(s.drop_last(), v);
        assert forall|i: int| 0 <= i < s.len() implies (#[trigger] s[i]).value.index() == v by {
            if i < s.len() - 1 {
                assert(s[i] == s.drop_last()[i]);
            }
        }
    }
}

/// Five distinct cards cannot all share one value: there are only four suits.
proof fn lemma_no_five_of_a_kind(s: Seq<Card>, v: int)
    requires
        s.len() == 5,
        distinct_cards(s),
    ensures
        rank_count(s, v) < 5,
{
    lemma_rank_count_le_len(s, v);
    if rank_count(s, v) == 5 {
        lemma_all_same_value(s, v);
        // five cards over four suits: two must collide, so two cards are equal
        let s0 = s[0].suit;
        let s1 = s[1].suit;
        let s2 = s[2].suit;
        let s3 = s[3].suit;
        let s4 = s[4].suit;
        assert(s[0].value == s[1].value && s[1].value == s[2].value
            && s[2].value == s[3].value && s[3].value == s[4].value) by {
            assert(s[0].value.index() == v && s[1].value.index() == v
                && s[2].value.index() == v && s[3].value.index() == v
                && s[4].value.index() == v);
        }
        assert(s0 != s1 && s0 != s2 && s0 != s3 && s0 != s4 && s1 != s2 && s1 != s3
            && s1 != s4 && s2 != s3 && s2 != s4 && s3 != s4);
        assert(false);
    }
}

/// The sum of the counts of the values in `a..b`.
spec fn count_sum_range(s: Seq<Card>, a: int, b: int) -> int
    decreases b - a,
{
    if a >= b {
        0
    } else {
        rank_count(s, a) + count_sum_range(s, a + 1, b)
    }
}

proof fn lemma_sum_push(s: Seq<Card>, c: Card, a: int, b: int)
    ensures
        count_sum_range(s.push(c), a, b) == count_sum_range(s, a, b)
            + if a <= c.value.index() < b { 1int } else { 0 },
    decreases b - a,
{
    if a < b {
        assert(s.push(c).drop_last() =~= s);
        assert(s.push(c).last() == c);
        assert(rank_count(s.push(c), a) == rank_count(s, a)
            + if c.value.index() == a { 1int } else { 0 });
        lemma_sum_push(s, c, a + 1, b);
    }
}

proof fn lemma_sum_empty(a: int, b: int)
    ensures
        count_sum_range(Seq::<Card>::empty(), a, b) == 0,
    decreases b - a,
{
    if a < b {
        lemma_sum_empty(a + 1, b);
    }
}

/// The counts of all thirteen values sum to the hand size.
proof fn lemma_count_sum_all(s: Seq<Card>)
    ensures
        count_sum_range(s, 0, 13) == s.len(),
    decreases s.len(),
{
    if s.len() == 0 {
        assert(s =~= Seq::<Card>::empty());
        lemma_sum_empty(0, 13);
    } else {
        let pre = s.drop_last();
        lemma_count_sum_all(pre);
        assert(pre.push(s.last()) =~= s);
        lemma_sum_push(pre, s.last(), 0, 13);
        assert(0 <= s.last().value.index() < 13);
    }
}

proof fn lemma_sum_split(s: Seq<Card>, a: int, b: int, c: int)
    requires
        a <= b <= c,
    ensures
        count_sum_range(s, a, c) == count_sum_range(s, a, b) + count_sum_range(s, b, c),
    decreases b - a,
{
    if a < b {
        lemma_sum_split(s, a + 1, b, c);
    }
}

proof fn lemma_sum_zero_range(s: Seq<Card>, a: int, b: int)
    requires
        forall|v: int| a <= v < b ==> rank_count(s, v) == 0,
    ensures
        count_sum_range(s, a, b) == 0,
    decreases b - a,
{
    if a < b {
        lemma_sum_zero_range(s, a + 1, b);
    }
}

/// What a scan yields: either 13 with no matching value at or above `a`, or
/// the first matching value.
proof fn lemma_scan_props(s: Seq<Card>, m: int, a: int)
    requires
        0 <= a,
    ensures
        a <= 13 ==> a <= scan_count(s, m, a) <= 13,
        a > 13 ==> scan_count(s, m, a) == 13,
        scan_count(s, m, a) == 13 ==> forall|v: int| a <= v < 13 ==> rank_count(s, v) != m,
        scan_count(s, m, a) < 13 ==> ({
            let r = scan_count(s, m, a);
            &&& a <= r < 13
            &&& rank_count(s, r) == m
            &&& forall|v: int| a <= v < r ==> rank_count(s, v) != m
        }),
    decreases 13 - a,
{
    if a < 13 && rank_count(s, a) != m {
        lemma_scan_props(s, m, a + 1);
    }
}

/// In a hand of five distinct cards in which no value shows two, three, or
/// four times, the five chained single-value scans find five strictly
/// increasing values, each occurring exactly once.
proof fn lemma_five_singles(s: Seq<Card>)
    requires
        s.len() == 5,
        distinct_cards(s),
        scan_count(s, 4, 0) == 13,
        scan_count(s, 3, 0) == 13,
        scan_count(s, 2, 0) == 13,
    ensures
        ({
            let v1 = scan_count(s, 1, 0);
            let v2 = scan_count(s, 1, v1 + 1);
            let v3 = scan_count(s, 1, v2 + 1);
            let v4 = scan_count(s, 1, v3 + 1);
            let v5 = scan_count(s, 1, v4 + 1);
            &&& 0 <= v1 < v2 < v3 < v4 < v5 < 13
            &&& rank_count(s, v1) == 1 && rank_count(s, v2) == 1 && rank_count(s, v3) == 1
            &&& rank_count(s, v4) == 1 && rank_count(s, v5) == 1
        }),
{
    lemma_scan_props(s, 4, 0);
    lemma_scan_props(s, 3, 0);
    lemma_scan_props(s, 2, 0);
    assert forall|v: int| 0 <= v < 13 implies rank_count(s, v) == 0 || rank_count(s, v) == 1 by {
        lemma_no_five_of_a_kind(s, v);
        lemma_rank_count_le_len(s, v);
    }
    lemma_count_sum_all(s);

    let v1 = scan_count(s, 1, 0);
    lemma_scan_props(s, 1, 0);
    if v1 == 13 {
        lemma_sum_zero_range(s, 0, 13);
        assert(false);
    }
    lemma_sum_split(s, 0, v1, 13);
    lemma_sum_zero_range(s, 0, v1);
    lemma_sum_split(s, v1, v1 + 1, 13);
    assert(count_sum_range(s, v1, v1 + 1) == rank_count(s, v1));
    assert(count_sum_range(s, v1 + 1, 13) == 4);

    let v2 = scan_count(s, 1, v1 + 1);
    lemma_scan_props(s, 1, v1 + 1);
    if v2 == 13 {
        lemma_sum_zero_range(s, v1 + 1, 13);
        assert(false);
    }
    lemma_sum_split(s, v1 + 1, v2, 13);
    lemma_sum_zero_range(s, v1 + 1, v2);
    lemma_sum_split(s, v2, v2 + 1, 13);
    assert(count_sum_range(s, v2, v2 + 1) == rank_count(s, v2));
    assert(count_sum_range(s, v2 + 1, 13) == 3);

    let v3 = scan_count(s, 1, v2 + 1);
    lemma_scan_props(s, 1, v2 + 1);
    if v3 == 13 {
        lemma_sum_zero_range(s, v2 + 1, 13);
        assert(false);
    }
    lemma_sum_split(s, v2 + 1, v3, 13);
    lemma_sum_zero_range(s, v2 + 1, v3);
    lemma_sum_split(s, v3, v3 + 1, 13);
    assert(count_sum_range(s, v3, v3 + 1) == rank_count(s, v3));
    assert(count_sum_range(s, v3 + 1, 13) == 2);

    let v4 = scan_count(s, 1, v3 + 1);
    lemma_scan_props(s, 1, v3 + 1);
    if v4 == 13 {
        lemma_sum_zero_range(s, v3 + 1, 13);
        assert(false);
    }
    lemma_sum_split(s, v3 + 1, v4, 13);
    lemma_sum_zero_range(s, v3 + 1, v4);
    lemma_sum_split(s, v4, v4 + 1, 13);
    assert(count_sum_range(s, v4, v4 + 1) == rank_count(s, v4));
    assert(count_sum_range(s, v4 + 1, 13) == 1);

    let v5 = scan_count(s, 1, v4 + 1);
    lemma_scan_props(s, 1, v4 + 1);
    if v5 == 13 {
        lemma_sum_zero_range(s, v4 + 1, 13);
        assert(false);
    }
}

// ---------------------------------------------------------------------------
// The dense rank falls in the category its shape dictates
// ---------------------------------------------------------------------------

/// The number of values in `a..b` occurring exactly once.
spec fn ones_range(s: Seq<Card>, a: int, b: int) -> int
    decreases b - a,
{
    if a >= b {
        0
    } else {
        (if rank_count(s, a) == 1 { 1int } else { 0 }) + ones_range(s, a + 1, b)
    }
}

proof fn lemma_ones_split(s: Seq<Card>, a: int, b: int, c: int)
    requires
        a <= b <= c,
    ensures
        ones_range(s, a, c) == ones_range(s, a, b) + ones_range(s, b, c),
    decreases b - a,
{
    if a < b {
        lemma_ones_split(s, a + 1, b, c);
    }
}

/// Where every count is at most one, the card total equals the number of
/// once-occurring values.
proof fn lemma_sum_eq_ones(s: Seq<Card>, a: int, b: int)
    requires
        forall|v: int| a <= v < b ==> 0 <= #[trigger] rank_count(s, v) <= 1,
    ensures
        count_sum_range(s, a, b) == ones_range(s, a, b),
    decreases b - a,
{
    if a < b {
        lemma_sum_eq_ones(s, a + 1, b);
    }
}

proof fn lemma_sum_nonneg(s: Seq<Card>, a: int, b: int)
    ensures
        count_sum_range(s, a, b) >= 0,
    decreases b - a,
{
    if a < b {
        lemma_rank_count_le_len(s, a);
        lemma_sum_nonneg(s, a + 1, b);
    }
}

/// The card total is at least the counts of any two distinct values.
proof fn lemma_sum_ge_pair(s: Seq<Card>, u: int, v: int)
    requires
        0 <= u < v < 13,
    ensures
        count_sum_range(s, 0, 13) >= rank_count(s, u) + rank_count(s, v),
{
    lemma_sum_split(s, 0, u, 13);
    lemma_sum_split(s, u, u + 1, 13);
    lemma_sum_split(s, u + 1, v, 13);
    lemma_sum_split(s, v, v + 1, 13);
    lemma_sum_nonneg(s, 0, u);
    lemma_sum_nonneg(s, u + 1, v);
    lemma_sum_nonneg(s, v + 1, 13);
}

/// The card total is at least the counts of any three distinct values.
proof fn lemma_sum_ge_triple(s: Seq<Card>, u: int, v: int, w: int)
    requires
        0 <= u < v < w < 13,
    ensures
        count_sum_range(s, 0, 13) >= rank_count(s, u) + rank_count(s, v) + rank_count(s, w),
{
    lemma_sum_split(s, 0, u, 13);
    lemma_sum_split(s, u, u + 1, 13);
    lemma_sum_split(s, u + 1, v, 13);
    lemma_sum_split(s, v, v + 1, 13);
    lemma_sum_split(s, v + 1, w, 13);
    lemma_sum_split(s, w, w + 1, 13);
    lemma_sum_nonneg(s, 0, u);
    lemma_sum_nonneg(s, u + 1, v);
    lemma_sum_nonneg(s, v + 1, w);
    lemma_sum_nonneg(s, w + 1, 13);
}

/// Where a once-occurring value remains, the scan finds the first one and
/// leaves one fewer beyond it.
proof fn lemma_ones_scan(s: Seq<Card>, a: int)
    requires
        0 <= a <= 13,
        ones_range(s, a, 13) >= 1,
    ensures
        ({
            let x = scan_count(s, 1, a);
            &&& a <= x < 13
            &&& rank_count(s, x) == 1
            &&& ones_range(s, a, 13) == 1 + ones_range(s, x + 1, 13)
            &&& ones_range(s, x + 1, 13) >= 0
        }),
    decreases 13 - a,
{
    lemma_ones_nonneg(s, a + 1, 13);
    if rank_count(s, a) == 1 {
    } else {
        lemma_ones_scan(s, a + 1);
    }
}

proof fn lemma_ones_nonneg(s: Seq<Card>, a: int, b: int)
    ensures
        ones_range(s, a, b) >= 0,
    decreases b - a,
{
    if a < b {
        lemma_ones_nonneg(s, a + 1, b);
    }
}

/// The category shape of a five-card hand, read from its value counts:
/// four of a kind, full house, three of a kind, two pair, one pair, or a
/// hand of five distinct values shaped by flushness and straightness.
pub open spec fn spec_shape_cat(s: Seq<Card>) -> int {
    let q = scan_count(s, 4, 0);
    let t = scan_count(s, 3, 0);
    let p1 = scan_count(s, 2, 0);
    if q < 13 {
        8
    } else if t < 13 && p1 < 13 {
        7
    } else if t < 13 {
        4
    } else if p1 < 13 && scan_count(s, 2, p1 + 1) < 13 {
        3
    } else if p1 < 13 {
        2
    } else {
        let v1 = scan_count(s, 1, 0);
        let v4 = scan_count(s, 1, scan_count(s, 1, scan_count(s, 1, v1 + 1) + 1) + 1);
        let v5 = scan_count(s, 1, v4 + 1);
        let straight = v5 - v1 == 4 || (v4 == 3 && v5 == 12);
        if is_flush(s) {
            if straight { 9 } else { 6 }
        } else {
            if straight { 5 } else { 1 }
        }
    }
}

/// The dense rank of every five-card hand decodes to exactly the category
/// its shape dictates: four of a kinds land among the four of a kinds,
/// full houses among the full houses, and so on through the fixed table.
#[verifier::rlimit(100)]
pub proof fn lemma_rank5_category(s: Seq<Card>)
    requires
        s.len() == 5,
        distinct_cards(s),
    ensures
        spec_decode_cat(spec_rank5(s)) == spec_shape_cat(s),
{
    reveal(spec_rank5);
    lemma_count_sum_all(s);
    lemma_scan_props(s, 4, 0);
    lemma_scan_props(s, 3, 0);
    lemma_scan_props(s, 2, 0);
    assert forall|v: int| 0 <= v < 13 implies 0 <= #[trigger] rank_count(s, v) <= 4 by {
        lemma_no_five_of_a_kind(s, v);
        lemma_rank_count_le_len(s, v);
    }
    lemma_binom_values();
    let q = scan_count(s, 4, 0);
    let t = scan_count(s, 3, 0);
    let p1 = scan_count(s, 2, 0);
    if q < 13 {
        // four of a kind plus a single kicker
        assert forall|w: int| 0 <= w < 13 && w != q
            implies #[trigger] rank_count(s, w) <= 1 by {
            if rank_count(s, w) >= 2 {
                if w < q {
                    lemma_sum_ge_pair(s, w, q);
                } else {
                    lemma_sum_ge_pair(s, q, w);
                }
            }
        }
        lemma_sum_split(s, 0, q, 13);
        lemma_sum_split(s, q, q + 1, 13);
        lemma_sum_eq_ones(s, 0, q);
        lemma_sum_eq_ones(s, q + 1, 13);
        lemma_ones_split(s, 0, q, 13);
        lemma_ones_split(s, q, q + 1, 13);
        assert(ones_range(s, 0, 13) == 1);
        lemma_ones_scan(s, 0);
        let k = scan_count(s, 1, 0);
        assert(k != q && k <= 12);
        assert(skip1(k, q) <= 11);
        assert(11 <= spec_rank5(s) <= 166);
    } else if t < 13 && p1 < 13 {
        // full house: the trips and pair values differ
        assert(t != p1);
        assert(skip1(p1, t) <= 11);
        assert(167 <= spec_rank5(s) <= 322);
    } else if t < 13 {
        // three of a kind with two single kickers
        assert forall|w: int| 0 <= w < 13 && w != t
            implies #[trigger] rank_count(s, w) <= 1 by {
            if rank_count(s, w) >= 2 {
                if w < t {
                    lemma_sum_ge_pair(s, w, t);
                } else {
                    lemma_sum_ge_pair(s, t, w);
                }
            }
        }
        lemma_sum_split(s, 0, t, 13);
        lemma_sum_split(s, t, t + 1, 13);
        lemma_sum_eq_ones(s, 0, t);
        lemma_sum_eq_ones(s, t + 1, 13);
        lemma_ones_split(s, 0, t, 13);
        lemma_ones_split(s, t, t + 1, 13);
        assert(ones_range(s, 0, 13) == 2);
        lemma_ones_scan(s, 0);
        let x = scan_count(s, 1, 0);
        lemma_ones_split(s, 0, x + 1, 13);
        lemma_ones_scan(s, x + 1);
        let y = scan_count(s, 1, x + 1);
        assert(x < y <= 12 && x != t && y != t);
        assert(skip1(x, t) < skip1(y, t) <= 11);
        lemma_binom_monotone(skip1(y, t) as nat, 11, 2);
        assert(1610 <= spec_rank5(s) <= 2467);
    } else if p1 < 13 && scan_count(s, 2, p1 + 1) < 13 {
        // two pair with a single kicker
        let p2 = scan_count(s, 2, p1 + 1);
        lemma_scan_props(s, 2, p1 + 1);
        assert forall|w: int| 0 <= w < 13 && w != p1 && w != p2
            implies #[trigger] rank_count(s, w) <= 1 by {
            if rank_count(s, w) >= 2 {
                if w < p1 {
                    lemma_sum_ge_triple(s, w, p1, p2);
                } else if w < p2 {
                    lemma_sum_ge_triple(s, p1, w, p2);
                } else {
                    lemma_sum_ge_triple(s, p1, p2, w);
                }
            }
        }
        lemma_sum_split(s, 0, p1, 13);
        lemma_sum_split(s, p1, p1 + 1, 13);
        lemma_sum_split(s, p1 + 1, p2, 13);
        lemma_sum_split(s, p2, p2 + 1, 13);
        lemma_sum_eq_ones(s, 0, p1);
        lemma_sum_eq_ones(s, p1 + 1, p2);
        lemma_sum_eq_ones(s, p2 + 1, 13);
        lemma_ones_split(s, 0, p1, 13);
        lemma_ones_split(s, p1, p1 + 1, 13);
        lemma_ones_split(s, p1 + 1, p2, 13);
        lemma_ones_split(s, p2, p2 + 1, 13);
        assert(ones_range(s, 0, 13) == 1);
        lemma_ones_scan(s, 0);
        let k = scan_count(s, 1, 0);
        assert(k != p1 && k != p2 && k <= 12);
        assert(p1 < p2 <= 12);
        lemma_binom_monotone(p2 as nat, 12, 2);
        assert(k - (if k > p1 { 1int } else { 0 }) - (if k > p2 { 1int } else { 0 }) <= 10);
        assert(2468 <= spec_rank5(s) <= 3325);
    } else if p1 < 13 {
        // one pair with three single kickers
        lemma_scan_props(s, 2, p1 + 1);
        assert forall|w: int| 0 <= w < 13 && w != p1
            implies #[trigger] rank_count(s, w) <= 1 by {}
        lemma_sum_split(s, 0, p1, 13);
        lemma_sum_split(s, p1, p1 + 1, 13);
        lemma_sum_eq_ones(s, 0, p1);
        lemma_sum_eq_ones(s, p1 + 1, 13);
        lemma_ones_split(s, 0, p1, 13);
        lemma_ones_split(s, p1, p1 + 1, 13);
        assert(ones_range(s, 0, 13) == 3);
        lemma_ones_scan(s, 0);
        let x = scan_count(s, 1, 0);
        lemma_ones_split(s, 0, x + 1, 13);
        lemma_ones_scan(s, x + 1);
        let y = scan_count(s, 1, x + 1);
        lemma_ones_split(s, x + 1, y + 1, 13);
        lemma_ones_scan(s, y + 1);
        let z = scan_count(s, 1, y + 1);
        assert(x < y < z <= 12 && x != p1 && y != p1 && z != p1);
        assert(skip1(x, p1) < skip1(y, p1) < skip1(z, p1) <= 11);
        lemma_binom_monotone(skip1(z, p1) as nat, 11, 3);
        lemma_binom_monotone(skip1(y, p1) as nat, 10, 2);
        assert(3326 <= spec_rank5(s) <= 6185);
    } else {
        // five distinct values
        lemma_five_singles(s);
        let v1 = scan_count(s, 1, 0);
        let v2 = scan_count(s, 1, v1 + 1);
        let v3 = scan_count(s, 1, v2 + 1);
        let v4 = scan_count(s, 1, v3 + 1);
        let v5 = scan_count(s, 1, v4 + 1);
        let wheel = v4 == 3 && v5 == 12;
        let straight = v5 - v1 == 4 || wheel;
        let high = if wheel { 3 } else { v5 };
        let cx = colex5(v1, v2, v3, v4, v5);
        lemma_binom_monotone(v5 as nat, 12, 5);
        lemma_binom_monotone(v4 as nat, 11, 4);
        lemma_binom_monotone(v3 as nat, 10, 3);
        lemma_binom_monotone(v2 as nat, 9, 2);
        assert(0 <= cx <= 1286);
        if straight {
            assert(3 <= high <= 12);
            if is_flush(s) {
                assert(1 <= spec_rank5(s) <= 10);
            } else {
                assert(1600 <= spec_rank5(s) <= 1609);
            }
        } else {
            // only the royal value set reaches the extreme rank, and it is
            // a straight, so here the rank stays strictly below it
            if cx == 1286 {
                if v5 <= 11 {
                    lemma_binom_monotone(v5 as nat, 11, 5);
                    lemma_binom_monotone(v4 as nat, 10, 4);
                    lemma_binom_monotone(v3 as nat, 9, 3);
                    lemma_binom_monotone(v2 as nat, 8, 2);
                    assert(cx <= 791);
                }
                assert(v5 == 12);
                if v4 <= 10 {
                    lemma_binom_monotone(v4 as nat, 10, 4);
                    lemma_binom_monotone(v3 as nat, 9, 3);
                    lemma_binom_monotone(v2 as nat, 8, 2);
                    assert(cx <= 1121);
                }
                assert(v4 == 11);
                if v3 <= 9 {
                    lemma_binom_monotone(v3 as nat, 9, 3);
                    lemma_binom_monotone(v2 as nat, 8, 2);
                    assert(cx <= 1241);
                }
                assert(v3 == 10);
                if v2 <= 8 {
                    lemma_binom_monotone(v2 as nat, 8, 2);
                    assert(cx <= 1277);
                }
                assert(v2 == 9);
                assert(v1 == 8);
                assert(straight);
                assert(false);
            }
            assert(cx <= 1285);
            assert(cx >= 1277 ==> straights_below(cx) == 9);
            assert(straights_below(cx) <= cx);
            if is_flush(s) {
                assert(323 <= spec_rank5(s) <= 1599);
            } else {
                assert(6186 <= spec_rank5(s) <= 7462);
            }
        }
    }
}

// ---------------------------------------------------------------------------
// Executable evaluator
// ---------------------------------------------------------------------------

/// Builds the per-value count table of a hand.
fn count_values(cards: &Vec<Card>) -> (r: Vec<u8>)
    requires
        cards@.len() <= 200,
    ensures
        r@.len() == 13,
        forall|v: int| 0 <= v < 13 ==> r@[v] as int == rank_count(cards@, v),
{
    let mut counts: Vec<u8> = Vec::new();
    let mut j: usize = 0;
    while j < 13
        invariant
            j <= 13,
            counts@.len() == j,
            forall|v: int| 0 <= v < j ==> counts@[v] == 0,
        decreases 13 - j,
    {
        counts.push(0);
        j = j + 1;
    }
    let n = cards.len();
    let mut i: usize = 0;
    proof {
        assert(cards@.take(0) =~= Seq::<Card>::empty());
        assert forall|v: int| 0 <= v < 13 implies rank_count(cards@.take(0), v) == 0 by {}
    }
    while i < n
        invariant
            i <= n,
            n == cards@.len(),
            n <= 200,
            counts@.len() == 13,
            forall|v: int| 0 <= v < 13 ==> counts@[v] as int == rank_count(cards@.take(i as int), v),
            forall|v: int| 0 <= v < 13 ==> counts@[v] as int <= i as int,
        decreases n - i,
    {
        let idx = cards[i].value.to_index() as usize;
        proof {
            lemma_rank_count_le_len(cards@.take(i as int), idx as int);
        }
        let c = counts[idx];
        counts.set(idx, c + 1);
        proof {
            let pre = cards@.take(i as int);
            let now = cards@.take(i as int + 1);
            assert(now.drop_last() =~= pre);
            assert(now.last() == cards@[i as int]);
            assert forall|v: int| 0 <= v < 13 implies
                rank_count(now, v) == rank_count(pre, v)
                    + if cards@[i as int].value.index() == v { 1int } else { 0 } by {}
        }
        i = i + 1;
    }
    proof {
        assert(cards@.take(n as int) =~= cards@);
    }
    counts
}

/// Finds the least value in `start..13` whose count is `m`, or 13.
fn scan_from(counts: &Vec<u8>, s: Ghost<Seq<Card>>, m: u8, start: u8) -> (r: u8)
    requires
        counts@.len() == 13,
        forall|v: int| 0 <= v < 13 ==> counts@[v] as int == rank_count(s@, v),
        start <= 13,
    ensures
        r as int == scan_count(s@, m as int, start as int),
        start <= r <= 13,
    decreases 13 - start,
{
    let mut v = start;
    while v < 13
        invariant
            start <= v <= 13,
            counts@.len() == 13,
            forall|u: int| 0 <= u < 13 ==> counts@[u] as int == rank_count(s@, u),
            scan_count(s@, m as int, start as int) == scan_count(s@, m as int, v as int),
        decreases 13 - v,
    {
        if counts[v as usize] == m {
            return v;
        }
        v = v + 1;
    }
    13
}

/// Reports whether all five cards share one suit.
fn check_flush(cards: &Vec<Card>) -> (r: bool)
    requires
        cards@.len() == 5,
    ensures
        r == is_flush(cards@),
{
    let s0 = cards[0].suit;
    let r = cards[1].suit == s0 && cards[2].suit == s0 && cards[3].suit == s0
        && cards[4].suit == s0;
    proof {
        if r {
            assert forall|i: int| 0 <= i < cards@.len()
                implies (#[trigger] cards@[i]).suit == cards@[0].suit by {
                assert(i == 0 || i == 1 || i == 2 || i == 3 || i == 4);
            }
        }
    }
    r
}

/// `skip1` as executable code.
fn skip1_exec(k: u8, a: u8) -> (r: u8)
    requires
        k <= 13,
    ensures
        r as int == skip1(k as int, a as int),
        r <= 13,
{
    if k > a { k - 1 } else { k }
}

/// The number of straight value-sets colexicographically below `c`.
fn straights_below_exec(c: i32) -> (r: i32)
    ensures
        r as int == straights_below(c as int),
        0 <= r <= 10,
{
    let mut r: i32 = 0;
    if c > 0 { r = r + 1; }
    if c > 5 { r = r + 1; }
    if c > 20 { r = r + 1; }
    if c > 55 { r = r + 1; }
    if c > 125 { r = r + 1; }
    if c > 251 { r = r + 1; }
    if c > 461 { r = r + 1; }
    if c > 791 { r = r + 1; }
    if c > 792 { r = r + 1; }
    if c > 1286 { r = r + 1; }
    r
}

/// Evaluates five distinct cards to their dense rank in 1..=7462.
pub fn eval_five_cards(cards: &Vec<Card>) -> (r: u16)
    requires
        cards@.len() == 5,
        distinct_cards(cards@),
    ensures
        1 <= r <= 7462,
        r as int == spec_rank5(cards@),
{
    let ghost s = cards@;
    let counts = count_values(cards);
    let q = scan_from(&counts, Ghost(s), 4, 0);
    let t = scan_from(&counts, Ghost(s), 3, 0);
    let p1 = scan_from(&counts, Ghost(s), 2, 0);
    proof {
        lemma_binom_values();
    }
    let d: i32;
    if q < 13 {
        let k = scan_from(&counts, Ghost(s), 1, 0);
        d = 166 - 12 * (q as i32) - (skip1_exec(k, q) as i32);
    } else if t < 13 {
        if p1 < 13 {
            d = 322 - 12 * (t as i32) - (skip1_exec(p1, t) as i32);
        } else {
            let x = scan_from(&counts, Ghost(s), 1, 0);
            let y = if x < 13 {
                scan_from(&counts, Ghost(s), 1, x + 1)
            } else {
                13
            };
            proof {
                if x == 13 {
                    assert(scan_count(s, 1, 14) == 13);
                }
            }
            let ys = skip1_exec(y, t);
            let xs = skip1_exec(x, t);
            let b2 = binom(ys as u32, 2);
            proof {
                lemma_binom_monotone(ys as nat, 13, 2);
            }
            d = 2467 - 66 * (t as i32) - (b2 as i32) - (xs as i32);
        }
    } else if p1 < 13 {
        let p2 = scan_from(&counts, Ghost(s), 2, p1 + 1);
        if p2 < 13 {
            let k = scan_from(&counts, Ghost(s), 1, 0);
            let mut kk: i32 = k as i32;
            if k > p1 { kk = kk - 1; }
            if k > p2 { kk = kk - 1; }
            let b2 = binom(p2 as u32, 2);
            proof {
                lemma_binom_monotone(p2 as nat, 12, 2);
            }
            d = 3325 - 11 * ((b2 as i32) + (p1 as i32)) - kk;
        } else {
            let x = scan_from(&counts, Ghost(s), 1, 0);
            let y = if x < 13 { scan_from(&counts, Ghost(s), 1, x + 1) } else { 13 };
            let z = if y < 13 { scan_from(&counts, Ghost(s), 1, y + 1) } else { 13 };
            proof {
                if x == 13 {
                    assert(scan_count(s, 1, 14) == 13);
                }
                if y == 13 {
                    assert(scan_count(s, 1, (y + 1) as int) == 13);
                }
            }
            let zs = skip1_exec(z, p1);
            let ys = skip1_exec(y, p1);
            let xs = skip1_exec(x, p1);
            let b3 = binom(zs as u32, 3);
            let b2 = binom(ys as u32, 2);
            proof {
                lemma_binom_monotone(zs as nat, 13, 3);
                lemma_binom_monotone(ys as nat, 13, 2);
            }
            d = 6185 - 220 * (p1 as i32) - (b3 as i32) - (b2 as i32) - (xs as i32);
        }
    } else {
        proof {
            lemma_five_singles(s);
        }
        let v1 = scan_from(&counts, Ghost(s), 1, 0);
        let v2 = scan_from(&counts, Ghost(s), 1, v1 + 1);
        let v3 = scan_from(&counts, Ghost(s), 1, v2 + 1);
        let v4 = scan_from(&counts, Ghost(s), 1, v3 + 1);
        let v5 = scan_from(&counts, Ghost(s), 1, v4 + 1);
        proof {
            assert(v1 < v2 < v3 < v4 < v5 < 13);
        }
        let wheel = v4 == 3 && v5 == 12;
        let straight = (v5 as i32) - (v1 as i32) == 4 || wheel;
        let high: i32 = if wheel { 3 } else { v5 as i32 };
        let b5 = binom(v5 as u32, 5);
        let b4 = binom(v4 as u32, 4);
        let b3 = binom(v3 as u32, 3);
        let b2 = binom(v2 as u32, 2);
        proof {
            lemma_binom_monotone(v5 as nat, 12, 5);
            lemma_binom_monotone(v4 as nat, 11, 4);
            lemma_binom_monotone(v3 as nat, 10, 3);
            lemma_binom_monotone(v2 as nat, 9, 2);
        }
        let cx: i32 = (b5 as i32) + (b4 as i32) + (b3 as i32) + (b2 as i32) + (v1 as i32);
        proof {
            assert(0 <= cx <= 1286);
        }
        let sb = straights_below_exec(cx);
        proof {
            assert(sb as int <= cx as int || cx == 0);
        }
        let flush = check_flush(cards);
        if flush {
            if straight {
                d = 13 - high;
            } else {
                d = 1599 - cx + sb;
            }
        } else {
            if straight {
                d = 1612 - high;
            } else {
                d = 7462 - cx + sb;
            }
        }
    }
    proof {
        reveal(spec_rank5);
        assert(1 <= d <= 7462);
        assert(d as int == spec_rank5(s));
    }
    d as u16
}

// ---------------------------------------------------------------------------
// Decoding a dense rank into category and sub-rank
// ---------------------------------------------------------------------------

/// The major category of a dense rank: 9 for a straight flush down to 1 for
/// a high card.
pub open spec fn spec_decode_cat(d: int) -> int {
    if d <= 10 { 9 }
    else if d <= 166 { 8 }
    else if d <= 322 { 7 }
    else if d <= 1599 { 6 }
    else if d <= 1609 { 5 }
    else if d <= 2467 { 4 }
    else if d <= 3325 { 3 }
    else if d <= 6185 { 2 }
    else { 1 }
}

/// The sub-rank of a dense rank within its category; larger sub-ranks are
/// stronger hands.
pub open spec fn spec_decode_sub(d: int) -> int {
    if d <= 10 { 11 - d }
    else if d <= 166 { 167 - d }
    else if d <= 322 { 323 - d }
    else if d <= 1599 { 1600 - d }
    else if d <= 1609 { 1610 - d }
    else if d <= 2467 { 2468 - d }
    else if d <= 3325 { 3326 - d }
    else if d <= 6185 { 6186 - d }
    else { 7463 - d }
}

/// Splits a dense rank into its hand category and sub-rank.
pub fn decode_dense(d: u16) -> (r: (u16, u16))
    requires
        1 <= d <= 7462,
    ensures
        r.0 as int == spec_decode_cat(d as int),
        r.1 as int == spec_decode_sub(d as int),
        1 <= r.0 <= 9,
        1 <= r.1 <= 2860,
{
    if d <= 10 { (9, 11 - d) }
    else if d <= 166 { (8, 167 - d) }
    else if d <= 322 { (7, 323 - d) }
    else if d <= 1599 { (6, 1600 - d) }
    else if d <= 1609 { (5, 1610 - d) }
    else if d <= 2467 { (4, 2468 - d) }
    else if d <= 3325 { (3, 3326 - d) }
    else if d <= 6185 { (2, 6186 - d) }
    else { (1, 7463 - d) }
}

} // verus!
