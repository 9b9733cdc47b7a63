//! Evaluates Badugi hands: the best subset of cards pairwise distinct in
//! both value and suit, ranked ace-low by combinatorial position.

use vstd::prelude::*;
use crate::card::{Card, Value};
use crate::combinatorics::{spec_binom, binom, lemma_binom_monotone, lemma_binom_values};
use crate::combos::{combinations, distinct_cards, is_choice, select, has_duplicate,
    views_of, selection_list, lemma_selection_member, lemma_selection_complete};
use crate::evaluator_errors::EvaluatorError;
use crate::ranks::{BadugiRank, BasicRank};
use vstd::string::*;

verus! {

/// The ace-low rank of a value ordinal: the Ace becomes 0, the Two 1, up
/// to the King at 12.
pub open spec fn ace_low(v: int) -> int {
    (v + 1) % 13
}

/// All cards pairwise differ in value and in suit.
pub open spec fn distinct_values_suits(s: Seq<Card>) -> bool {
    forall|i: int, j: int| 0 <= i < j < s.len()
        ==> (#[trigger] s[i]).value != (#[trigger] s[j]).value && s[i].suit != s[j].suit
}

/// Some card of `s` has suit ordinal `su`.
pub open spec fn suit_present(s: Seq<Card>, su: int) -> bool {
    exists|i: int| 0 <= i < s.len() && (#[trigger] s[i]).suit.index() == su
}

/// Some card of `s` has value ordinal `v`.
pub open spec fn value_present(s: Seq<Card>, v: int) -> bool {
    exists|i: int| 0 <= i < s.len() && (#[trigger] s[i]).value.index() == v
}

/// Some card of `s` has ace-low rank `r`.
pub open spec fn lo_present(s: Seq<Card>, r: int) -> bool {
    exists|i: int| 0 <= i < s.len() && ace_low((#[trigger] s[i]).value.index()) == r
}

/// The number of suit ordinals below `b` present in `s`.
pub open spec fn num_suits_upto(s: Seq<Card>, b: int) -> int
    decreases b,
{
    if b <= 0 {
        0
    } else {
        num_suits_upto(s, b - 1) + if suit_present(s, b - 1) { 1int } else { 0 }
    }
}

/// The number of value ordinals below `b` present in `s`.
pub open spec fn num_values_upto(s: Seq<Card>, b: int) -> int
    decreases b,
{
    if b <= 0 {
        0
    } else {
        num_values_upto(s, b - 1) + if value_present(s, b - 1) { 1int } else { 0 }
    }
}

/// The size of the subsets the Badugi evaluation considers: the smaller of
/// the number of distinct suits and the number of distinct values.
pub open spec fn spec_badugi_size(s: Seq<Card>) -> int {
    if num_suits_upto(s, 4) <= num_values_upto(s, 13) {
        num_suits_upto(s, 4)
    } else {
        num_values_upto(s, 13)
    }
}

/// The ace-low ranks present in `sel`, from `from` downward.
pub open spec fn desc_ranks(sel: Seq<Card>, from: int) -> Seq<int>
    decreases from + 1,
{
    if from < 0 {
        Seq::empty()
    } else if lo_present(sel, from) {
        seq![from] + desc_ranks(sel, from - 1)
    } else {
        desc_ranks(sel, from - 1)
    }
}

/// One term of the combinatorial ranking: the number of `c`-element
/// extensions below rank `r`.
pub open spec fn rank_term(r: int, c: int) -> int {
    if r >= 1 && c >= 0 {
        spec_binom((r - 1) as nat, c as nat) as int
    } else {
        0
    }
}

/// The sum of `rank_term(s, c)` for `s` in `lo..hi`.
pub open spec fn gap_sum(lo: int, hi: int, c: int) -> int
    decreases hi - lo,
{
    if hi <= lo {
        0
    } else {
        gap_sum(lo, hi - 1, c) + rank_term(hi - 1, c)
    }
}

/// The accumulated rank steps over a descending rank list: for each rank,
/// the hands whose card at that position is higher but below the previous
/// rank.
pub open spec fn rank_steps(rs: Seq<int>, i: int, prev: int, k: int) -> int
    decreases rs.len() - i,
{
    if i < 0 || i >= rs.len() {
        0
    } else {
        gap_sum(rs[i] + 1, prev, k - i - 1) + rank_steps(rs, i + 1, rs[i], k)
    }
}

/// The number of hands of fewer than `k` cards, plus one: the base
/// strength of every `k`-card Badugi hand.
pub open spec fn badugi_base(k: int) -> int
    decreases k,
{
    if k <= 1 {
        1
    } else {
        spec_binom(13, (k - 1) as nat) as int + badugi_base(k - 1)
    }
}

/// The strength of a qualifying Badugi selection.
pub open spec fn spec_badugi_strength(sel: Seq<Card>) -> int {
    badugi_base(sel.len() as int) + rank_steps(desc_ranks(sel, 12), 0, 13, sel.len() as int)
}

/// The word naming a Badugi hand of `k` cards.
pub open spec fn spec_badugi_name(k: int) -> Seq<char> {
    if k == 1 { "1-card hand"@ }
    else if k == 2 { "2-card hand"@ }
    else if k == 3 { "3-card hand"@ }
    else { "Badugi"@ }
}

/// The value whose ace-low rank is `r`.
pub open spec fn value_of_ace_low(r: int) -> Value {
    if r == 0 { Value::Ace } else { Value::spec_from_index(r - 1) }
}

/// The description of a qualifying Badugi selection: its highest ace-low
/// card and its card count.
pub open spec fn spec_badugi_desc(sel: Seq<Card>) -> Seq<char> {
    let rs = desc_ranks(sel, 12);
    value_of_ace_low(rs[0]).spec_readable() + "-high "@ + spec_badugi_name(sel.len() as int)
}

/// The rank fields a qualifying Badugi selection produces.
pub open spec fn spec_badugi_fields(sel: Seq<Card>, b: BasicRank) -> bool {
    &&& b.strength as int == spec_badugi_strength(sel)
    &&& b.hand_rank as int == sel.len() as int
    &&& b.sub_rank as int == 1 + rank_steps(desc_ranks(sel, 12), 0, 13, sel.len() as int)
    &&& b.description matches Some(ds) && ds@ == spec_badugi_desc(sel)
}

/// A choice of `spec_badugi_size` cards from the hand qualifies when the
/// chosen cards are pairwise distinct in value and suit.
pub open spec fn badugi_qualifies(hand: Seq<Card>, ix: Seq<int>) -> bool {
    &&& is_choice(ix, spec_badugi_size(hand) as nat, hand.len() as int)
    &&& distinct_values_suits(select(hand, ix))
}

/// What a Badugi evaluation returns, for every input: an exact error for
/// fewer than four cards, duplicates, or when no subset of the computed
/// size is distinct in both value and suit; otherwise the best qualifying
/// selection's rank.
pub open spec fn spec_badugi_result(
    hand: Seq<Card>,
    r: Result<BadugiRank, EvaluatorError>,
) -> bool {
    let n = hand.len() as int;
    &&& (n < 4 ==> (r matches Err(e)
        && e matches EvaluatorError::NotEnoughCards { card_set_type, expected_count, actual_count }
        && card_set_type@ == "Player hand"@ && expected_count == 4 && actual_count as int == n))
    &&& (n >= 4 && !distinct_cards(hand) ==> (r matches Err(e)
        && e matches EvaluatorError::FailedToCalculateRank(msg)
        && msg@ == "Found duplicate cards"@))
    &&& (n >= 4 && distinct_cards(hand)
        && !(exists|ix: Seq<int>| #[trigger] badugi_qualifies(hand, ix))
        ==> (r matches Err(e)
            && e matches EvaluatorError::FailedToCalculateRank(msg)
            && msg@ == "Badugi rank failed to generate"@))
    &&& (r is Ok <==> (n >= 4 && distinct_cards(hand)
        && exists|ix: Seq<int>| #[trigger] badugi_qualifies(hand, ix)))
    &&& (r matches Ok(b) ==> ({
        &&& exists|ix: Seq<int>| #[trigger] badugi_qualifies(hand, ix)
            && spec_badugi_fields(select(hand, ix), b.0)
        &&& forall|ix: Seq<int>| #[trigger] badugi_qualifies(hand, ix)
            ==> spec_badugi_strength(select(hand, ix)) <= b.0.strength as int
    }))
}

// ---------------------------------------------------------------------------
// Bounds
// ---------------------------------------------------------------------------

proof fn lemma_rank_term_bound(r: int, c: int)
    requires
        r <= 12,
        c <= 3,
    ensures
        0 <= rank_term(r, c) <= 220,
{
    if r >= 1 && c >= 0 {
        lemma_binom_monotone((r - 1) as nat, 11, c as nat);
        lemma_binom_values();
    }
}

proof fn lemma_gap_sum_bound(lo: int, hi: int, c: int)
    requires
        hi <= 13,
        c <= 3,
    ensures
        0 <= gap_sum(lo, hi, c) <= if hi > lo { (hi - lo) * 220 } else { 0 },
    decreases hi - lo,
{
    if hi > lo {
        lemma_gap_sum_bound(lo, hi - 1, c);
        lemma_rank_term_bound(hi - 1, c);
    }
}

proof fn lemma_rank_steps_bound(rs: Seq<int>, i: int, prev: int, k: int)
    requires
        prev <= 13,
        forall|j: int| 0 <= j < rs.len() ==> 0 <= #[trigger] rs[j] <= 12,
        rs.len() <= 13,
        k <= 4,
    ensures
        0 <= rank_steps(rs, i, prev, k) <= 37180,
    decreases rs.len() - i,
{
    lemma_rank_steps_bound_aux(rs, i, prev, k);
}

proof fn lemma_rank_steps_bound_aux(rs: Seq<int>, i: int, prev: int, k: int)
    requires
        prev <= 13,
        forall|j: int| 0 <= j < rs.len() ==> 0 <= #[trigger] rs[j] <= 12,
        rs.len() <= 13,
        k <= 4,
    ensures
        0 <= rank_steps(rs, i, prev, k) <= (if i < rs.len() { (rs.len() - i) * 2860 } else { 0 }),
    decreases rs.len() - i,
{
    if 0 <= i < rs.len() {
        lemma_gap_sum_bound(rs[i] + 1, prev, k - i - 1);
        assert(gap_sum(rs[i] + 1, prev, k - i - 1) <= 13 * 220);
        lemma_rank_steps_bound_aux(rs, i + 1, rs[i], k);
    }
}

proof fn lemma_badugi_base_bound(k: int)
    requires
        k <= 4,
    ensures
        1 <= badugi_base(k) <= 378,
    decreases if k >= 1 { k } else { 0 },
{
    lemma_binom_values();
    assert(spec_binom(13, 1) == 13) by {
        lemma_binom_values();
        assert(spec_binom(12, 0) == 1);
        assert(spec_binom(12, 1) == 12);
    }
    if k >= 2 {
        lemma_badugi_base_bound(k - 1);
    }
    assert(badugi_base(2) == 13 + badugi_base(1));
    assert(badugi_base(3) == 78 + badugi_base(2));
    assert(badugi_base(4) == 286 + badugi_base(3));
}

/// The ranks collected downward are all in range and nonempty when a rank
/// is present.
proof fn lemma_desc_ranks_range(sel: Seq<Card>, from: int)
    requires
        -1 <= from <= 12,
    ensures
        forall|j: int| 0 <= j < desc_ranks(sel, from).len()
            ==> 0 <= #[trigger] desc_ranks(sel, from)[j] <= from,
        desc_ranks(sel, from).len() <= from + 1,
    decreases from + 1,
{
    if from >= 0 {
        lemma_desc_ranks_range(sel, from - 1);
        let cur = desc_ranks(sel, from);
        let rest = desc_ranks(sel, from - 1);
        if lo_present(sel, from) {
            assert(cur =~= seq![from] + rest);
        } else {
            assert(cur =~= rest);
        }
        assert forall|j: int| 0 <= j < cur.len() implies 0 <= #[trigger] cur[j] <= from by {
            if lo_present(sel, from) {
                assert(cur == seq![from] + rest);
                if j > 0 {
                    assert(cur[j] == rest[j - 1]);
                }
            } else {
                assert(cur == rest);
            }
        }
    }
}

proof fn lemma_desc_ranks_nonempty(sel: Seq<Card>, from: int, r: int)
    requires
        0 <= r <= from,
        lo_present(sel, r),
    ensures
        desc_ranks(sel, from).len() >= 1,
    decreases from + 1,
{
    if from > r {
        if !lo_present(sel, from) {
            lemma_desc_ranks_nonempty(sel, from - 1, r);
        }
    }
}

// ---------------------------------------------------------------------------
// Executable scanning helpers
// ---------------------------------------------------------------------------

/// Whether some card has the given suit ordinal.
fn any_suit(cards: &Vec<Card>, su: u8) -> (r: bool)
    ensures
        r == suit_present(cards@, su as int),
{
    let mut i: usize = 0;
    while i < cards.len()
        invariant
            i <= cards@.len(),
            forall|w: int| 0 <= w < i ==> (#[trigger] cards@[w]).suit.index() != su as int,
        decreases cards@.len() - i,
    {
        if cards[i].suit.to_index() == su {
            return true;
        }
        i = i + 1;
    }
    false
}

/// Whether some card has the given value ordinal.
fn any_value(cards: &Vec<Card>, v: u8) -> (r: bool)
    ensures
        r == value_present(cards@, v as int),
{
    let mut i: usize = 0;
    while i < cards.len()
        invariant
            i <= cards@.len(),
            forall|w: int| 0 <= w < i ==> (#[trigger] cards@[w]).value.index() != v as int,
        decreases cards@.len() - i,
    {
        if cards[i].value.to_index() == v {
            return true;
        }
        i = i + 1;
    }
    false
}

/// Whether some card has the given ace-low rank.
fn any_lo(cards: &Vec<Card>, r: u8) -> (res: bool)
    ensures
        res == lo_present(cards@, r as int),
{
    let mut i: usize = 0;
    while i < cards.len()
        invariant
            i <= cards@.len(),
            forall|w: int| 0 <= w < i
                ==> ace_low((#[trigger] cards@[w]).value.index()) != r as int,
        decreases cards@.len() - i,
    {
        let v = cards[i].value.to_index();
        if (v + 1) % 13 == r {
            return true;
        }
        i = i + 1;
    }
    false
}

/// Whether the cards are pairwise distinct in both value and suit.
fn all_distinct_values_suits(cards: &Vec<Card>) -> (r: bool)
    ensures
        r == distinct_values_suits(cards@),
{
    let n = cards.len();
    let mut i: usize = 0;
    while i < n
        invariant
            i <= n,
            n == cards@.len(),
            forall|a: int, b: int| 0 <= a < b < cards@.len() && a < i as int
                ==> (#[trigger] cards@[a]).value != (#[trigger] cards@[b]).value
                    && cards@[a].suit != cards@[b].suit,
        decreases n - i,
    {
        let mut j: usize = i + 1;
        while j < n
            invariant
                i < j <= n,
                n == cards@.len(),
                forall|b: int| i < b < j as int
                    ==> (#[trigger] cards@[b]).value != cards@[i as int].value
                        && cards@[b].suit != cards@[i as int].suit,
            decreases n - j,
        {
            if cards[i].value == cards[j].value || cards[i].suit == cards[j].suit {
                return false;
            }
            j = j + 1;
        }
        i = i + 1;
    }
    true
}

/// Computes the Badugi subset size of a hand: the smaller of its distinct
/// suit count and its distinct value count.
fn badugi_size(cards: &Vec<Card>) -> (k: usize)
    requires
        cards@.len() >= 1,
    ensures
        k as int == spec_badugi_size(cards@),
        1 <= k <= 4,
{
    let mut nsuits: usize = 0;
    let mut su: u8 = 0;
    while su < 4
        invariant
            su <= 4,
            nsuits as int == num_suits_upto(cards@, su as int),
            nsuits <= su,
        decreases 4 - su,
    {
        if any_suit(cards, su) {
            nsuits = nsuits + 1;
        }
        su = su + 1;
    }
    let mut nvalues: usize = 0;
    let mut v: u8 = 0;
    while v < 13
        invariant
            v <= 13,
            nvalues as int == num_values_upto(cards@, v as int),
            nvalues <= v,
        decreases 13 - v,
    {
        if any_value(cards, v) {
            nvalues = nvalues + 1;
        }
        v = v + 1;
    }
    proof {
        let su0 = cards@[0].suit.index();
        assert(suit_present(cards@, su0));
        lemma_num_suits_pos(cards@, su0, 4);
        let v0 = cards@[0].value.index();
        assert(value_present(cards@, v0));
        lemma_num_values_pos(cards@, v0, 13);
    }
    if nsuits <= nvalues {
        nsuits
    } else {
        nvalues
    }
}

proof fn lemma_num_suits_nonneg(s: Seq<Card>, b: int)
    ensures
        num_suits_upto(s, b) >= 0,
    decreases if b >= 0 { b } else { 0 },
{
    if b > 0 {
        lemma_num_suits_nonneg(s, b - 1);
    }
}

proof fn lemma_num_values_nonneg(s: Seq<Card>, b: int)
    ensures
        num_values_upto(s, b) >= 0,
    decreases if b >= 0 { b } else { 0 },
{
    if b > 0 {
        lemma_num_values_nonneg(s, b - 1);
    }
}

proof fn lemma_num_suits_pos(s: Seq<Card>, su: int, b: int)
    requires
        0 <= su < b,
        suit_present(s, su),
    ensures
        num_suits_upto(s, b) >= 1,
    decreases b,
{
    lemma_num_suits_nonneg(s, b - 1);
    if b - 1 > su {
        lemma_num_suits_pos(s, su, b - 1);
    }
}

proof fn lemma_num_values_pos(s: Seq<Card>, v: int, b: int)
    requires
        0 <= v < b,
        value_present(s, v),
    ensures
        num_values_upto(s, b) >= 1,
    decreases b,
{
    lemma_num_values_nonneg(s, b - 1);
    if b - 1 > v {
        lemma_num_values_pos(s, v, b - 1);
    }
}

/// Computes the rank fields of one qualifying selection.
fn badugi_rank_of(sel: &Vec<Card>) -> (b: BasicRank)
    requires
        1 <= sel@.len() <= 4,
        distinct_values_suits(sel@),
    ensures
        spec_badugi_fields(sel@, b),
{
    let k = sel.len();
    // collect the present ace-low ranks, highest first
    let mut rs: Vec<u8> = Vec::new();
    let mut v: i32 = 12;
    while v >= 0
        invariant
            -1 <= v <= 12,
            rs@.len() <= 12 - v,
            forall|j: int| 0 <= j < rs@.len() ==> #[trigger] rs@[j] <= 12,
            desc_ranks(sel@, 12) =~= rs@.map_values(|x: u8| x as int) + desc_ranks(sel@, v as int),
        decreases v + 1,
    {
        if any_lo(sel, v as u8) {
            rs.push(v as u8);
            proof {
                assert(desc_ranks(sel@, v as int)
                    == seq![v as int] + desc_ranks(sel@, v as int - 1));
                assert(rs@.map_values(|x: u8| x as int)
                    =~= rs@.drop_last().map_values(|x: u8| x as int).push(v as int));
            }
        }
        v = v - 1;
    }
    proof {
        assert(desc_ranks(sel@, -1) =~= Seq::<int>::empty());
        assert(desc_ranks(sel@, 12) =~= rs@.map_values(|x: u8| x as int));
        let r0 = ace_low(sel@[0].value.index());
        assert(lo_present(sel@, r0));
        lemma_desc_ranks_nonempty(sel@, 12, r0);
        lemma_desc_ranks_range(sel@, 12);
    }
    let ghost grs = desc_ranks(sel@, 12);
    // base strength: one past all hands with fewer cards
    proof {
        lemma_badugi_base_bound(k as int);
    }
    let mut base: u32 = 1;
    let mut bi: usize = 1;
    while bi < k
        invariant
            1 <= bi <= k,
            k <= 4,
            base as int == badugi_base(bi as int),
            base <= 378,
        decreases k - bi,
    {
        proof {
            lemma_badugi_base_bound(bi as int + 1);
        }
        base = base + binom(13, bi as u32);
        bi = bi + 1;
    }
    // accumulated steps over the descending ranks
    let mut acc: u32 = 0;
    let mut prev: i32 = 13;
    let mut i: usize = 0;
    proof {
        lemma_rank_steps_bound(grs, 0, 13, k as int);
    }
    while i < rs.len()
        invariant
            i <= rs@.len(),
            rs@.len() <= 13,
            rs@.map_values(|x: u8| x as int) == grs,
            forall|j: int| 0 <= j < rs@.len() ==> #[trigger] rs@[j] <= 12,
            forall|j: int| 0 <= j < grs.len() ==> 0 <= #[trigger] grs[j] <= 12,
            k <= 4,
            1 <= k,
            i < rs@.len() ==> (prev == if i == 0 { 13int } else { rs@[i as int - 1] as int }),
            prev <= 13,
            rank_steps(grs, 0, 13, k as int)
                == acc as int + rank_steps(grs, i as int, prev as int, k as int),
            rank_steps(grs, 0, 13, k as int) <= 37180,
            acc <= 37180,
            0 <= rank_steps(grs, i as int, prev as int, k as int),
        decreases rs@.len() - i,
    {
        let ri = rs[i];
        let ghost c = k as int - i as int - 1;
        proof {
            assert(grs[i as int] == ri as int);
            lemma_gap_sum_bound(ri as int + 1, prev as int, c);
            lemma_rank_steps_bound(grs, i as int + 1, ri as int, k as int);
        }
        let mut s: i32 = ri as i32 + 1;
        let mut gap: u32 = 0;
        while s < prev
            invariant
                ri as int + 1 <= s as int <= prev as int || (prev as int <= ri as int + 1
                    && s as int == ri as int + 1),
                prev <= 13,
                k <= 4,
                1 <= k,
                i < rs@.len(),
                rs@.len() <= 13,
                c == k as int - i as int - 1,
                gap as int == gap_sum(ri as int + 1, s as int, c),
                gap <= 2860,
            decreases prev - s,
        {
            proof {
                lemma_gap_sum_bound(ri as int + 1, s as int + 1, c);
                lemma_rank_term_bound(s as int, c);
            }
            if i + 1 <= k && s >= 1 {
                proof {
                    assert(k as int - i as int - 1 >= 0);
                    assert(0 <= s as int - 1 <= 12);
                }
                let t = binom((s - 1) as u32, (k - i - 1) as u32);
                proof {
                    assert(rank_term(s as int, c) == t as int);
                }
                gap = gap + t;
            } else {
                proof {
                    assert(rank_term(s as int, c) == 0);
                }
            }
            s = s + 1;
        }
        proof {
            assert(gap as int == gap_sum(ri as int + 1, prev as int, c));
            assert(rank_steps(grs, i as int, prev as int, k as int)
                == gap_sum(ri as int + 1, prev as int, c)
                    + rank_steps(grs, i as int + 1, ri as int, k as int));
            lemma_rank_steps_bound(grs, i as int + 1, ri as int, k as int);
        }
        acc = acc + gap;
        prev = ri as i32;
        i = i + 1;
    }
    proof {
        assert(rank_steps(grs, rs@.len() as int, prev as int, k as int) == 0);
        assert(rank_steps(grs, 0, 13, k as int) == acc as int);
    }
    // description from the highest card
    let r0 = rs[0];
    let word = if r0 == 0 {
        Value::Ace.get_readable_string()
    } else {
        match Value::from_index(r0 - 1) {
            Some(val) => val.get_readable_string(),
            None => "".to_owned(),
        }
    };
    let mut desc = word;
    desc.append("-high ");
    let name: &'static str = if k == 1 { "1-card hand" }
        else if k == 2 { "2-card hand" }
        else if k == 3 { "3-card hand" }
        else { "Badugi" };
    desc.append(name);
    proof {
        assert(grs[0] == rs@[0] as int);
        assert(desc@ =~= spec_badugi_desc(sel@));
    }
    BasicRank {
        strength: base + acc,
        hand_rank: k as u16,
        sub_rank: (1 + acc) as u16,
        description: Some(desc),
    }
}

/// Evaluates a Badugi hand.
///
/// Requires at least four distinct cards.  The subset size is the smaller
/// of the hand's distinct-suit and distinct-value counts; among the
/// subsets of that size whose cards are pairwise distinct in value and
/// suit, the strongest (lowest) is returned.  When no subset of that size
/// qualifies, the evaluation fails.
#[verifier::rlimit(50)]
pub fn evaluate_hand(player_hand: &Vec<Card>) -> (r: Result<BadugiRank, EvaluatorError>)
    ensures
        spec_badugi_result(player_hand@, r),
{
    if player_hand.len() < 4 {
        return Err(EvaluatorError::NotEnoughCards {
            card_set_type: "Player hand".to_owned(),
            expected_count: 4,
            actual_count: player_hand.len() as u64,
        });
    }
    if has_duplicate(player_hand) {
        return Err(EvaluatorError::FailedToCalculateRank("Found duplicate cards".to_owned()));
    }
    let ghost n = player_hand@.len() as int;
    let k = badugi_size(player_hand);
    let combos = combinations(player_hand, k);
    let mut best: Option<BasicRank> = None;
    let mut j: usize = 0;
    while j < combos.len()
        invariant
            j <= combos@.len(),
            n == player_hand@.len() as int,
            n >= 4,
            distinct_cards(player_hand@),
            k as int == spec_badugi_size(player_hand@),
            1 <= k <= 4,
            selection_list(player_hand@, k as nat, views_of(combos@)),
            best matches Some(b) ==> exists|ix: Seq<int>| #[trigger] badugi_qualifies(
                player_hand@, ix) && spec_badugi_fields(select(player_hand@, ix), b),
            forall|jj: int| 0 <= jj < j && distinct_values_suits(#[trigger] combos@[jj]@)
                ==> (best matches Some(b)
                    && spec_badugi_strength(combos@[jj]@) <= b.strength as int),
        decreases combos@.len() - j,
    {
        let c = &combos[j];
        proof {
            let ixw = lemma_selection_member(player_hand@, k as nat, views_of(combos@), j as int);
            assert(views_of(combos@)[j as int] == combos@[j as int]@);
            assert(combos@[j as int]@.len() == k as int);
        }
        if all_distinct_values_suits(c) {
            let b = badugi_rank_of(c);
            proof {
                let ixw = lemma_selection_member(
                    player_hand@, k as nat, views_of(combos@), j as int);
                assert(views_of(combos@)[j as int] == combos@[j as int]@);
                assert(badugi_qualifies(player_hand@, ixw));
                assert(spec_badugi_fields(select(player_hand@, ixw), b));
            }
            let replace = match &best {
                None => true,
                Some(cur) => b.strength > cur.strength,
            };
            if replace {
                best = Some(b);
            }
        }
        j = j + 1;
    }
    match best {
        None => {
            proof {
                assert forall|ix: Seq<int>| !(#[trigger] badugi_qualifies(player_hand@, ix)) by {
                    if badugi_qualifies(player_hand@, ix) {
                        let jj = lemma_selection_complete(
                            player_hand@, k as nat, views_of(combos@), ix);
                        assert(views_of(combos@)[jj] == combos@[jj]@);
                        assert(distinct_values_suits(combos@[jj]@));
                    }
                }
            }
            Err(EvaluatorError::FailedToCalculateRank("Badugi rank failed to generate".to_owned()))
        }
        Some(b) => {
            proof {
                assert forall|ix: Seq<int>| #[trigger] badugi_qualifies(player_hand@, ix)
                    implies spec_badugi_strength(select(player_hand@, ix))
                        <= b.strength as int by {
                    let jj = lemma_selection_complete(
                        player_hand@, k as nat, views_of(combos@), ix);
                    assert(views_of(combos@)[jj] == combos@[jj]@);
                }
            }
            Ok(BadugiRank(b))
        }
    }
}

} // verus!
