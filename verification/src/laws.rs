//! The library's global laws, stated and proved over the same spec
//! functions the evaluators' contracts use.

use vstd::prelude::*;
use vstd::multiset::Multiset;
use crate::card::Card;
use crate::combos::{distinct_cards, is_choice, select};
use crate::five_card::{spec_rank5, rank_count, scan_count, is_flush, spec_decode_cat};
use crate::high_evaluator::is_best_dense;

verus! {

/// The canonical integer identity is a bijection: every integer in
/// 1..=52 names exactly one card, and every card round-trips through its
/// integer.
pub proof fn lemma_card_int_bijection(n: int, c: Card)
    ensures
        1 <= n <= 52 ==> Card::spec_from_int(n).spec_to_int() == n,
        Card::spec_from_int(c.spec_to_int()) == c,
{
}

/// The canonical two-character form of a card — upper-case value
/// character, lower-case suit letter — re-parses to the card itself, and
/// so does the display form with the suit rendered as a symbol.  Together
/// with the case-insensitivity of parsing, parsing any valid string and
/// formatting the card yields the canonical-case form of that string.
pub proof fn lemma_card_string_roundtrip(c: Card)
    ensures
        c.spec_display().len() == 2,
        Card::spec_parse2(c.spec_display()[0], c.spec_display()[1]) == Some(c),
        c.spec_symbol_display().len() == 2,
        Card::spec_parse2(c.spec_symbol_display()[0], c.spec_symbol_display()[1]) == Some(c),
{
    reveal_strlit("♥");
    reveal_strlit("♣");
    reveal_strlit("♦");
    reveal_strlit("♠");
}

/// Strengths are totally ordered: of `<`, `==`, and `>` exactly one
/// relation holds between any two strengths.
pub proof fn lemma_strength_total_order(a: u32, b: u32)
    ensures
        (a < b) || (a == b) || (a > b),
        a < b ==> !(a == b) && !(a > b),
        a == b ==> !(a < b) && !(a > b),
        a > b ==> !(a < b) && !(a == b),
{
}

/// The category boundaries are monotone on the strength scale: between
/// two valid dense ranks, the stronger hand never has the lower category,
/// so the weakest hand of a higher category beats the strongest hand of a
/// lower one.
pub proof fn lemma_category_order(d1: int, d2: int)
    requires
        1 <= d1 <= d2 <= 7462,
    ensures
        spec_decode_cat(d1) >= spec_decode_cat(d2),
{
}

// ---------------------------------------------------------------------------
// Order invariance of hand evaluation
// ---------------------------------------------------------------------------

/// Removing any one position removes exactly that card from the counts.
proof fn lemma_rank_count_remove(s: Seq<Card>, j: int, v: int)
    requires
        0 <= j < s.len(),
    ensures
        rank_count(s, v) == rank_count(s.remove(j), v)
            + if s[j].value.index() == v { 1int } else { 0 },
    decreases s.len(),
{
    if j == s.len() - 1 {
        assert(s.remove(j) =~= s.drop_last());
    } else {
        lemma_rank_count_remove(s.drop_last(), j, v);
        assert(s.remove(j).drop_last() =~= s.drop_last().remove(j));
        assert(s.remove(j).last() == s.last());
    }
}

/// Sequences with the same multiset have the same per-value counts.
proof fn lemma_rank_count_multiset(s1: Seq<Card>, s2: Seq<Card>, v: int)
    requires
        s1.to_multiset() == s2.to_multiset(),
    ensures
        rank_count(s1, v) == rank_count(s2, v),
    decreases s1.len(),
{
    broadcast use vstd::seq_lib::group_to_multiset_ensures;

    vstd::seq_lib::to_multiset_len(s1);
    vstd::seq_lib::to_multiset_len(s2);
    if s1.len() == 0 {
        assert(s2.len() == 0);
        assert(s2 =~= Seq::<Card>::empty());
        assert(s1 =~= Seq::<Card>::empty());
    } else {
        let c = s1.last();
        let j1 = s1.len() - 1;
        assert(s1.to_multiset().count(c) > 0);
        assert(s2.to_multiset().count(c) > 0);
        assert(s2.contains(c));
        let j2 = choose|j: int| 0 <= j < s2.len() && s2[j] == c;
        assert(s1.remove(j1).to_multiset() =~= s1.to_multiset().remove(c));
        assert(s2.remove(j2).to_multiset() =~= s2.to_multiset().remove(c));
        lemma_rank_count_multiset(s1.remove(j1), s2.remove(j2), v);
        lemma_rank_count_remove(s1, j1, v);
        lemma_rank_count_remove(s2, j2, v);
    }
}

/// Being a flush is a property of the multiset of cards.
proof fn lemma_flush_multiset(s1: Seq<Card>, s2: Seq<Card>)
    requires
        s1.to_multiset() == s2.to_multiset(),
        is_flush(s1),
    ensures
        is_flush(s2),
{
    broadcast use vstd::seq_lib::group_to_multiset_ensures;

    vstd::seq_lib::to_multiset_len(s1);
    vstd::seq_lib::to_multiset_len(s2);
    if s2.len() > 0 {
        assert(s1.len() == s2.len());
        assert forall|i: int| 0 <= i < s2.len()
            implies (#[trigger] s2[i]).suit == s2[0].suit by {
            assert(s2.contains(s2[i]));
            assert(s2.to_multiset().count(s2[i]) > 0);
            assert(s1.to_multiset().count(s2[i]) > 0);
            assert(s1.contains(s2[i]));
            let w = choose|w: int| 0 <= w < s1.len() && s1[w] == s2[i];
            assert(s1[w].suit == s1[0].suit);
            assert(s2.contains(s2[0]));
            assert(s2.to_multiset().count(s2[0]) > 0);
            assert(s1.to_multiset().count(s2[0]) > 0);
            assert(s1.contains(s2[0]));
            let w0 = choose|w: int| 0 <= w < s1.len() && s1[w] == s2[0];
            assert(s1[w0].suit == s1[0].suit);
        }
    }
}

/// Scans agree on sequences with equal counts.
proof fn lemma_scan_congruent(s1: Seq<Card>, s2: Seq<Card>, m: int, a: int)
    requires
        forall|v: int| #[trigger] rank_count(s1, v) == rank_count(s2, v),
    ensures
        scan_count(s1, m, a) == scan_count(s2, m, a),
    decreases 13 - a,
{
    if !(a < 0 || a >= 13) && rank_count(s1, a) != m {
        lemma_scan_congruent(s1, s2, m, a + 1);
    }
}

/// The dense rank of a five-card hand depends only on the multiset of its
/// cards, never on their order.
pub proof fn lemma_rank5_multiset(s1: Seq<Card>, s2: Seq<Card>)
    requires
        s1.to_multiset() == s2.to_multiset(),
    ensures
        spec_rank5(s1) == spec_rank5(s2),
{
    broadcast use vstd::seq_lib::group_to_multiset_ensures;

    reveal(spec_rank5);
    assert forall|v: int| #[trigger] rank_count(s1, v) == rank_count(s2, v) by {
        lemma_rank_count_multiset(s1, s2, v);
    }
    assert forall|m: int, a: int| 0 <= a
        implies #[trigger] scan_count(s1, m, a) == scan_count(s2, m, a) by {
        lemma_scan_congruent(s1, s2, m, a);
    }
    assert(is_flush(s1) == is_flush(s2)) by {
        if is_flush(s1) {
            lemma_flush_multiset(s1, s2);
        }
        if is_flush(s2) {
            lemma_flush_multiset(s2, s1);
        }
    }
}

/// A prefix of a sequence carries a sub-multiset of it.
proof fn lemma_take_multiset_le(s: Seq<Card>, n: int)
    requires
        0 <= n <= s.len(),
    ensures
        s.take(n).to_multiset().subset_of(s.to_multiset()),
    decreases s.len() - n,
{
    broadcast use vstd::seq_lib::group_to_multiset_ensures;

    if n == s.len() {
        assert(s.take(n) =~= s);
    } else {
        lemma_take_multiset_le(s, n + 1);
        assert(s.take(n + 1) =~= s.take(n).push(s[n]));
        assert(s.take(n + 1).to_multiset() =~= s.take(n).to_multiset().insert(s[n]));
        assert forall|c: Card| s.take(n).to_multiset().count(c)
            <= #[trigger] s.to_multiset().count(c) by {
            assert(s.take(n + 1).to_multiset().count(c) <= s.to_multiset().count(c));
        }
    }
}

/// What a choice selects is a sub-multiset of the cards.
proof fn lemma_select_le(cards: Seq<Card>, ix: Seq<int>, k: nat)
    requires
        is_choice(ix, k, cards.len() as int),
    ensures
        select(cards, ix).to_multiset().subset_of(cards.to_multiset()),
        select(cards, ix).to_multiset().len() == k,
    decreases k,
{
    broadcast use vstd::seq_lib::group_to_multiset_ensures;

    let sel = select(cards, ix);
    if k == 0 {
        assert(sel =~= Seq::<Card>::empty());
        assert(sel.to_multiset() =~= Multiset::<Card>::empty());
        assert forall|c: Card| sel.to_multiset().count(c)
            <= #[trigger] cards.to_multiset().count(c) by {}
    } else {
        let last = ix[ix.len() - 1];
        let pre = cards.take(last);
        let ix0 = ix.drop_last();
        assert(is_choice(ix0, (k - 1) as nat, pre.len() as int)) by {
            assert forall|i: int| 0 <= i < ix0.len() implies 0 <= #[trigger] ix0[i] < last by {
                crate::combos::lemma_choice_increasing(
                    ix, k, cards.len() as int, i, ix.len() - 1);
            }
        }
        lemma_select_le(pre, ix0, (k - 1) as nat);
        assert(select(pre, ix0) =~= sel.drop_last()) by {
            assert forall|i: int| 0 <= i < ix0.len()
                implies select(pre, ix0)[i] == sel.drop_last()[i] by {
                crate::combos::lemma_choice_increasing(
                    ix, k, cards.len() as int, i, ix.len() - 1);
                assert(pre[ix0[i]] == cards[ix[i]]);
            }
        }
        assert(sel =~= sel.drop_last().push(cards[last]));
        assert(sel.to_multiset() =~= sel.drop_last().to_multiset().insert(cards[last]));
        lemma_take_multiset_le(cards, last + 1);
        assert(cards.take(last + 1) =~= pre.push(cards[last]));
        assert(cards.take(last + 1).to_multiset() =~= pre.to_multiset().insert(cards[last]));
        assert forall|c: Card| sel.to_multiset().count(c)
            <= #[trigger] cards.to_multiset().count(c) by {
            assert(sel.drop_last().to_multiset().count(c) <= pre.to_multiset().count(c));
            assert(cards.take(last + 1).to_multiset().count(c)
                <= cards.to_multiset().count(c));
        }
    }
}

/// Every sub-multiset of the cards is selected by some choice.
proof fn lemma_selection_of_submultiset(cards: Seq<Card>, m: Multiset<Card>) -> (ix: Seq<int>)
    requires
        m.subset_of(cards.to_multiset()),
    ensures
        is_choice(ix, m.len(), cards.len() as int),
        select(cards, ix).to_multiset() == m,
    decreases cards.len(),
{
    broadcast use vstd::seq_lib::group_to_multiset_ensures;

    if cards.len() == 0 {
        assert(cards =~= Seq::<Card>::empty());
        assert(cards.to_multiset() =~= Multiset::<Card>::empty());
        assert(m =~= Multiset::<Card>::empty()) by {
            assert forall|c: Card| #[trigger] m.count(c) == 0 by {
                assert(m.count(c) <= cards.to_multiset().count(c));
            }
        }
        let ix = Seq::<int>::empty();
        assert(select(cards, ix) =~= Seq::<Card>::empty());
        assert(select(cards, ix).to_multiset() =~= m);
        ix
    } else {
        let pre = cards.drop_last();
        let c = cards.last();
        assert(pre.push(c) =~= cards);
        assert(cards.to_multiset() =~= pre.to_multiset().insert(c));
        if m.count(c) > 0 {
            let m0 = m.remove(c);
            assert(m0.subset_of(pre.to_multiset())) by {
                assert forall|x: Card| m0.count(x)
                    <= #[trigger] pre.to_multiset().count(x) by {
                    assert(m.count(x) <= cards.to_multiset().count(x));
                }
            }
            let ix0 = lemma_selection_of_submultiset(pre, m0);
            let ix = ix0.push(pre.len() as int);
            assert(is_choice(ix, m.len(), cards.len() as int)) by {
                assert(m.len() == m0.len() + 1);
                assert forall|i: int| 0 <= i < ix.len()
                    implies 0 <= #[trigger] ix[i] < cards.len() by {
                    if i < ix0.len() {
                        assert(ix[i] == ix0[i]);
                    }
                }
                assert forall|i: int| 0 < i < ix.len() implies ix[i - 1] < #[trigger] ix[i] by {
                    if i < ix0.len() {
                        assert(ix[i] == ix0[i] && ix[i - 1] == ix0[i - 1]);
                    } else {
                        assert(ix[i] == pre.len() as int);
                        assert(ix[i - 1] == ix0[i - 1] < pre.len() as int);
                    }
                }
            }
            assert(select(cards, ix) =~= select(pre, ix0).push(c)) by {
                assert forall|i: int| 0 <= i < ix.len()
                    implies select(cards, ix)[i] == select(pre, ix0).push(c)[i] by {
                    if i < ix0.len() {
                        assert(ix[i] == ix0[i] < pre.len());
                        assert(cards[ix0[i]] == pre[ix0[i]]);
                    }
                }
            }
            assert(select(cards, ix).to_multiset()
                =~= select(pre, ix0).to_multiset().insert(c));
            assert(select(cards, ix).to_multiset() =~= m);
            ix
        } else {
            assert(m.subset_of(pre.to_multiset())) by {
                assert forall|x: Card| m.count(x)
                    <= #[trigger] pre.to_multiset().count(x) by {
                    assert(m.count(x) <= cards.to_multiset().count(x));
                    if x == c {
                        assert(m.count(x) == 0);
                    }
                }
            }
            let ix = lemma_selection_of_submultiset(pre, m);
            assert(is_choice(ix, m.len(), cards.len() as int)) by {
                assert forall|i: int| 0 <= i < ix.len()
                    implies 0 <= #[trigger] ix[i] < cards.len() by {}
            }
            assert(select(cards, ix) =~= select(pre, ix)) by {
                assert forall|i: int| 0 <= i < ix.len()
                    implies select(cards, ix)[i] == select(pre, ix)[i] by {
                    assert(ix[i] < pre.len());
                    assert(cards[ix[i]] == pre[ix[i]]);
                }
            }
            ix
        }
    }
}

/// The best five-card rank of a set of cards is invariant under any
/// permutation of the cards: it depends only on their multiset.
pub proof fn lemma_best_dense_order_invariant(cards1: Seq<Card>, cards2: Seq<Card>, d: int)
    requires
        cards1.to_multiset() == cards2.to_multiset(),
        is_best_dense(cards1, d),
    ensures
        is_best_dense(cards2, d),
{
    broadcast use vstd::seq_lib::group_to_multiset_ensures;

    // every selection of cards2 is matched by one of cards1 of equal rank
    assert forall|ix: Seq<int>| #[trigger] is_choice(ix, 5, cards2.len() as int)
        implies spec_rank5(select(cards2, ix)) >= d by {
        lemma_select_le(cards2, ix, 5);
        let m = select(cards2, ix).to_multiset();
        let ix1 = lemma_selection_of_submultiset(cards1, m);
        lemma_rank5_multiset(select(cards1, ix1), select(cards2, ix));
        assert(spec_rank5(select(cards1, ix1)) >= d);
    }
    // the witness selection of cards1 is matched by one of cards2
    let ixw = choose|ix: Seq<int>| #[trigger] is_choice(ix, 5, cards1.len() as int)
        && spec_rank5(select(cards1, ix)) == d;
    lemma_select_le(cards1, ixw, 5);
    let m = select(cards1, ixw).to_multiset();
    let ix2 = lemma_selection_of_submultiset(cards2, m);
    lemma_rank5_multiset(select(cards2, ix2), select(cards1, ixw));
    assert(is_choice(ix2, 5, cards2.len() as int)
        && spec_rank5(select(cards2, ix2)) == d);
}

/// Swapping any two cards within a hand does not change which dense rank
/// is best: the swapped hand has the same multiset of cards.
pub proof fn lemma_swap_order_invariant(cards: Seq<Card>, i: int, j: int, d: int)
    requires
        0 <= i < cards.len(),
        0 <= j < cards.len(),
        is_best_dense(cards, d),
    ensures
        is_best_dense(cards.update(i, cards[j]).update(j, cards[i]), d),
{
    broadcast use vstd::seq_lib::group_to_multiset_ensures;

    let swapped = cards.update(i, cards[j]).update(j, cards[i]);
    assert(cards.to_multiset() == swapped.to_multiset()) by {
        if i == j {
            assert(swapped =~= cards);
        } else {
            assert(cards.update(i, cards[j]).to_multiset()
                =~= cards.to_multiset().remove(cards[i]).insert(cards[j]));
            assert(cards.update(i, cards[j])[j] == cards[j]);
            assert(swapped.to_multiset()
                =~= cards.update(i, cards[j]).to_multiset().remove(cards[j]).insert(cards[i]));
            assert(swapped.to_multiset() =~= cards.to_multiset());
        }
    }
    lemma_best_dense_order_invariant(cards, swapped, d);
}

/// The best dense rank of a set of cards is unique.
pub proof fn lemma_best_dense_unique(cards: Seq<Card>, d1: int, d2: int)
    requires
        is_best_dense(cards, d1),
        is_best_dense(cards, d2),
    ensures
        d1 == d2,
{
    let ix1 = choose|ix: Seq<int>| #[trigger] is_choice(ix, 5, cards.len() as int)
        && spec_rank5(select(cards, ix)) == d1;
    let ix2 = choose|ix: Seq<int>| #[trigger] is_choice(ix, 5, cards.len() as int)
        && spec_rank5(select(cards, ix)) == d2;
    assert(spec_rank5(select(cards, ix1)) >= d2);
    assert(spec_rank5(select(cards, ix2)) >= d1);
}

/// Evaluating two arrangements of the same cards gives identical ranks:
/// the high evaluation is invariant under any permutation of its input.
pub proof fn lemma_evaluate_order_invariant(
    cards1: Seq<Card>,
    cards2: Seq<Card>,
    r1: Result<crate::ranks::HighRank, crate::evaluator_errors::EvaluatorError>,
    r2: Result<crate::ranks::HighRank, crate::evaluator_errors::EvaluatorError>,
)
    requires
        cards1.to_multiset() == cards2.to_multiset(),
        crate::high_evaluator::spec_high_result(cards1, r1),
        crate::high_evaluator::spec_high_result(cards2, r2),
    ensures
        r1 is Ok <==> r2 is Ok,
        r1 matches Ok(h1) ==> (r2 matches Ok(h2) ==> ({
            &&& h1.0.strength == h2.0.strength
            &&& h1.0.hand_rank == h2.0.hand_rank
            &&& h1.0.sub_rank == h2.0.sub_rank
            &&& (h1.0.description matches Some(d1)
                ==> (h2.0.description matches Some(d2) && d1@ == d2@))
        })),
{
    broadcast use vstd::seq_lib::group_to_multiset_ensures;

    vstd::seq_lib::to_multiset_len(cards1);
    vstd::seq_lib::to_multiset_len(cards2);
    assert(distinct_cards(cards1) == distinct_cards(cards2)) by {
        if distinct_cards(cards1) {
            lemma_distinct_multiset(cards1, cards2);
        }
        if distinct_cards(cards2) {
            lemma_distinct_multiset(cards2, cards1);
        }
    }
    if r1 is Ok && r2 is Ok {
        let h1 = r1.unwrap();
        let h2 = r2.unwrap();
        let d1 = 7463 - h1.0.strength as int;
        let d2 = 7463 - h2.0.strength as int;
        lemma_best_dense_order_invariant(cards1, cards2, d1);
        lemma_best_dense_unique(cards2, d1, d2);
    }
}

/// For a hand of exactly five distinct cards, the evaluator reports the
/// category the hand's shape dictates: a four of a kind is reported as
/// one, a full house as one, and so on through the fixed table.
pub proof fn lemma_reported_category(
    cards: Seq<Card>,
    r: Result<crate::ranks::HighRank, crate::evaluator_errors::EvaluatorError>,
)
    requires
        cards.len() == 5,
        distinct_cards(cards),
        crate::high_evaluator::spec_high_result(cards, r),
    ensures
        r matches Ok(h) ==> h.0.hand_rank as int == crate::five_card::spec_shape_cat(cards),
{
    if r is Ok {
        let h = r.unwrap();
        let d = 7463 - h.0.strength as int;
        // the one five-card choice of five cards is the identity selection
        let ixw = choose|ix: Seq<int>| #[trigger] is_choice(ix, 5, cards.len() as int)
            && spec_rank5(select(cards, ix)) == d;
        assert(0 <= ixw[0] && ixw[0] < ixw[1] && ixw[1] < ixw[2] && ixw[2] < ixw[3]
            && ixw[3] < ixw[4] && ixw[4] < 5);
        assert(ixw[0] == 0 && ixw[1] == 1 && ixw[2] == 2 && ixw[3] == 3 && ixw[4] == 4);
        assert(select(cards, ixw) =~= cards);
        crate::five_card::lemma_rank5_category(cards);
    }
}

/// Distinctness of cards depends only on their multiset.
pub proof fn lemma_distinct_multiset(s1: Seq<Card>, s2: Seq<Card>)
    requires
        s1.to_multiset() == s2.to_multiset(),
        distinct_cards(s1),
    ensures
        distinct_cards(s2),
{
    broadcast use vstd::seq_lib::group_to_multiset_ensures;

    assert(s1.no_duplicates()) by {
        assert forall|i: int, j: int| 0 <= i < s1.len() && 0 <= j < s1.len() && i != j
            implies s1[i] != s1[j] by {}
    }
    s1.lemma_multiset_has_no_duplicates();
    assert(s2.no_duplicates()) by {
        s2.lemma_multiset_has_no_duplicates_conv();
    }
    assert forall|i: int, j: int| 0 <= i < j < s2.len() implies s2[i] != s2[j] by {}
}

} // verus!
