//! Evaluates the high hand for one player: the best five-card hand among
//! all five-card combinations of five to seven cards.

use vstd::prelude::*;
use crate::card::Card;
use crate::combos::{combinations, distinct_cards, is_choice, select, lemma_select_distinct,
    has_duplicate, views_of, selection_list, lemma_selection_member, lemma_selection_complete};
use crate::five_card::{eval_five_cards, spec_rank5, decode_dense, spec_decode_cat,
    spec_decode_sub};
use crate::describe::{get_string, spec_description, lemma_decode_describable};
use crate::evaluator_errors::EvaluatorError;
use crate::ranks::{BasicRank, HighRank};

verus! {

/// `d` is the dense rank of the best five-card combination of `cards`:
/// some combination evaluates to `d`, and none evaluates better (lower).
pub open spec fn is_best_dense(cards: Seq<Card>, d: int) -> bool {
    &&& exists|ix: Seq<int>| #[trigger] is_choice(ix, 5, cards.len() as int)
        && spec_rank5(select(cards, ix)) == d
    &&& forall|ix: Seq<int>| #[trigger] is_choice(ix, 5, cards.len() as int)
        ==> spec_rank5(select(cards, ix)) >= d
}

/// The fields a high rank built from dense rank `d` carries: the strength
/// is `7463 - d` (so that higher strength is stronger), the category and
/// sub-rank are decoded from `d`, and the description renders them.
pub open spec fn spec_rank_fields(d: int, h: HighRank) -> bool {
    &&& h.0.strength as int == 7463 - d
    &&& h.0.hand_rank as int == spec_decode_cat(d)
    &&& h.0.sub_rank as int == spec_decode_sub(d)
    &&& h.0.description matches Some(ds)
        && ds@ == spec_description(spec_decode_cat(d), spec_decode_sub(d))
}

/// What evaluating a high hand over `cards` returns, for every input:
/// an exact error for fewer than five or more than seven cards or any
/// duplicate card, and otherwise the best five-card rank.
pub open spec fn spec_high_result(cards: Seq<Card>, r: Result<HighRank, EvaluatorError>) -> bool {
    let n = cards.len() as int;
    &&& (r is Ok <==> (5 <= n <= 7 && distinct_cards(cards)))
    &&& (n < 5 ==> (r matches Err(e)
        && e matches EvaluatorError::NotEnoughCards { card_set_type, expected_count, actual_count }
        && card_set_type@ == "Set of cards"@ && expected_count == 5 && actual_count as int == n))
    &&& (n > 7 ==> (r matches Err(e)
        && e matches EvaluatorError::TooManyCards { card_set_type, expected_count, actual_count }
        && card_set_type@ == "Set of cards"@ && expected_count == 7 && actual_count as int == n))
    &&& (5 <= n <= 7 && !distinct_cards(cards) ==> (r matches Err(e)
        && e matches EvaluatorError::FailedToCalculateRank(msg)
        && msg@ == "Found duplicate cards"@))
    &&& (r matches Ok(h) ==> ({
        let d = 7463 - h.0.strength as int;
        &&& 1 <= d <= 7462
        &&& is_best_dense(cards, d)
        &&& spec_rank_fields(d, h)
    }))
}

/// Finds the dense rank of the best five-card combination of `cards`.
#[verifier::rlimit(50)]
pub(crate) fn best_dense(cards: &Vec<Card>) -> (r: u16)
    requires
        cards@.len() >= 5,
        distinct_cards(cards@),
    ensures
        1 <= r <= 7462,
        is_best_dense(cards@, r as int),
{
    let ghost n = cards@.len() as int;
    let combos = combinations(cards, 5);
    proof {
        let ix0: Seq<int> = seq![0int, 1int, 2int, 3int, 4int];
        assert(is_choice(ix0, 5, n));
        let j0 = lemma_selection_complete(cards@, 5, views_of(combos@), ix0);
        assert(combos@.len() > 0);
        let ixw = lemma_selection_member(cards@, 5, views_of(combos@), 0);
        lemma_select_distinct(cards@, ixw, 5);
        assert(views_of(combos@)[0] == combos@[0]@);
    }
    let mut best = eval_five_cards(&combos[0]);
    let mut j: usize = 1;
    while j < combos.len()
        invariant
            1 <= j <= combos@.len(),
            cards@.len() >= 5,
            distinct_cards(cards@),
            n == cards@.len() as int,
            selection_list(cards@, 5, views_of(combos@)),
            1 <= best <= 7462,
            exists|jj: int| 0 <= jj < j && spec_rank5(#[trigger] combos@[jj]@) == best as int,
            forall|jj: int| 0 <= jj < j ==> spec_rank5(#[trigger] combos@[jj]@) >= best as int,
        decreases combos@.len() - j,
    {
        proof {
            let ixw = lemma_selection_member(cards@, 5, views_of(combos@), j as int);
            lemma_select_distinct(cards@, ixw, 5);
            assert(views_of(combos@)[j as int] == combos@[j as int]@);
        }
        let d = eval_five_cards(&combos[j]);
        if d < best {
            best = d;
        }
        j = j + 1;
    }
    proof {
        assert forall|ix: Seq<int>| #[trigger] is_choice(ix, 5, n)
            implies spec_rank5(select(cards@, ix)) >= best as int by {
            let jj = lemma_selection_complete(cards@, 5, views_of(combos@), ix);
            assert(views_of(combos@)[jj] == combos@[jj]@);
            assert(spec_rank5(combos@[jj]@) >= best as int);
        }
        let jj = choose|jj: int| 0 <= jj < combos@.len()
            && spec_rank5(#[trigger] combos@[jj]@) == best as int;
        let ixw = lemma_selection_member(cards@, 5, views_of(combos@), jj);
        assert(views_of(combos@)[jj] == combos@[jj]@);
        assert(is_choice(ixw, 5, cards@.len() as int)
            && spec_rank5(select(cards@, ixw)) == best as int);
    }
    best
}

/// Builds a high rank from a dense rank: inverts the scale into a strength,
/// decodes category and sub-rank, and renders the description.
pub(crate) fn rank_from_dense(d: u16) -> (h: HighRank)
    requires
        1 <= d <= 7462,
    ensures
        spec_rank_fields(d as int, h),
{
    let decoded = decode_dense(d);
    let hand_rank = decoded.0;
    let sub_rank = decoded.1;
    proof {
        lemma_decode_describable(d as int);
    }
    let desc = match get_string(hand_rank, sub_rank) {
        Ok(s) => s,
        Err(e) => e,
    };
    HighRank(BasicRank {
        strength: 7463 - (d as u32),
        hand_rank,
        sub_rank,
        description: Some(desc),
    })
}

/// Evaluates the high hand for one player.
///
/// Accepts five to seven distinct cards, enumerates every five-card
/// combination, and returns the rank of the best one; too few, too many,
/// or duplicated cards give the corresponding error.
pub fn evaluate_hand(cards: &Vec<Card>) -> (r: Result<HighRank, EvaluatorError>)
    ensures
        spec_high_result(cards@, r),
{
    let card_count = cards.len();
    if card_count < 5 {
        return Err(EvaluatorError::NotEnoughCards {
            card_set_type: "Set of cards".to_owned(),
            expected_count: 5,
            actual_count: card_count as u64,
        });
    } else if card_count > 7 {
        return Err(EvaluatorError::TooManyCards {
            card_set_type: "Set of cards".to_owned(),
            expected_count: 7,
            actual_count: card_count as u64,
        });
    }
    if has_duplicate(cards) {
        return Err(EvaluatorError::FailedToCalculateRank("Found duplicate cards".to_owned()));
    }
    let best = best_dense(cards);
    Ok(rank_from_dense(best))
}

} // verus!
