//! Evaluates 2-to-7 lowball hands: the high evaluation with the strength
//! scale inverted, so the weakest high hand is the strongest low hand.

use vstd::prelude::*;
use crate::card::Card;
use crate::combos::distinct_cards;
use crate::evaluator_errors::EvaluatorError;
use crate::five_card::{spec_decode_cat, spec_decode_sub};
use crate::describe::spec_description;
use crate::high_evaluator;
use crate::high_evaluator::is_best_dense;
use crate::ranks::{BasicRank, Low27Rank};

verus! {

/// What evaluating a 2-to-7 low hand returns: the errors of the high
/// evaluator, and on success the high rank with its strength inverted, so
/// that the rank of the best five-card high hand carries the strength
/// `dense rank` itself — higher meaning a weaker high hand, which is the
/// better low hand.
pub open spec fn spec_low27_result(
    cards: Seq<Card>,
    r: Result<Low27Rank, EvaluatorError>,
) -> bool {
    let n = cards.len() as int;
    &&& (r is Ok <==> (5 <= n <= 7 && distinct_cards(cards)))
    &&& (n < 5 ==> (r matches Err(e)
        && e matches EvaluatorError::NotEnoughCards { card_set_type, expected_count, actual_count }
        && card_set_type@ == "Set of cards"@ && expected_count == 5 && actual_count as int == n))
    &&& (n > 7 ==> (r matches Err(e)
        && e matches EvaluatorError::TooManyCards { card_set_type, expected_count, actual_count }
        && card_set_type@ == "Set of cards"@ && expected_count == 7 && actual_count as int == n))
    &&& (5 <= n <= 7 && !distinct_cards(cards) ==> (r matches Err(e)
        && e matches EvaluatorError::FailedToCalculateRank(msg)
        && msg@ == "Found duplicate cards"@))
    &&& (r matches Ok(l) ==> ({
        let d = l.0.strength as int;
        &&& 1 <= d <= 7462
        &&& is_best_dense(cards, d)
        &&& l.0.hand_rank as int == spec_decode_cat(d)
        &&& l.0.sub_rank as int == spec_decode_sub(d)
        &&& l.0.description matches Some(ds)
            && ds@ == spec_description(spec_decode_cat(d), spec_decode_sub(d))
    }))
}

/// Evaluates the low hand for one player: the high evaluation with the
/// strength inverted back onto the dense scale.
pub fn evaluate_hand(cards: &Vec<Card>) -> (r: Result<Low27Rank, EvaluatorError>)
    ensures
        spec_low27_result(cards@, r),
{
    match high_evaluator::evaluate_hand(cards) {
        Ok(high) => {
            let basic = high.0;
            Ok(Low27Rank(BasicRank {
                strength: 7463 - basic.strength,
                hand_rank: basic.hand_rank,
                sub_rank: basic.sub_rank,
                description: basic.description,
            }))
        }
        Err(e) => Err(e),
    }
}

} // verus!
