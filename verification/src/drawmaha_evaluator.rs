//! Evaluates Drawmaha hands: the same pairing as Dramaha High, reported
//! in its own rank type.

use vstd::prelude::*;
use crate::card::Card;
use crate::combos::distinct_cards;
use crate::evaluator_errors::EvaluatorError;
use crate::high_evaluator;
use crate::omaha_hi_evaluator;
use crate::dramaha_high_evaluator::{spec_dramaha_ranks, lemma_distinct_prefix};
pub use crate::ranks::DrawmahaRank;

verus! {

/// What a Drawmaha evaluation returns: the same cardinality and duplicate
/// errors as Dramaha High, and on success the Omaha rank and the draw rank.
pub open spec fn spec_drawmaha_result(
    hand: Seq<Card>,
    board: Seq<Card>,
    r: Result<DrawmahaRank, EvaluatorError>,
) -> bool {
    let nh = hand.len() as int;
    let nb = board.len() as int;
    &&& (r is Ok <==> (nh == 5 && nb >= 3 && distinct_cards(hand + board)))
    &&& (nh < 5 ==> (r matches Err(e)
        && e matches EvaluatorError::NotEnoughCards { card_set_type, expected_count, actual_count }
        && card_set_type@ == "Player hand"@ && expected_count == 5 && actual_count as int == nh))
    &&& (nh > 5 ==> (r matches Err(e)
        && e matches EvaluatorError::TooManyCards { card_set_type, expected_count, actual_count }
        && card_set_type@ == "Player hand"@ && expected_count == 5 && actual_count as int == nh))
    &&& (nh == 5 && nb < 3 ==> (r matches Err(e)
        && e matches EvaluatorError::NotEnoughCards { card_set_type, expected_count, actual_count }
        && card_set_type@ == "Board"@ && expected_count == 3 && actual_count as int == nb))
    &&& (nh == 5 && nb >= 3 && !distinct_cards(hand + board) ==> (r matches Err(e)
        && e matches EvaluatorError::FailedToCalculateRank(msg)
        && msg@ == "Found duplicate cards"@))
    &&& (r matches Ok(dr) ==> spec_dramaha_ranks(hand, board, dr.omaha_rank, dr.draw_rank))
}

/// Evaluates the Drawmaha hand for one player: the Omaha rank over hand
/// and board beside the draw rank of the player's five cards.
pub fn evaluate_hand(
    player_hand: &Vec<Card>,
    board: &Vec<Card>,
) -> (r: Result<DrawmahaRank, EvaluatorError>)
    ensures
        spec_drawmaha_result(player_hand@, board@, r),
{
    let expected_card_count: usize = 5;
    if player_hand.len() < expected_card_count {
        return Err(EvaluatorError::NotEnoughCards {
            card_set_type: "Player hand".to_owned(),
            expected_count: 5,
            actual_count: player_hand.len() as u64,
        });
    }
    if player_hand.len() > expected_card_count {
        return Err(EvaluatorError::TooManyCards {
            card_set_type: "Player hand".to_owned(),
            expected_count: 5,
            actual_count: player_hand.len() as u64,
        });
    }
    if board.len() < 3 {
        return Err(EvaluatorError::NotEnoughCards {
            card_set_type: "Board".to_owned(),
            expected_count: 3,
            actual_count: board.len() as u64,
        });
    }
    match omaha_hi_evaluator::evaluate_hand(player_hand, board) {
        Err(e) => Err(e),
        Ok(omaha_rank) => {
            proof {
                lemma_distinct_prefix(player_hand@, board@);
            }
            match high_evaluator::evaluate_hand(player_hand) {
                Err(e) => Err(e),
                Ok(draw_rank) => Ok(DrawmahaRank { omaha_rank, draw_rank }),
            }
        }
    }
}

} // verus!
