//! Evaluates Dramaha High hands: an Omaha evaluation of hand and board
//! beside a plain five-card draw evaluation of the hand alone.

use vstd::prelude::*;
use crate::card::Card;
use crate::combos::distinct_cards;
use crate::evaluator_errors::EvaluatorError;
use crate::high_evaluator;
use crate::high_evaluator::{is_best_dense, spec_rank_fields};
use crate::omaha_hi_evaluator;
use crate::omaha_hi_evaluator::is_best_omaha_dense;
use crate::ranks::{DramahaHighRank, HighRank};

verus! {

/// The two halves of a Dramaha result: the Omaha rank of hand and board,
/// and the draw rank of the five hand cards alone.
pub open spec fn spec_dramaha_ranks(
    hand: Seq<Card>,
    board: Seq<Card>,
    omaha_rank: HighRank,
    draw_rank: HighRank,
) -> bool {
    &&& ({
        let d = 7463 - omaha_rank.0.strength as int;
        1 <= d <= 7462 && is_best_omaha_dense(hand, board, d) && spec_rank_fields(d, omaha_rank)
    })
    &&& ({
        let d = 7463 - draw_rank.0.strength as int;
        1 <= d <= 7462 && is_best_dense(hand, d) && spec_rank_fields(d, draw_rank)
    })
}

/// What a Dramaha High evaluation returns: exact errors when the hand is
/// not exactly five cards, the board is short, or cards repeat; otherwise
/// the Omaha rank and the draw rank side by side.
pub open spec fn spec_dramaha_result(
    hand: Seq<Card>,
    board: Seq<Card>,
    r: Result<DramahaHighRank, EvaluatorError>,
) -> bool {
    let nh = hand.len() as int;
    let nb = board.len() as int;
    &&& (r is Ok <==> (nh == 5 && nb >= 3 && distinct_cards(hand + board)))
    &&& (nh < 5 ==> (r matches Err(e)
        && e matches EvaluatorError::NotEnoughCards { card_set_type, expected_count, actual_count }
        && card_set_type@ == "Player hand"@ && expected_count == 5 && actual_count as int == nh))
    &&& (nh > 5 ==> (r matches Err(e)
        && e matches EvaluatorError::TooManyCards { card_set_type, expected_count, actual_count }
        && card_set_type@ == "Player hand"@ && expected_count == 5 && actual_count as int == nh))
    &&& (nh == 5 && nb < 3 ==> (r matches Err(e)
        && e matches EvaluatorError::NotEnoughCards { card_set_type, expected_count, actual_count }
        && card_set_type@ == "Board"@ && expected_count == 3 && actual_count as int == nb))
    &&& (nh == 5 && nb >= 3 && !distinct_cards(hand + board) ==> (r matches Err(e)
        && e matches EvaluatorError::FailedToCalculateRank(msg)
        && msg@ == "Found duplicate cards"@))
    &&& (r matches Ok(dr) ==> spec_dramaha_ranks(hand, board, dr.omaha_rank, dr.draw_rank))
}

/// The first cards of a duplicate-free combined set are themselves
/// duplicate-free.
pub(crate) proof fn lemma_distinct_prefix(hand: Seq<Card>, board: Seq<Card>)
    requires
        distinct_cards(hand + board),
    ensures
        distinct_cards(hand),
{
    assert forall|i: int, j: int| 0 <= i < j < hand.len() implies hand[i] != hand[j] by {
        assert((hand + board)[i] == hand[i] && (hand + board)[j] == hand[j]);
    }
}

/// Evaluates the Dramaha high hand for one player: the Omaha rank over
/// hand and board, and the draw rank of the player's five cards.
pub fn evaluate_hand(
    player_hand: &Vec<Card>,
    board: &Vec<Card>,
) -> (r: Result<DramahaHighRank, EvaluatorError>)
    ensures
        spec_dramaha_result(player_hand@, board@, r),
{
    let expected_card_count: usize = 5;
    if player_hand.len() < expected_card_count {
        return Err(EvaluatorError::NotEnoughCards {
            card_set_type: "Player hand".to_owned(),
            expected_count: 5,
            actual_count: player_hand.len() as u64,
        });
    }
    if player_hand.len() > expected_card_count {
        return Err(EvaluatorError::TooManyCards {
            card_set_type: "Player hand".to_owned(),
            expected_count: 5,
            actual_count: player_hand.len() as u64,
        });
    }
    if board.len() < 3 {
        return Err(EvaluatorError::NotEnoughCards {
            card_set_type: "Board".to_owned(),
            expected_count: 3,
            actual_count: board.len() as u64,
        });
    }
    match omaha_hi_evaluator::evaluate_hand(player_hand, board) {
        Err(e) => Err(e),
        Ok(omaha_rank) => {
            proof {
                lemma_distinct_prefix(player_hand@, board@);
            }
            match high_evaluator::evaluate_hand(player_hand) {
                Err(e) => Err(e),
                Ok(draw_rank) => Ok(DramahaHighRank { omaha_rank, draw_rank }),
            }
        }
    }
}

} // verus!
