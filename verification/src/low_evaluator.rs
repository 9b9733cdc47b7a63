//! A low-hand evaluator over the packed rank form: evaluates the high
//! hand and reports its category and sub-rank packed into one word, on
//! which the low ordering is the reverse of the high ordering.

use vstd::prelude::*;
use crate::card::Card;
use crate::combos::distinct_cards;
use crate::evaluator_errors::EvaluatorError;
use crate::five_card::{spec_decode_cat, spec_decode_sub};
use crate::high_evaluator;
use crate::high_evaluator::is_best_dense;
use crate::ranks::LowRank;

verus! {

/// The wrapper struct for the low evaluator.
pub struct LowEvaluator;

impl LowEvaluator {
    /// Creates a new low evaluator.
    pub fn new() -> (r: LowEvaluator) {
        LowEvaluator
    }

    /// Evaluates the low hand for one player: the high evaluation of the
    /// player's cards and the board together, packed as
    /// `hand_rank << 12 | sub_rank`.  A `LowRank` orders these packed
    /// values in reverse, so the weaker high hand is the better low hand.
    pub fn evaluate_hand(
        &self,
        player_hand: &Vec<Card>,
        board: &Vec<Card>,
    ) -> (r: Result<LowRank, EvaluatorError>)
        ensures
            (r is Ok <==> (5 <= player_hand@.len() + board@.len() <= 7
                && distinct_cards(player_hand@ + board@))),
            r matches Err(e) ==> crate::high_evaluator::spec_high_result(
                player_hand@ + board@, Err(e)),
            r matches Ok(l) ==> ({
                exists|d: int| {
                    &&& 1 <= d <= 7462
                    &&& #[trigger] is_best_dense(player_hand@ + board@, d)
                    &&& l.spec_hand_rank() == spec_decode_cat(d)
                    &&& l.spec_sub_rank() == spec_decode_sub(d)
                    &&& l.spec_rank_strength() == spec_decode_cat(d) * 4096 + spec_decode_sub(d)
                }
            }),
    {
        let mut all: Vec<Card> = Vec::new();
        let mut i: usize = 0;
        while i < player_hand.len()
            invariant
                i <= player_hand@.len(),
                all@ == player_hand@.take(i as int),
            decreases player_hand@.len() - i,
        {
            all.push(player_hand[i]);
            proof {
                assert(player_hand@.take(i as int + 1)
                    =~= player_hand@.take(i as int).push(player_hand@[i as int]));
            }
            i = i + 1;
        }
        let mut i: usize = 0;
        proof {
            assert(player_hand@.take(player_hand@.len() as int) =~= player_hand@);
        }
        while i < board.len()
            invariant
                i <= board@.len(),
                all@ == player_hand@ + board@.take(i as int),
            decreases board@.len() - i,
        {
            all.push(board[i]);
            proof {
                assert(player_hand@ + board@.take(i as int + 1)
                    =~= (player_hand@ + board@.take(i as int)).push(board@[i as int]));
            }
            i = i + 1;
        }
        proof {
            assert(board@.take(board@.len() as int) =~= board@);
        }
        match high_evaluator::evaluate_hand(&all) {
            Err(e) => Err(e),
            Ok(h) => {
                let hand_rank = h.0.hand_rank;
                let sub_rank = h.0.sub_rank;
                proof {
                    assert(hand_rank <= 9 && sub_rank <= 2860);
                    assert(hand_rank <= 9 && sub_rank <= 2860
                        ==> ((hand_rank << 12) | sub_rank) == hand_rank * 4096 + sub_rank)
                        by (bit_vector);
                }
                let packed: u16 = (hand_rank << 12) | sub_rank;
                proof {
                    let d = 7463 - h.0.strength as int;
                    assert(is_best_dense(player_hand@ + board@, d));
                }
                Ok(LowRank::new(packed))
            }
        }
    }
}

} // verus!
