//! Evaluates the Omaha high hand for one player: exactly two cards from
//! the player's hand and three from the board, best over all combinations.

use vstd::prelude::*;
use crate::card::Card;
use crate::combos::{combinations, distinct_cards, is_choice, select, lemma_select_distinct,
    has_duplicate, views_of, selection_list, lemma_selection_member, lemma_selection_complete};
use crate::five_card::{eval_five_cards, spec_rank5};
use crate::evaluator_errors::EvaluatorError;
use crate::high_evaluator::{rank_from_dense, spec_rank_fields};
use crate::ranks::HighRank;

verus! {

/// `d` is the dense rank of the best Omaha combination: two hand cards and
/// three board cards, each in increasing position order.
pub open spec fn is_best_omaha_dense(hand: Seq<Card>, board: Seq<Card>, d: int) -> bool {
    &&& exists|ixh: Seq<int>, ixb: Seq<int>|
        #[trigger] is_choice(ixh, 2, hand.len() as int)
        && #[trigger] is_choice(ixb, 3, board.len() as int)
        && spec_rank5(select(hand, ixh) + select(board, ixb)) == d
    &&& forall|ixh: Seq<int>, ixb: Seq<int>|
        #[trigger] is_choice(ixh, 2, hand.len() as int)
        && #[trigger] is_choice(ixb, 3, board.len() as int)
        ==> spec_rank5(select(hand, ixh) + select(board, ixb)) >= d
}

/// What evaluating an Omaha high hand returns for every input: exact
/// errors for a short hand, a short board, or duplicates across the two,
/// and otherwise the best two-plus-three combination rank.
pub open spec fn spec_omaha_hi_result(
    hand: Seq<Card>,
    board: Seq<Card>,
    r: Result<HighRank, EvaluatorError>,
) -> bool {
    let nh = hand.len() as int;
    let nb = board.len() as int;
    &&& (r is Ok <==> (nh >= 4 && nb >= 3 && distinct_cards(hand + board)))
    &&& (nh < 4 ==> (r matches Err(e)
        && e matches EvaluatorError::NotEnoughCards { card_set_type, expected_count, actual_count }
        && card_set_type@ == "Player hand"@ && expected_count == 4 && actual_count as int == nh))
    &&& (nh >= 4 && nb < 3 ==> (r matches Err(e)
        && e matches EvaluatorError::NotEnoughCards { card_set_type, expected_count, actual_count }
        && card_set_type@ == "Board"@ && expected_count == 3 && actual_count as int == nb))
    &&& (nh >= 4 && nb >= 3 && !distinct_cards(hand + board) ==> (r matches Err(e)
        && e matches EvaluatorError::FailedToCalculateRank(msg)
        && msg@ == "Found duplicate cards"@))
    &&& (r matches Ok(h) ==> ({
        let d = 7463 - h.0.strength as int;
        &&& 1 <= d <= 7462
        &&& is_best_omaha_dense(hand, board, d)
        &&& spec_rank_fields(d, h)
    }))
}

/// A two-card hand choice and a three-card board choice together form a
/// five-card choice of the concatenation, selecting the same cards.
proof fn lemma_omaha_concat(hand: Seq<Card>, board: Seq<Card>, ixh: Seq<int>, ixb: Seq<int>)
    requires
        is_choice(ixh, 2, hand.len() as int),
        is_choice(ixb, 3, board.len() as int),
    ensures
        ({
            let ix = ixh + ixb.map_values(|i: int| i + hand.len() as int);
            &&& is_choice(ix, 5, (hand + board).len() as int)
            &&& select(hand + board, ix) == select(hand, ixh) + select(board, ixb)
        }),
{
    let nh = hand.len() as int;
    let ix = ixh + ixb.map_values(|i: int| i + nh);
    assert forall|i: int| 0 <= i < ix.len() implies 0 <= #[trigger] ix[i] < (hand
        + board).len() as int by {
        if i >= 2 {
            assert(ix[i] == ixb[i - 2] + nh);
        }
    }
    assert forall|i: int| 0 < i < ix.len() implies ix[i - 1] < #[trigger] ix[i] by {
        if i >= 3 {
            assert(ix[i] == ixb[i - 2] + nh && ix[i - 1] == ixb[i - 3] + nh);
        } else if i == 2 {
            assert(ix[1] == ixh[1] && ix[2] == ixb[0] + nh);
        }
    }
    assert(select(hand + board, ix) =~= select(hand, ixh) + select(board, ixb)) by {
        assert forall|i: int| 0 <= i < 5 implies select(hand + board, ix)[i] == (select(hand, ixh)
            + select(board, ixb))[i] by {
            if i < 2 {
                assert(ix[i] == ixh[i]);
                assert((hand + board)[ixh[i]] == hand[ixh[i]]);
            } else {
                assert(ix[i] == ixb[i - 2] + nh);
                assert((hand + board)[ixb[i - 2] + nh] == board[ixb[i - 2]]);
            }
        }
    }
}

/// Evaluates the Omaha high hand for one player.
///
/// Requires at least four hand cards and three board cards; exactly two
/// hand cards and three board cards form each candidate hand, and the best
/// candidate is returned.  Duplicate cards across hand and board are
/// rejected.
#[verifier::rlimit(50)]
pub fn evaluate_hand(
    player_hand: &Vec<Card>,
    board: &Vec<Card>,
) -> (r: Result<HighRank, EvaluatorError>)
    ensures
        spec_omaha_hi_result(player_hand@, board@, r),
{
    if player_hand.len() < 4 {
        return Err(EvaluatorError::NotEnoughCards {
            card_set_type: "Player hand".to_owned(),
            expected_count: 4,
            actual_count: player_hand.len() as u64,
        });
    }
    if board.len() < 3 {
        return Err(EvaluatorError::NotEnoughCards {
            card_set_type: "Board".to_owned(),
            expected_count: 3,
            actual_count: board.len() as u64,
        });
    }
    let ghost nh = player_hand@.len() as int;
    let ghost nb = board@.len() as int;
    let mut all: Vec<Card> = Vec::new();
    let mut i: usize = 0;
    while i < player_hand.len()
        invariant
            i <= player_hand@.len(),
            all@ == player_hand@.take(i as int),
        decreases player_hand@.len() - i,
    {
        all.push(player_hand[i]);
        proof {
            assert(player_hand@.take(i as int + 1)
                =~= player_hand@.take(i as int).push(player_hand@[i as int]));
        }
        i = i + 1;
    }
    proof {
        assert(player_hand@.take(nh) =~= player_hand@);
    }
    let mut i: usize = 0;
    while i < board.len()
        invariant
            i <= board@.len(),
            all@ == player_hand@ + board@.take(i as int),
        decreases board@.len() - i,
    {
        all.push(board[i]);
        proof {
            assert(player_hand@ + board@.take(i as int + 1)
                =~= (player_hand@ + board@.take(i as int)).push(board@[i as int]));
        }
        i = i + 1;
    }
    proof {
        assert(board@.take(nb) =~= board@);
    }
    if has_duplicate(&all) {
        return Err(EvaluatorError::FailedToCalculateRank("Found duplicate cards".to_owned()));
    }
    let hcombos = combinations(player_hand, 2);
    let bcombos = combinations(board, 3);
    proof {
        let ixh0: Seq<int> = seq![0int, 1int];
        let ixb0: Seq<int> = seq![0int, 1int, 2int];
        assert(is_choice(ixh0, 2, nh));
        assert(is_choice(ixb0, 3, nb));
        let jh0 = lemma_selection_complete(player_hand@, 2, views_of(hcombos@), ixh0);
        let jb0 = lemma_selection_complete(board@, 3, views_of(bcombos@), ixb0);
        assert(hcombos@.len() > 0 && bcombos@.len() > 0);
    }
    let mut best: u16 = 7462;
    let mut have_best = false;
    let mut jh: usize = 0;
    while jh < hcombos.len()
        invariant
            jh <= hcombos@.len(),
            hcombos@.len() > 0,
            bcombos@.len() > 0,
            nh == player_hand@.len() as int,
            nb == board@.len() as int,
            nh >= 4,
            nb >= 3,
            all@ == player_hand@ + board@,
            distinct_cards(all@),
            selection_list(player_hand@, 2, views_of(hcombos@)),
            selection_list(board@, 3, views_of(bcombos@)),
            1 <= best <= 7462,
            have_best ==> exists|ixh: Seq<int>, ixb: Seq<int>|
                #[trigger] is_choice(ixh, 2, nh) && #[trigger] is_choice(ixb, 3, nb)
                && spec_rank5(select(player_hand@, ixh) + select(board@, ixb)) == best as int,
            forall|jj: int, ixb: Seq<int>| 0 <= jj < jh && #[trigger] is_choice(ixb, 3, nb)
                ==> spec_rank5((#[trigger] hcombos@[jj]@) + select(board@, ixb)) >= best as int,
            jh > 0 ==> have_best,
        decreases hcombos@.len() - jh,
    {
        let hc = &hcombos[jh];
        proof {
            let ixh = lemma_selection_member(player_hand@, 2, views_of(hcombos@), jh as int);
            assert(views_of(hcombos@)[jh as int] == hcombos@[jh as int]@);
        }
        let mut jb: usize = 0;
        while jb < bcombos.len()
            invariant
                jb <= bcombos@.len(),
                jh < hcombos@.len(),
                hcombos@.len() > 0,
                bcombos@.len() > 0,
                nh == player_hand@.len() as int,
                nb == board@.len() as int,
                nh >= 4,
                nb >= 3,
                all@ == player_hand@ + board@,
                distinct_cards(all@),
                selection_list(player_hand@, 2, views_of(hcombos@)),
                selection_list(board@, 3, views_of(bcombos@)),
                hc == &hcombos[jh as int],
                1 <= best <= 7462,
                have_best ==> exists|ixh: Seq<int>, ixb: Seq<int>|
                    #[trigger] is_choice(ixh, 2, nh) && #[trigger] is_choice(ixb, 3, nb)
                    && spec_rank5(select(player_hand@, ixh) + select(board@, ixb)) == best as int,
                forall|jj: int, ixb: Seq<int>| 0 <= jj < jh && #[trigger] is_choice(ixb, 3, nb)
                    ==> spec_rank5((#[trigger] hcombos@[jj]@) + select(board@, ixb))
                        >= best as int,
                forall|jj: int| 0 <= jj < jb
                    ==> spec_rank5(hcombos@[jh as int]@ + (#[trigger] bcombos@[jj]@))
                        >= best as int,
                jb > 0 || jh > 0 ==> have_best,
            decreases bcombos@.len() - jb,
        {
            let bc = &bcombos[jb];
            proof {
                let ixh = lemma_selection_member(player_hand@, 2, views_of(hcombos@), jh as int);
                let ixb = lemma_selection_member(board@, 3, views_of(bcombos@), jb as int);
                assert(views_of(hcombos@)[jh as int] == hcombos@[jh as int]@);
                assert(views_of(bcombos@)[jb as int] == bcombos@[jb as int]@);
                assert(hcombos@[jh as int]@.len() == 2);
                assert(bcombos@[jb as int]@.len() == 3);
                lemma_omaha_concat(player_hand@, board@, ixh, ixb);
                let ix = ixh + ixb.map_values(|x: int| x + nh);
                lemma_select_distinct(all@, ix, 5);
                assert(select(all@, ix) == hcombos@[jh as int]@ + bcombos@[jb as int]@);
            }
            let mut cand: Vec<Card> = Vec::new();
            cand.push(hc[0]);
            cand.push(hc[1]);
            cand.push(bc[0]);
            cand.push(bc[1]);
            cand.push(bc[2]);
            proof {
                assert(cand@ =~= hcombos@[jh as int]@ + bcombos@[jb as int]@);
            }
            let d = eval_five_cards(&cand);
            if !have_best || d < best {
                best = d;
                have_best = true;
            }
            jb = jb + 1;
        }
        jh = jh + 1;
        proof {
            assert forall|jj: int, ixb: Seq<int>| 0 <= jj < jh && #[trigger] is_choice(ixb, 3, nb)
                implies spec_rank5((#[trigger] hcombos@[jj]@) + select(board@, ixb))
                    >= best as int by {
                if jj == jh - 1 {
                    let jb2 = lemma_selection_complete(board@, 3, views_of(bcombos@), ixb);
                    assert(views_of(bcombos@)[jb2] == bcombos@[jb2]@);
                    assert(spec_rank5(hcombos@[jj]@ + bcombos@[jb2]@) >= best as int);
                }
            }
        }
    }
    proof {
        assert forall|ixh: Seq<int>, ixb: Seq<int>|
            #[trigger] is_choice(ixh, 2, nh) && #[trigger] is_choice(ixb, 3, nb)
            implies spec_rank5(select(player_hand@, ixh) + select(board@, ixb))
                >= best as int by {
            let jj = lemma_selection_complete(player_hand@, 2, views_of(hcombos@), ixh);
            assert(views_of(hcombos@)[jj] == hcombos@[jj]@);
            assert(spec_rank5(hcombos@[jj]@ + select(board@, ixb)) >= best as int);
        }
    }
    Ok(rank_from_dense(best))
}

} // verus!
