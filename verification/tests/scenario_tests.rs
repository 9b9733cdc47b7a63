use playing_cards::badugi_evaluator;
use playing_cards::card::Card;
use playing_cards::evaluator::Evaluator;
use playing_cards::evaluator_errors::{pluralize, u64_to_string, EvaluatorError};
use playing_cards::five_card::{decode_dense, eval_five_cards};
use playing_cards::high_evaluator;
use playing_cards::low_evaluator::LowEvaluator;
use playing_cards::omaha_hi_evaluator;
use playing_cards::omaha_hilo_evaluator;
use playing_cards::rank::RankResults;
use playing_cards::ranks::{LowRank, RankStrengthIterator};

#[test]
fn trip_fives_on_the_board() {
    let hand = Card::vec_from_str("5h5s").unwrap();
    let board = Card::vec_from_str("2dTdKs5dAc").unwrap();
    let mut all_cards = hand.clone();
    all_cards.extend(board.iter());
    let rank = high_evaluator::evaluate_hand(&all_cards).unwrap();
    assert_eq!(rank.0.description.as_ref().unwrap(), "Trip 5s");
}

#[test]
fn two_pair_aces_and_kings() {
    let hand = Card::vec_from_str("KhAs").unwrap();
    let board = Card::vec_from_str("2cQdKs5dAd").unwrap();
    let mut all_cards = hand.clone();
    all_cards.extend(board.iter());
    let rank = high_evaluator::evaluate_hand(&all_cards).unwrap();
    assert_eq!(rank.0.description.as_ref().unwrap(), "Two Pair of Aces and Kings");
}

#[test]
fn royal_flush_beats_everything() {
    let royal = high_evaluator::evaluate_hand(&Card::vec_from_str("TsJsQsKsAs").unwrap()).unwrap();
    assert_eq!(royal.0.description.as_ref().unwrap(), "Ace High Straight Flush");
    // the strongest non-straight-flush hand: quad aces with a king
    let quads = high_evaluator::evaluate_hand(&Card::vec_from_str("AsAcAhAdKd").unwrap()).unwrap();
    assert!(royal.0.strength > quads.0.strength);
    assert_eq!(royal.0.strength, 7462);
}

#[test]
fn badugi_round_trips() {
    let rank = badugi_evaluator::evaluate_hand(&Card::vec_from_str("As3dKc5h").unwrap()).unwrap();
    assert_eq!(rank.0.description.as_ref().unwrap(), "King-high Badugi");

    let rank = badugi_evaluator::evaluate_hand(&Card::vec_from_str("QhQsQdQc").unwrap()).unwrap();
    assert_eq!(rank.0.description.as_ref().unwrap(), "Queen-high 1-card hand");
}

#[test]
fn omaha_uses_exactly_two_hand_cards() {
    let hand = Card::vec_from_str("2cAsAcKc").unwrap();
    let board = Card::vec_from_str("Ks2sTd8h7d").unwrap();
    let rank = omaha_hi_evaluator::evaluate_hand(&hand, &board).unwrap();
    assert_eq!(rank.0.description.as_ref().unwrap(), "Two Pair of Kings and 2s");
}

#[test]
fn omaha_hilo_qualification_boundary() {
    // the board offers only two distinct low ranks beside the hand's ace
    let hand = Card::vec_from_str("2cAsAcKc").unwrap();
    let board = Card::vec_from_str("Ks2sTd8h7d").unwrap();
    let ranks = omaha_hilo_evaluator::evaluate_hand(&hand, &board).unwrap();
    assert_eq!(ranks.hi_rank.0.description.as_ref().unwrap(), "Two Pair of Kings and 2s");
    assert_eq!(ranks.lo_rank, None);

    // swapping in a qualifying hand turns the low half on
    let hand = Card::vec_from_str("As2d5sAd").unwrap();
    let board = Card::vec_from_str("Tc5c3s6c8c").unwrap();
    let ranks = omaha_hilo_evaluator::evaluate_hand(&hand, &board).unwrap();
    assert_eq!(ranks.hi_rank.0.description.as_ref().unwrap(), "Pair of Aces");
    let lo = ranks.lo_rank.unwrap();
    assert_eq!(lo.0.description.as_ref().unwrap(), "6-5-3-2-A");
}

#[test]
fn omaha_hilo_wheel_is_strongest_low() {
    let hand = Card::vec_from_str("As2d9s9d").unwrap();
    let board = Card::vec_from_str("3c4c5h9cKc").unwrap();
    let ranks = omaha_hilo_evaluator::evaluate_hand(&hand, &board).unwrap();
    let lo = ranks.lo_rank.unwrap();
    assert_eq!(lo.0.description.as_ref().unwrap(), "5-4-3-2-A");
    assert_eq!(lo.0.strength, 56);
    assert_eq!(lo.0.hand_rank, 4);
    assert_eq!(lo.0.sub_rank, 1);
}

#[test]
fn evaluator_dispatch() {
    let hand = Card::vec_from_str("5h5c").unwrap();
    let board = Card::vec_from_str("2dTdKs5sAc").unwrap();
    let ranks = Evaluator::High.evaluate_hand(&hand, &board).unwrap();
    assert_eq!(ranks.len(), 1);
    assert_eq!(
        ranks[0].as_ref().unwrap().description.as_ref().unwrap(),
        "Trip 5s"
    );

    let hand = Card::vec_from_str("2cAsAcKc").unwrap();
    let board = Card::vec_from_str("Ks2sTd8h7d").unwrap();
    let ranks = Evaluator::OmahaHiLo.evaluate_hand(&hand, &board).unwrap();
    assert_eq!(ranks.len(), 2);
    assert!(ranks[0].is_some());
    assert!(ranks[1].is_none());
}

#[test]
fn five_card_dense_scale() {
    // a royal flush sits at dense rank 1, the worst high card at 7462
    let royal = eval_five_cards(&Card::vec_from_str("TsJsQsKsAs").unwrap());
    assert_eq!(royal, 1);
    let worst = eval_five_cards(&Card::vec_from_str("7s5c4d3h2s").unwrap());
    assert_eq!(worst, 7462);
    assert_eq!(decode_dense(1), (9, 10));
    assert_eq!(decode_dense(7462), (1, 1));
    // category bases, from the fixed table
    assert_eq!(decode_dense(11).0, 8);
    assert_eq!(decode_dense(166).0, 8);
    assert_eq!(decode_dense(167).0, 7);
    assert_eq!(decode_dense(1599).0, 6);
    assert_eq!(decode_dense(1600).0, 5);
    assert_eq!(decode_dense(6186).0, 1);
}

#[test]
fn permutations_evaluate_alike() {
    let orders = vec![
        "5h5c2dTdKs5sAc",
        "Ac5s5hKsTd2d5c",
        "Ks5s5c5hAcTd2d",
    ];
    let mut strengths = Vec::new();
    for o in orders {
        let cards = Card::vec_from_str(o).unwrap();
        strengths.push(high_evaluator::evaluate_hand(&cards).unwrap().0.strength);
    }
    assert_eq!(strengths[0], strengths[1]);
    assert_eq!(strengths[1], strengths[2]);
}

#[test]
fn cardinality_errors() {
    let four = Card::vec_from_str("2h3h4h5h").unwrap();
    assert_eq!(
        high_evaluator::evaluate_hand(&four).unwrap_err(),
        EvaluatorError::NotEnoughCards {
            card_set_type: "Set of cards".to_string(),
            expected_count: 5,
            actual_count: 4,
        }
    );
    let eight = Card::vec_from_str("2h3h4h5h6h7h8h9h").unwrap();
    assert_eq!(
        high_evaluator::evaluate_hand(&eight).unwrap_err(),
        EvaluatorError::TooManyCards {
            card_set_type: "Set of cards".to_string(),
            expected_count: 7,
            actual_count: 8,
        }
    );
    let board = Card::vec_from_str("2h3h4h").unwrap();
    assert_eq!(
        omaha_hi_evaluator::evaluate_hand(&Card::vec_from_str("AsKs").unwrap(), &board)
            .unwrap_err(),
        EvaluatorError::NotEnoughCards {
            card_set_type: "Player hand".to_string(),
            expected_count: 4,
            actual_count: 2,
        }
    );
    assert_eq!(
        omaha_hi_evaluator::evaluate_hand(
            &Card::vec_from_str("AsKsQsJs").unwrap(),
            &Card::vec_from_str("2h3h").unwrap()
        )
        .unwrap_err(),
        EvaluatorError::NotEnoughCards {
            card_set_type: "Board".to_string(),
            expected_count: 3,
            actual_count: 2,
        }
    );
}

#[test]
fn weakest_straight_flush_beats_strongest_quads() {
    let wheel_flush =
        high_evaluator::evaluate_hand(&Card::vec_from_str("As2s3s4s5s").unwrap()).unwrap();
    let best_quads =
        high_evaluator::evaluate_hand(&Card::vec_from_str("AsAcAhAdKd").unwrap()).unwrap();
    assert_eq!(wheel_flush.0.hand_rank, 9);
    assert_eq!(best_quads.0.hand_rank, 8);
    assert!(wheel_flush.0.strength > best_quads.0.strength);
    assert_eq!(wheel_flush.0.strength, 7453);
    assert_eq!(best_quads.0.strength, 7452);
}

#[test]
fn two_pair_sub_rank_boundaries() {
    let strongest =
        high_evaluator::evaluate_hand(&Card::vec_from_str("AsAcKsKcQd").unwrap()).unwrap();
    assert_eq!(strongest.0.hand_rank, 3);
    assert_eq!(strongest.0.sub_rank, 858);
    assert_eq!(strongest.0.description.as_ref().unwrap(), "Two Pair of Aces and Kings");

    let weakest =
        high_evaluator::evaluate_hand(&Card::vec_from_str("3s3c2s2c4d").unwrap()).unwrap();
    assert_eq!(weakest.0.hand_rank, 3);
    assert_eq!(weakest.0.sub_rank, 1);
    assert_eq!(weakest.0.description.as_ref().unwrap(), "Two Pair of 3s and 2s");
}

#[test]
fn badugi_four_aces_collapse() {
    // four aces have one value over four suits: a one-card hand with the
    // ace counting low, the best single card
    let rank = badugi_evaluator::evaluate_hand(&Card::vec_from_str("AsAcAdAh").unwrap()).unwrap();
    assert_eq!(rank.0.hand_rank, 1);
    assert_eq!(rank.0.strength, 13);
    assert_eq!(rank.0.description.as_ref().unwrap(), "Ace-high 1-card hand");
}

#[test]
fn error_messages() {
    let e = EvaluatorError::NotEnoughCards {
        card_set_type: "Player hand".to_string(),
        expected_count: 4,
        actual_count: 1,
    };
    assert_eq!(
        e.message(),
        "Player hand does not have at least 4 cards (Got instead 1 card)"
    );
    let e = EvaluatorError::TooManyCards {
        card_set_type: "Player hand".to_string(),
        expected_count: 5,
        actual_count: 12,
    };
    assert_eq!(
        e.message(),
        "Player hand does not have at most 5 cards (Got instead 12 cards)"
    );
    let e = EvaluatorError::FailedToCalculateRank("Found duplicate cards".to_string());
    assert_eq!(
        e.message(),
        "Failed to calculate rank based off of set of cards: Found duplicate cards"
    );
    assert_eq!(u64_to_string(0), "0");
    assert_eq!(u64_to_string(7462), "7462");
    assert_eq!(pluralize(1, "card", "s"), "card");
    assert_eq!(pluralize(2, "card", "s"), "cards");
}

#[test]
fn badugi_ace_pair_board_lockout() {
    // three distinct values over three suits, but no three-card subset is
    // distinct in both value and suit, so the evaluation fails
    let hand = Card::vec_from_str("AhAc2d3d").unwrap();
    let rank = badugi_evaluator::evaluate_hand(&hand);
    assert_eq!(
        rank.unwrap_err(),
        EvaluatorError::FailedToCalculateRank("Badugi rank failed to generate".to_string())
    );
}

#[test]
fn low_rank_packing() {
    let low = LowRank::new((7 << 12) | 13);
    assert_eq!(low.get_hand_rank(), 7);
    assert_eq!(low.get_sub_rank(), 13);
    assert_eq!(low.get_string().unwrap(), "3s Full of 2s");

    let eval = LowEvaluator::new();
    let better_low = eval
        .evaluate_hand(&Card::vec_from_str("2h3h4h5h7s").unwrap(), &Vec::new())
        .unwrap();
    let worse_low = eval
        .evaluate_hand(&Card::vec_from_str("2c3c4cAsAc").unwrap(), &Vec::new())
        .unwrap();
    assert!(better_low > worse_low);
}

#[test]
fn strength_iterators() {
    let mut it = RankStrengthIterator::new(vec![Some(10), None, Some(3)]);
    assert_eq!(it.len(), 3);
    assert_eq!(it.next_strength(), Some(Some(10)));
    assert_eq!(it.next_strength(), Some(None));
    assert_eq!(it.next_strength(), Some(Some(3)));
    assert_eq!(it.next_strength(), None);

    let results = RankResults::new(vec![vec![vec![1u32, 2], vec![3]]]);
    assert!(results.hand_number(0).is_some());
    assert!(results.hand_number(1).is_none());
}
