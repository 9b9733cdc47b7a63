use playing_cards::badugi_evaluator::evaluate_hand;
use playing_cards::card::Card;
use playing_cards::evaluator_errors::EvaluatorError;
use playing_cards::ranks::{BadugiRank, BasicRank};

#[test]
fn hand_all_same_suit() {
    let hand = Card::vec_from_str("2h4hThQh").expect("Cards did not parse correctly");
    let rank = evaluate_hand(&hand).expect("Hand did not evaluate correctly");

    let expected_rank = BadugiRank(BasicRank {
        strength: 12,
        hand_rank: 1,
        sub_rank: 12,
        description: Some("2-high 1-card hand".to_string()),
    });
    assert_eq!(rank, expected_rank);
}

#[test]
fn hand_all_same_rank() {
    let hand = Card::vec_from_str("QhQsQdQc").expect("Cards did not parse correctly");
    let rank = evaluate_hand(&hand).expect("Hand did not evaluate correctly");

    let expected_rank = BadugiRank(BasicRank {
        strength: 2,
        hand_rank: 1,
        sub_rank: 2,
        description: Some("Queen-high 1-card hand".to_string()),
    });
    assert_eq!(expected_rank, rank);
}

#[test]
fn card_hand_size_2() {
    let hand = Card::vec_from_str("2h4hTd2d").expect("Cards did not parse correctly");
    let rank = evaluate_hand(&hand).expect("Hand did not evaluate correctly");

    // 1 since all ranks start at a strength of 1, plus 13 one-card hands,
    // plus 63 two-card hands with a higher top card, plus 1 for the lower
    // second card
    let expected_rank = BadugiRank(BasicRank {
        strength: 1 + 13 + 63 + 1,
        hand_rank: 2,
        sub_rank: 65,
        description: Some("4-high 2-card hand".to_string()),
    });
    assert_eq!(rank, expected_rank);
}

#[test]
fn card_hand_size_3() {
    let hand = Card::vec_from_str("3d7h6s7c").expect("Cards did not parse correctly");
    let rank = evaluate_hand(&hand).expect("Hand did not evaluate correctly");

    let expected_rank = BadugiRank(BasicRank {
        strength: 1 + 91 + 200 + 2,
        hand_rank: 3,
        sub_rank: 203,
        description: Some("7-high 3-card hand".to_string()),
    });
    assert_eq!(expected_rank, rank)
}

#[test]
fn badugi_hand() {
    let hand = Card::vec_from_str("As3dKc5h").expect("Cards did not parse correctly");
    let rank = evaluate_hand(&hand).expect("Hand did not evaluate correctly");

    let expected_rank = BadugiRank(BasicRank {
        strength: 1 + 377 + 161 + 2 + 1,
        hand_rank: 4,
        sub_rank: 165,
        description: Some("King-high Badugi".to_string()),
    });
    assert_eq!(expected_rank, rank);
}

#[test]
fn budugi_hand_10th_best() {
    let hand = Card::vec_from_str("As2d5c6h").expect("Cards did not parse correctly");
    let rank = evaluate_hand(&hand).expect("Hand did not evaluate correctly");

    let expected_rank = BadugiRank(BasicRank {
        strength: 1 + 377 + 490 + 3,
        hand_rank: 4,
        sub_rank: 494,
        description: Some("6-high Badugi".to_string()),
    });
    assert_eq!(expected_rank, rank);
}

#[test]
fn best_badugi_hand() {
    let hand = Card::vec_from_str("As2d3c4h").expect("Cards did not parse correctly");
    let rank = evaluate_hand(&hand).expect("Hand did not evaluate correctly");

    let expected_rank = BadugiRank(BasicRank {
        strength: 1 + 377 + 495,
        hand_rank: 4,
        sub_rank: 496,
        description: Some("4-high Badugi".to_string()),
    });
    assert_eq!(expected_rank, rank);
}

#[test]
fn best_badugi_hand_from_5_cards() {
    let hand = Card::vec_from_str("3sKsAc2h4d").expect("Cards did not parse correctly");
    let rank = evaluate_hand(&hand).expect("Hand did not evaluate correctly");

    let expected_rank = BadugiRank(BasicRank {
        strength: 1 + 377 + 495,
        hand_rank: 4,
        sub_rank: 496,
        description: Some("4-high Badugi".to_string()),
    });
    assert_eq!(expected_rank, rank);
}

#[test]
fn card_hand_size_2_from_5_cards() {
    let hand = Card::vec_from_str("4sTh5hTsKh").expect("Cards did not parse correctly");
    let rank = evaluate_hand(&hand).expect("Hand did not evaluate correctly");

    let expected_rank = BadugiRank(BasicRank {
        strength: 1 + 13 + 60,
        hand_rank: 2,
        sub_rank: 61,
        description: Some("5-high 2-card hand".to_string()),
    });
    assert_eq!(expected_rank, rank);
}

#[test]
fn duplicate_cards() {
    let hand = Card::vec_from_str("3d3d3d3d").expect("Cards did not parse correctly");
    let rank = evaluate_hand(&hand).expect_err("Deplicate cards generated a valid rank");

    assert_eq!(
        rank,
        EvaluatorError::FailedToCalculateRank("Found duplicate cards".to_string())
    );
}

#[test]
fn no_cards() {
    let hand: Vec<Card> = vec![];
    let rank = evaluate_hand(&hand).expect_err("An empty vec of cards was somehow a valid Badugi rank");

    assert_eq!(
        rank,
        EvaluatorError::NotEnoughCards {
            card_set_type: "Player hand".to_string(),
            expected_count: 4,
            actual_count: 0
        }
    );
}
