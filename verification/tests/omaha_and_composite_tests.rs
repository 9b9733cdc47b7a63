use playing_cards::card::Card;
use playing_cards::dramaha_high_evaluator;
use playing_cards::drawmaha_evaluator;
use playing_cards::evaluator_errors::EvaluatorError;
use playing_cards::omaha_hi_evaluator;

#[test]
fn trips_omaha() {
    let player_hand = Card::vec_from_str("AsKc9d7h").unwrap();
    let board = Card::vec_from_str("KhQsJdKdJs").unwrap();

    let player_rank =
        &omaha_hi_evaluator::evaluate_hand(&player_hand, &board).expect("Evaluation failed");

    let string_rank = player_rank.0.description.as_ref().expect("Hand generated bad rank");
    assert_eq!("Trip Kings", string_rank);
}

#[test]
fn not_a_flush_omaha() {
    let player_hand = Card::vec_from_str("AsQh2h5d").unwrap();
    let board = Card::vec_from_str("3s8sKs3dQs").unwrap();

    let player_rank =
        &omaha_hi_evaluator::evaluate_hand(&player_hand, &board).expect("Evaluation failed");

    let string_rank = player_rank.0.description.as_ref().expect("Hand generated bad rank");
    assert_eq!("Two Pair of Queens and 3s", string_rank);
}

#[test]
fn omaha_hi_evaluator_duplicate_cards_flush() {
    let player_hand = Card::vec_from_str("4s3c5h2h").unwrap();
    let board = Card::vec_from_str("2d8h5hAhTc").unwrap();

    let player_rank = omaha_hi_evaluator::evaluate_hand(&player_hand, &board)
        .expect_err("Evaluator was able to calculate rank");

    assert_eq!(
        player_rank,
        EvaluatorError::FailedToCalculateRank("Found duplicate cards".to_string())
    );
}

#[test]
fn dramaha_high_evaluator_full_house_omaha_two_pair_draw() {
    let player_hand = Card::vec_from_str("AsKcAdQhQc").unwrap();
    let board = Card::vec_from_str("KhQsJdKdJs").unwrap();

    let player_ranks =
        dramaha_high_evaluator::evaluate_hand(&player_hand, &board).expect("Evaluation failed");

    let string_ranks = vec![
        player_ranks.omaha_rank.0.description.as_ref().unwrap(),
        player_ranks.draw_rank.0.description.as_ref().unwrap(),
    ];
    assert_eq!(vec!["Kings Full of Queens", "Two Pair of Aces and Queens"], string_ranks);
}

#[test]
fn dramaha_high_evaluator_two_pair_omaha_high_card_draw() {
    let player_hand = Card::vec_from_str("AsQh2h5d7d").unwrap();
    let board = Card::vec_from_str("3s8sKs3dQs").unwrap();

    let player_ranks =
        dramaha_high_evaluator::evaluate_hand(&player_hand, &board).expect("Evaluation failed");

    let string_ranks = vec![
        player_ranks.omaha_rank.0.description.as_ref().unwrap(),
        player_ranks.draw_rank.0.description.as_ref().unwrap(),
    ];
    assert_eq!(vec!["Two Pair of Queens and 3s", "Ace High"], string_ranks);
}

#[test]
fn drawmaha_evaluator_full_house_omaha_two_pair_draw() {
    let player_hand = Card::vec_from_str("AsKcAdQhQc").unwrap();
    let board = Card::vec_from_str("KhQsJdKdJs").unwrap();

    let player_ranks =
        drawmaha_evaluator::evaluate_hand(&player_hand, &board).expect("Evaluation failed");

    let string_ranks = vec![
        player_ranks.omaha_rank.0.description.as_ref().unwrap(),
        player_ranks.draw_rank.0.description.as_ref().unwrap(),
    ];
    assert_eq!(vec!["Kings Full of Queens", "Two Pair of Aces and Queens"], string_ranks);
}

#[test]
fn drawmaha_evaluator_two_pair_omaha_high_card_draw() {
    let player_hand = Card::vec_from_str("AsQh2h5d7d").unwrap();
    let board = Card::vec_from_str("3s8sKs3dQs").unwrap();

    let player_ranks =
        drawmaha_evaluator::evaluate_hand(&player_hand, &board).expect("Evaluation failed");

    let string_ranks = vec![
        player_ranks.omaha_rank.0.description.as_ref().unwrap(),
        player_ranks.draw_rank.0.description.as_ref().unwrap(),
    ];
    assert_eq!(vec!["Two Pair of Queens and 3s", "Ace High"], string_ranks);
}
