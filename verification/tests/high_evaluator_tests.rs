use playing_cards::card::Card;
use playing_cards::evaluator_errors::EvaluatorError;
use playing_cards::high_evaluator::evaluate_hand;

#[test]
fn high_evaluator_threes_full_of_deuces_six_cards() {
    let player_hand: Vec<Card> = vec![Card::from_int(1).unwrap(), Card::from_int(2).unwrap()];
    let board: Vec<Card> = vec![
        Card::from_int(7).unwrap(),
        Card::from_int(5).unwrap(),
        Card::from_int(6).unwrap(),
        Card::from_int(52).unwrap(),
    ];

    let mut all_cards = player_hand.clone();
    all_cards.extend(board.iter());

    let rank = evaluate_hand(&all_cards).expect("Evaluation failed");

    assert_eq!(7, rank.0.hand_rank);
    assert_eq!(13, rank.0.sub_rank);
}

#[test]
fn high_evaluator_same_rank_different_cards() {
    let player1_hand = Card::vec_from_str("2s3s4s5s7s").unwrap();
    let player2_hand = Card::vec_from_str("2h3h4h5h7h").unwrap();

    let player1_rank = evaluate_hand(&player1_hand).expect("Evaluation failed");
    let player2_rank = evaluate_hand(&player2_hand).expect("Evaluation failed");

    assert_eq!(6, player1_rank.0.hand_rank);
    assert_eq!(1, player1_rank.0.sub_rank);

    assert_eq!(6, player2_rank.0.hand_rank);
    assert_eq!(1, player2_rank.0.sub_rank);

    assert_eq!(player1_rank, player2_rank);
}

#[test]
fn high_evaluator_different_rank_by_1() {
    let player1_hand = Card::vec_from_str("2s3s4s5s8s").unwrap(); // stronger high hand
    let player2_hand = Card::vec_from_str("2h3h4h5h7h").unwrap();

    let player1_rank = evaluate_hand(&player1_hand).expect("Evaluation failed");
    let player2_rank = evaluate_hand(&player2_hand).expect("Evaluation failed");

    assert!(player1_rank > player2_rank);
}

#[test]
fn cooler_holdem_example() {
    let board = Card::vec_from_str("2d9d2c9h3h").unwrap();
    let mut player1_hand = Card::vec_from_str("8h9s").unwrap();
    let mut player2_hand = Card::vec_from_str("9c3s").unwrap();

    player1_hand.extend(board.iter());
    player2_hand.extend(board.iter());

    let player1_rank = evaluate_hand(&player1_hand).expect("Evaluation failed");
    let player2_rank = evaluate_hand(&player2_hand).expect("Evaluation failed");

    assert_eq!(
        player1_rank.0.description.as_ref().expect("Player 1 hand generated bad rank"),
        "9s Full of 2s"
    );
    assert_eq!(
        player2_rank.0.description.as_ref().expect("Player 2 hand generated bad rank"),
        "9s Full of 3s"
    );
    assert!(player1_rank < player2_rank);
}

#[test]
fn high_evaluator_string_pairs_two_pairs_highs() {
    let hands = vec![
        ("2c2h4c5s7s", "Pair of 2s"),
        ("2c2hAcKsQs", "Pair of 2s"),
        ("3c3hAcKsQs", "Pair of 3s"),
        ("7c7hAcKsJs", "Pair of 7s"),
        ("2c2hAcQsQd", "Two Pair of Queens and 2s"),
        ("2c7hAcQcQs", "Pair of Queens"),
        ("2c7hTcKsQs", "King High"),
    ];
    for (h, expected_str) in hands {
        let player_hand = Card::vec_from_str(h).unwrap();

        let player_rank = evaluate_hand(&player_hand)
            .unwrap_or_else(|_| panic!("Evaluation failed for hand {:?}", h));

        let string_rank = player_rank.0.description.as_ref().expect("Hand generated bad rank");
        assert_eq!(expected_str, string_rank, "\nFailed on hand {}\n", h);
    }
}

#[test]
fn high_evaluator_string_trips() {
    let hands = vec![
        ("2c2h2s3s4s", "Trip 2s"),
        ("2c2h2sAsKs", "Trip 2s"),
        ("3c3hAc3sKs", "Trip 3s"),
        ("4c4h4s2s3s", "Trip 4s"),
        ("AcAhAsKsQs", "Trip Aces"),
    ];
    for (h, expected_str) in hands {
        let player_hand = Card::vec_from_str(h).unwrap();

        let player_rank = evaluate_hand(&player_hand).expect("Evaluation failed");

        let string_rank = player_rank.0.description.as_ref().expect("Hand generated bad rank");
        assert_eq!(expected_str, string_rank, "\nFailed on hand {}\n", h);
    }
}

#[test]
fn high_evaluator_string_straights() {
    let hands = vec![
        ("As2c3c4d5h", "5 High Straight"),
        ("2s3c4c5d6h", "6 High Straight"),
        ("3s4c5c6d7h", "7 High Straight"),
        ("4s5c6c7d8h", "8 High Straight"),
        ("5s6c7c8d9h", "9 High Straight"),
        ("6s7c8c9dTh", "10 High Straight"),
        ("7s8c9cTdJh", "Jack High Straight"),
        ("8s9cTcJdQh", "Queen High Straight"),
        ("9sTcJcQdKh", "King High Straight"),
        ("TsJcQcKdAh", "Ace High Straight"),
    ];
    for (h, expected_str) in hands {
        let player_hand = Card::vec_from_str(h).unwrap();

        let player_rank = evaluate_hand(&player_hand).expect("Evaluation failed");

        let string_rank = player_rank.0.description.as_ref().expect("Hand generated bad rank");
        assert_eq!(expected_str, string_rank, "\nFailed on hand {}\n", h);
    }
}

#[test]
fn high_evaluator_string_flushes() {
    let hands = vec![
        ("2s3s4s5s7s", "7 High Flush"),
        ("AsKsQsJs9s", "Ace High Flush"),
        ("As2s3s4s6s", "Ace High Flush"),
        ("3h6h9h5hTh", "10 High Flush"),
        ("5d9dJdQdKd", "King High Flush"),
    ];
    for (h, expected_str) in hands {
        let player_hand = Card::vec_from_str(h).unwrap();

        let player_rank = evaluate_hand(&player_hand).expect("Evaluation failed");

        let string_rank = player_rank.0.description.as_ref().expect("Hand generated bad rank");
        assert_eq!(expected_str, string_rank, "\nFailed on hand {}\n", h);
    }
}

#[test]
fn high_evaluator_string_boats() {
    let hands = vec![
        ("2s2c2h3d3s", "2s Full of 3s"),
        ("3s3c3h2d2s", "3s Full of 2s"),
        ("AsAcAhKdKs", "Aces Full of Kings"),
        ("2s2c2hAdAs", "2s Full of Aces"),
        ("5s5c5hTdTs", "5s Full of 10s"),
        ("5s5c5d4d4s", "5s Full of 4s"),
        ("5s5c5d6d6s", "5s Full of 6s"),
        ("6s6c6d5d5s", "6s Full of 5s"),
        ("6s6c6d7d7s", "6s Full of 7s"),
    ];
    for (h, expected_str) in hands {
        let player_hand = Card::vec_from_str(h).unwrap();

        let player_rank = evaluate_hand(&player_hand).expect("Evaluation failed");

        let string_rank = player_rank.0.description.as_ref().expect("Hand generated bad rank");
        assert_eq!(expected_str, string_rank, "\nFailed on hand {}\n", h);
    }
}

#[test]
fn high_evaluator_string_quads() {
    let hands = vec![
        ("2s2c2h2d3d", "Quad 2s"),
        ("AsAcAhAdKd", "Quad Aces"),
        ("QsQcQhQd4d", "Quad Queens"),
        ("7s7c7h7d6d", "Quad 7s"),
    ];
    for (h, expected_str) in hands {
        let player_hand = Card::vec_from_str(h).unwrap();

        let player_rank = evaluate_hand(&player_hand).expect("Evaluation failed");

        let string_rank = player_rank.0.description.as_ref().expect("Hand generated bad rank");
        assert_eq!(expected_str, string_rank, "\nFailed on hand {}\n", h);
    }
}

#[test]
fn high_evaluator_string_straight_flushes() {
    let hands = vec![
        ("As2s3s4s5s", "5 High Straight Flush"),
        ("2s3s4s5s6s", "6 High Straight Flush"),
        ("3d4d5d6d7d", "7 High Straight Flush"),
        ("4h5h6h7h8h", "8 High Straight Flush"),
        ("5c6c7c8c9c", "9 High Straight Flush"),
        ("6s7s8s9sTs", "10 High Straight Flush"),
        ("7h8h9hThJh", "Jack High Straight Flush"),
        ("8c9cTcJcQc", "Queen High Straight Flush"),
        ("9dTdJdQdKd", "King High Straight Flush"),
        ("TsJsQsKsAs", "Ace High Straight Flush"),
    ];
    for (h, expected_str) in hands {
        let player_hand = Card::vec_from_str(h).unwrap();

        let player_rank = evaluate_hand(&player_hand).expect("Evaluation failed");

        let string_rank = player_rank.0.description.as_ref().expect("Hand generated bad rank");
        assert_eq!(expected_str, string_rank, "\nFailed on hand {}\n", h);
    }
}

#[test]
fn duplicate_cards_two_pair() {
    let player_hand = Card::vec_from_str("5h2dAdAs5h").unwrap();

    let player_rank =
        evaluate_hand(&player_hand).expect_err("Set of cards with duplicates has a valid rank");

    assert_eq!(
        player_rank,
        EvaluatorError::FailedToCalculateRank("Found duplicate cards".to_string())
    );
}

#[test]
fn high_evaluator_duplicate_cards_flush() {
    let player_hand = Card::vec_from_str("5h2hAhQh5h").unwrap();

    let player_rank = evaluate_hand(&player_hand).expect_err("Evaluator was able to calculate rank");

    assert_eq!(
        player_rank,
        EvaluatorError::FailedToCalculateRank("Found duplicate cards".to_string())
    );
}
