use std::str::FromStr;
use playing_cards::card::{Card, Suit, Value};

#[test]
fn from_card() {
    let card = Card { value: Value::Ace, suit: Suit::Spade };
    let actual_int: i32 = card.to_int();
    assert_eq!(52, actual_int);
}

#[test]
fn to_card() {
    let val = 52;
    let expected_card = Card { value: Value::Ace, suit: Suit::Spade };
    assert_eq!(expected_card, Card::from_int(val).unwrap());
}

#[test]
fn conversion() {
    for card_str in ["AH", "ah"] {
        let card = Card::from_str(card_str).unwrap();
        assert_eq!(card.to_int(), 49);
    }
}

#[test]
fn conversion_from_suit_symbols() {
    for index in 1..=52 {
        let card = Card::from_int(index).unwrap();
        assert_eq!(Card::from_str(&card.symbol_string()).unwrap(), card);
    }
}

#[test]
fn canonical_two_character_form() {
    // format back to the two-character string: upper-case value character,
    // lower-case suit letter, and input case is normalized away
    let card = Card { value: Value::Ace, suit: Suit::Spade };
    assert_eq!(card.card_string(), "As");
    let card = Card { value: Value::Ten, suit: Suit::Heart };
    assert_eq!(card.card_string(), "Th");
    for index in 1..=52 {
        let card = Card::from_int(index).unwrap();
        let canonical = card.card_string();
        assert_eq!(Card::from_str(&canonical).unwrap(), card);
        assert_eq!(
            Card::from_str(&canonical.to_lowercase()).unwrap().card_string(),
            canonical
        );
        assert_eq!(
            Card::from_str(&canonical.to_uppercase()).unwrap().card_string(),
            canonical
        );
    }
}

#[test]
fn conversion_error() {
    assert_eq!(
        Card::from_str("xh").unwrap_err(),
        r#"Card value "x" was not a valid character"#
    );

    assert_eq!(
        Card::from_str("Ky").unwrap_err(),
        r#"Card suit "y" was not a valid character"#,
    );

    assert_eq!(
        Card::from_str("abc").unwrap_err(),
        r#"Card string "abc" is not exactly a length of 2"#,
    );
}

#[test]
fn out_of_range_ints_rejected() {
    assert!(Card::from_int(0).is_none());
    assert!(Card::from_int(53).is_none());
    assert!(Card::from_int(-1).is_none());
}

#[test]
fn bit_pattern_king_of_diamonds() {
    // the documented Cactus-Kev example bit pattern
    let card = Card { value: Value::King, suit: Suit::Diamond };
    assert_eq!(card.calculate_bit_pattern(), 0x08004b25);
}

#[test]
fn vec_from_str_parses_in_order() {
    let cards = Card::vec_from_str("As2dTh").unwrap();
    assert_eq!(cards.len(), 3);
    assert_eq!(cards[0], Card { value: Value::Ace, suit: Suit::Spade });
    assert_eq!(cards[1], Card { value: Value::Two, suit: Suit::Diamond });
    assert_eq!(cards[2], Card { value: Value::Ten, suit: Suit::Heart });
    assert!(Card::vec_from_str("Asx").is_err());
    assert!(Card::vec_from_str("Asxh").is_err());
}

#[test]
fn readable_strings() {
    assert_eq!(Value::Ten.get_readable_string(), "10");
    assert_eq!(Value::Ace.get_readable_string(), "Ace");
    assert_eq!(Value::Two.get_readable_string(), "2");
    assert_eq!(Value::from_char('q'), Some(Value::Queen));
    assert_eq!(Value::from_char('x'), None);
    assert_eq!(Suit::from_char('S'), Some(Suit::Spade));
    assert_eq!(Suit::from_char('♦'), Some(Suit::Diamond));
    assert!(Value::Jack.is_face_card());
    assert!(!Value::Ace.is_face_card());
    assert_eq!(Value::Seven.get_cactus_kev_prime(), 13);
}
