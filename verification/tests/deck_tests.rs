use playing_cards::card::{Card, Suit, Value};
use playing_cards::deck::CardDeck;
use rand::seq::SliceRandom;
use rand_xoshiro::rand_core::SeedableRng;
use rand_xoshiro::Xoshiro256PlusPlus;

fn shuffled(mut cards: Vec<Card>) -> Vec<Card> {
    let mut rng = Xoshiro256PlusPlus::from_seed([7u8; 32]);
    cards.shuffle(&mut rng);
    cards
}

#[test]
fn test_strip_spcific_cards() {
    let cards = Card::vec_from_str("2h5dAsAdKdJc3h8d").expect("Failed parsing card string");
    let mut deck = CardDeck::new_custom_deck(shuffled(cards));

    let cards_to_remove = Card::vec_from_str("5d2h8d3h").expect("Failed parsing card string");
    let actual_cards_removed = deck.strip_cards(&cards_to_remove);

    for c in actual_cards_removed {
        assert!(
            cards_to_remove.contains(&c),
            "{:?} is not inside expected list of cards removed: {:?}",
            c,
            cards_to_remove
        );
    }

    loop {
        match deck.next() {
            Some(c) => assert!(
                !cards_to_remove.contains(&c),
                "{:?} was not removed from deck. The following cards were to have been removed: {:?}",
                c,
                cards_to_remove
            ),
            None => break,
        }
    }
}

#[test]
fn test_strip_ranks() {
    let cards = Card::vec_from_str("2h5dAsAdKdJc3h8d").expect("Failed parsing card string");
    let mut deck = CardDeck::new_custom_deck(shuffled(cards));

    let ranks_to_remove = vec![Value::Ace, Value::Two, Value::Three];
    let actual_cards_removed = deck.strip_ranks(&ranks_to_remove);

    for c in actual_cards_removed {
        assert!(
            ranks_to_remove.contains(&c.value),
            "{:?} is not inside expected list of ranks removed: {:?}",
            c,
            ranks_to_remove
        );
    }

    loop {
        match deck.next() {
            Some(c) => assert!(
                !ranks_to_remove.contains(&c.value),
                "{:?} was not removed from deck. The following ranks were to have been removed: {:?}",
                c,
                ranks_to_remove
            ),
            None => break,
        }
    }
}

#[test]
fn test_strip_suits() {
    let cards = Card::vec_from_str("2h5dAsAdKdJc3h8d").expect("Failed parsing card string");
    let mut deck = CardDeck::new_custom_deck(shuffled(cards));

    let suits_to_remove = vec![Suit::Spade, Suit::Diamond];
    let actual_cards_removed = deck.strip_suits(&suits_to_remove);

    for c in actual_cards_removed {
        assert!(
            suits_to_remove.contains(&c.suit),
            "{:?} is not inside expected list of cards removed: {:?}",
            c,
            suits_to_remove
        );
    }

    loop {
        match deck.next() {
            Some(c) => assert!(
                !suits_to_remove.contains(&c.suit),
                "{:?} was not removed from deck. The following suits were to have been removed: {:?}",
                c,
                suits_to_remove
            ),
            None => break,
        }
    }
}

#[test]
fn unshuffled_deck_deals_in_reverse_order() {
    let mut deck = CardDeck::create_unshuffled_deck();
    // the ace of spades sits on top of an unshuffled deck
    assert_eq!(deck.next(), Some(Card { value: Value::Ace, suit: Suit::Spade }));
    let dealt = deck.deal_cards(2, false).unwrap();
    assert_eq!(dealt[0], Card { value: Value::King, suit: Suit::Spade });
    assert_eq!(dealt[1], Card { value: Value::Queen, suit: Suit::Spade });
}

#[test]
fn deal_more_than_available_fails() {
    let cards = Card::vec_from_str("2h5dAs").unwrap();
    let mut deck = CardDeck::new_custom_deck(cards);
    assert!(deck.deal_cards(4, false).is_none());
    assert!(deck.check_deal_cards(3, false));
    assert!(!deck.check_deal_cards(1, true));
    let dealt = deck.deal_cards(3, false).unwrap();
    assert_eq!(dealt.len(), 3);
}

#[test]
fn draw_discards_to_muck() {
    let cards = Card::vec_from_str("2h5dAsKc").unwrap();
    let discards = Card::vec_from_str("9h9d").unwrap();
    let mut deck = CardDeck::new_custom_deck(cards);
    let drawn = deck.draw_cards(2, Some(discards), false).unwrap();
    assert_eq!(drawn.len(), 2);
    assert_eq!(drawn[0], Card { value: Value::King, suit: Suit::Club });
    // the discards are available again once drawing against the muck
    assert!(deck.check_deal_cards(2, true));
}
