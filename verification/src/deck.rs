//! A deck of playing cards: dealing, drawing, and stripping cards, with a
//! muck for discards.  Shuffling needs a source of randomness and is left
//! to the caller; every operation here is deterministic.

use vstd::prelude::*;
use crate::card::{Card, Suit, Value};

verus! {

/// A deck of playing cards and its muck of discards.  Cards are dealt from
/// the end of the deck.
#[derive(Debug, Clone)]
pub struct CardDeck {
    deck: Vec<Card>,
    muck: Vec<Card>,
}

/// The card at position `i` of an unshuffled deck: suits in the order
/// hearts, clubs, diamonds, spades, values ascending within each suit.
pub open spec fn unshuffled_card(i: int) -> Card {
    Card { value: Value::spec_from_index(i % 13), suit: Suit::spec_from_index(i / 13) }
}

impl CardDeck {
    /// The remaining cards, in order; the last is dealt next.
    pub closed spec fn deck_view(self) -> Seq<Card> {
        self.deck@
    }

    /// The mucked cards, in order.
    pub closed spec fn muck_view(self) -> Seq<Card> {
        self.muck@
    }

    /// Creates the 52-card deck in its unshuffled order: the deuce of
    /// hearts through the ace of hearts, then clubs, diamonds, and spades.
    pub fn create_unshuffled_deck() -> (d: CardDeck)
        ensures
            d.deck_view().len() == 52,
            forall|i: int| 0 <= i < 52 ==> d.deck_view()[i] == unshuffled_card(i),
            d.muck_view() == Seq::<Card>::empty(),
    {
        let mut deck: Vec<Card> = Vec::new();
        let mut s: u8 = 0;
        while s < 4
            invariant
                s <= 4,
                deck@.len() == 13 * s as int,
                forall|i: int| 0 <= i < deck@.len() ==> deck@[i] == unshuffled_card(i),
            decreases 4 - s,
        {
            let suit = if s == 0 { Suit::Heart }
                else if s == 1 { Suit::Club }
                else if s == 2 { Suit::Diamond }
                else { Suit::Spade };
            let mut v: u8 = 0;
            while v < 13
                invariant
                    v <= 13,
                    s < 4,
                    suit == Suit::spec_from_index(s as int),
                    deck@.len() == 13 * s as int + v as int,
                    forall|i: int| 0 <= i < deck@.len() ==> deck@[i] == unshuffled_card(i),
                decreases 13 - v,
            {
                let value = match Value::from_index(v) {
                    Some(val) => val,
                    None => Value::Two,
                };
                deck.push(Card { value, suit });
                proof {
                    let i = deck@.len() - 1;
                    assert(i / 13 == s as int && i % 13 == v as int) by (nonlinear_arith)
                        requires i == 13 * (s as int) + (v as int) && 0 <= v < 13 && 0 <= s;
                }
                v = v + 1;
            }
            s = s + 1;
        }
        CardDeck { deck, muck: Vec::new() }
    }

    /// Creates a deck holding exactly the given cards, in the given
    /// order, with an empty muck.  Useful when a standard 52-card deck
    /// does not fit; shuffling, needing randomness, is left to the caller.
    pub fn new_custom_deck(cards: Vec<Card>) -> (d: CardDeck)
        ensures
            d.deck_view() == cards@,
            d.muck_view() == Seq::<Card>::empty(),
    {
        CardDeck { deck: cards, muck: Vec::new() }
    }

    /// Removes from the deck every card in `cards_to_remove`, returning
    /// the removed cards in deck order.
    pub fn strip_cards(&mut self, cards_to_remove: &Vec<Card>) -> (removed: Vec<Card>)
        ensures
            removed@ == old(self).deck_view().filter(
                |c: Card| cards_to_remove@.contains(c)),
            final(self).deck_view() == old(self).deck_view().filter(
                |c: Card| !cards_to_remove@.contains(c)),
            final(self).muck_view() == old(self).muck_view(),
    {
        let mut kept: Vec<Card> = Vec::new();
        let mut removed: Vec<Card> = Vec::new();
        let ghost orig = self.deck@;
        let mut i: usize = 0;
        proof {
            assert(orig.take(0) =~= Seq::<Card>::empty());
            assert(Seq::<Card>::empty().filter(|c: Card| cards_to_remove@.contains(c))
                =~= Seq::<Card>::empty());
            assert(Seq::<Card>::empty().filter(|c: Card| !cards_to_remove@.contains(c))
                =~= Seq::<Card>::empty());
        }
        while i < self.deck.len()
            invariant
                i <= self.deck@.len(),
                self.deck@ == orig,
                removed@ == orig.take(i as int).filter(|c: Card| cards_to_remove@.contains(c)),
                kept@ == orig.take(i as int).filter(|c: Card| !cards_to_remove@.contains(c)),
            decreases self.deck@.len() - i,
        {
            let c = self.deck[i];
            let mut found = false;
            let mut j: usize = 0;
            while j < cards_to_remove.len()
                invariant
                    j <= cards_to_remove@.len(),
                    found <==> exists|w: int| 0 <= w < j && cards_to_remove@[w] == c,
                decreases cards_to_remove@.len() - j,
            {
                if cards_to_remove[j] == c {
                    found = true;
                }
                j = j + 1;
            }
            proof {
                assert(found == cards_to_remove@.contains(c));
                assert(orig.take(i as int + 1).drop_last() =~= orig.take(i as int));
                assert(orig.take(i as int + 1).last() == c);
                reveal_with_fuel(Seq::filter, 2);
            }
            if found {
                removed.push(c);
            } else {
                kept.push(c);
            }
            i = i + 1;
        }
        proof {
            assert(orig.take(orig.len() as int) =~= orig);
        }
        self.deck = kept;
        removed
    }

    /// Removes from the deck every card whose value is in
    /// `ranks_to_remove`, returning the removed cards in deck order.
    pub fn strip_ranks(&mut self, ranks_to_remove: &Vec<Value>) -> (removed: Vec<Card>)
        ensures
            removed@ == old(self).deck_view().filter(
                |c: Card| ranks_to_remove@.contains(c.value)),
            final(self).deck_view() == old(self).deck_view().filter(
                |c: Card| !ranks_to_remove@.contains(c.value)),
            final(self).muck_view() == old(self).muck_view(),
    {
        let mut kept: Vec<Card> = Vec::new();
        let mut removed: Vec<Card> = Vec::new();
        let ghost orig = self.deck@;
        let mut i: usize = 0;
        proof {
            assert(orig.take(0) =~= Seq::<Card>::empty());
            assert(Seq::<Card>::empty().filter(|c: Card| ranks_to_remove@.contains(c.value))
                =~= Seq::<Card>::empty());
            assert(Seq::<Card>::empty().filter(|c: Card| !ranks_to_remove@.contains(c.value))
                =~= Seq::<Card>::empty());
        }
        while i < self.deck.len()
            invariant
                i <= self.deck@.len(),
                self.deck@ == orig,
                removed@ == orig.take(i as int).filter(
                    |c: Card| ranks_to_remove@.contains(c.value)),
                kept@ == orig.take(i as int).filter(
                    |c: Card| !ranks_to_remove@.contains(c.value)),
            decreases self.deck@.len() - i,
        {
            let c = self.deck[i];
            let mut found = false;
            let mut j: usize = 0;
            while j < ranks_to_remove.len()
                invariant
                    j <= ranks_to_remove@.len(),
                    found <==> exists|w: int| 0 <= w < j && ranks_to_remove@[w] == c.value,
                decreases ranks_to_remove@.len() - j,
            {
                if ranks_to_remove[j] == c.value {
                    found = true;
                }
                j = j + 1;
            }
            proof {
                assert(found == ranks_to_remove@.contains(c.value));
                assert(orig.take(i as int + 1).drop_last() =~= orig.take(i as int));
                assert(orig.take(i as int + 1).last() == c);
                reveal_with_fuel(Seq::filter, 2);
            }
            if found {
                removed.push(c);
            } else {
                kept.push(c);
            }
            i = i + 1;
        }
        proof {
            assert(orig.take(orig.len() as int) =~= orig);
        }
        self.deck = kept;
        removed
    }

    /// Removes from the deck every card whose suit is in
    /// `suits_to_remove`, returning the removed cards in deck order.
    pub fn strip_suits(&mut self, suits_to_remove: &Vec<Suit>) -> (removed: Vec<Card>)
        ensures
            removed@ == old(self).deck_view().filter(
                |c: Card| suits_to_remove@.contains(c.suit)),
            final(self).deck_view() == old(self).deck_view().filter(
                |c: Card| !suits_to_remove@.contains(c.suit)),
            final(self).muck_view() == old(self).muck_view(),
    {
        let mut kept: Vec<Card> = Vec::new();
        let mut removed: Vec<Card> = Vec::new();
        let ghost orig = self.deck@;
        let mut i: usize = 0;
        proof {
            assert(orig.take(0) =~= Seq::<Card>::empty());
            assert(Seq::<Card>::empty().filter(|c: Card| suits_to_remove@.contains(c.suit))
                =~= Seq::<Card>::empty());
            assert(Seq::<Card>::empty().filter(|c: Card| !suits_to_remove@.contains(c.suit))
                =~= Seq::<Card>::empty());
        }
        while i < self.deck.len()
            invariant
                i <= self.deck@.len(),
                self.deck@ == orig,
                removed@ == orig.take(i as int).filter(
                    |c: Card| suits_to_remove@.contains(c.suit)),
                kept@ == orig.take(i as int).filter(
                    |c: Card| !suits_to_remove@.contains(c.suit)),
            decreases self.deck@.len() - i,
        {
            let c = self.deck[i];
            let mut found = false;
            let mut j: usize = 0;
            while j < suits_to_remove.len()
                invariant
                    j <= suits_to_remove@.len(),
                    found <==> exists|w: int| 0 <= w < j && suits_to_remove@[w] == c.suit,
                decreases suits_to_remove@.len() - j,
            {
                if suits_to_remove[j] == c.suit {
                    found = true;
                }
                j = j + 1;
            }
            proof {
                assert(found == suits_to_remove@.contains(c.suit));
                assert(orig.take(i as int + 1).drop_last() =~= orig.take(i as int));
                assert(orig.take(i as int + 1).last() == c);
                reveal_with_fuel(Seq::filter, 2);
            }
            if found {
                removed.push(c);
            } else {
                kept.push(c);
            }
            i = i + 1;
        }
        proof {
            assert(orig.take(orig.len() as int) =~= orig);
        }
        self.deck = kept;
        removed
    }

    /// Adds the given cards to the muck.
    pub fn muck_cards(&mut self, cards: Vec<Card>)
        ensures
            final(self).muck_view() == old(self).muck_view() + cards@,
            final(self).deck_view() == old(self).deck_view(),
    {
        let mut cards = cards;
        self.muck.append(&mut cards);
    }

    /// Empties the muck and hands its cards back, in muck order.
    pub fn take_muck(&mut self) -> (r: Vec<Card>)
        ensures
            r@ == old(self).muck_view(),
            final(self).muck_view() == Seq::<Card>::empty(),
            final(self).deck_view() == old(self).deck_view(),
    {
        let mut taken: Vec<Card> = Vec::new();
        std::mem::swap(&mut taken, &mut self.muck);
        taken
    }

    /// Checks whether enough cards remain to deal: against the muck size
    /// when `include_muck` is set, else against the deck size.
    pub fn check_deal_cards(&self, cards_to_deal: usize, include_muck: bool) -> (r: bool)
        ensures
            r == (cards_to_deal as int <= if include_muck {
                self.muck_view().len() as int
            } else {
                self.deck_view().len() as int
            }),
    {
        let total_cards = if include_muck { self.muck.len() } else { self.deck.len() };
        total_cards >= cards_to_deal
    }

    /// Takes the next card from the end of the deck.
    pub fn next(&mut self) -> (r: Option<Card>)
        ensures
            old(self).deck_view().len() == 0 ==> (r is None
                && final(self).deck_view() == old(self).deck_view()),
            old(self).deck_view().len() > 0 ==> (r == Some(old(self).deck_view().last())
                && final(self).deck_view() == old(self).deck_view().drop_last()),
            final(self).muck_view() == old(self).muck_view(),
    {
        self.deck.pop()
    }

    /// Deals `cards_to_deal` cards from the end of the deck, or `None`
    /// when the availability check fails.  When the check passes against
    /// the muck, fewer cards may be dealt than asked for once the deck
    /// itself runs out.
    pub fn deal_cards(&mut self, cards_to_deal: usize, include_muck: bool) -> (r: Option<
        Vec<Card>,
    >)
        ensures
            final(self).muck_view() == old(self).muck_view(),
            (r is None) == (cards_to_deal as int > if include_muck {
                old(self).muck_view().len() as int
            } else {
                old(self).deck_view().len() as int
            }),
            r is None ==> final(self).deck_view() == old(self).deck_view(),
            r matches Some(dealt) ==> ({
                let m = if cards_to_deal as int <= old(self).deck_view().len() as int {
                    cards_to_deal as int
                } else {
                    old(self).deck_view().len() as int
                };
                &&& dealt@.len() == m
                &&& (forall|i: int| 0 <= i < m ==> dealt@[i] == old(self).deck_view()[
                    old(self).deck_view().len() - 1 - i])
                &&& final(self).deck_view() == old(self).deck_view().take(
                    old(self).deck_view().len() - m)
            }),
    {
        if !self.check_deal_cards(cards_to_deal, include_muck) {
            return None;
        }
        let ghost orig = self.deck@;
        let mut cards_dealt: Vec<Card> = Vec::new();
        let mut i: usize = 0;
        while i < cards_to_deal
            invariant
                i <= cards_to_deal,
                self.muck@ == old(self).muck@,
                ({
                    let m = if i as int <= orig.len() as int { i as int } else {
                        orig.len() as int
                    };
                    &&& cards_dealt@.len() == m
                    &&& (forall|w: int| 0 <= w < m ==> cards_dealt@[w] == orig[
                        orig.len() - 1 - w])
                    &&& self.deck@ == orig.take(orig.len() - m)
                }),
            decreases cards_to_deal - i,
        {
            proof {
                assert(orig.take(orig.len() as int) =~= orig);
                let m = if i as int <= orig.len() as int { i as int } else { orig.len() as int };
                if m < orig.len() {
                    assert(orig.take(orig.len() - m).drop_last()
                        =~= orig.take(orig.len() - (m + 1)));
                    assert(orig.take(orig.len() - m).last() == orig[orig.len() - 1 - m]);
                }
            }
            match self.next() {
                Some(c) => {
                    cards_dealt.push(c);
                }
                None => {}
            }
            i = i + 1;
        }
        Some(cards_dealt)
    }

    /// Discards the given cards to the muck and then deals
    /// `cards_to_deal` cards.  When drawing against the muck, the discards
    /// count toward the availability check.
    pub fn draw_cards(
        &mut self,
        cards_to_deal: usize,
        discard_cards: Option<Vec<Card>>,
        include_muck: bool,
    ) -> (r: Option<Vec<Card>>)
        requires
            include_muck && discard_cards is Some
                ==> discard_cards.unwrap()@.len() <= cards_to_deal,
        ensures
            ({
                let needed = cards_to_deal as int - (match discard_cards {
                    Some(d) => if include_muck { d@.len() as int } else { 0 },
                    None => 0,
                });
                let avail = if include_muck {
                    old(self).muck_view().len() as int
                } else {
                    old(self).deck_view().len() as int
                };
                &&& (r is Some <==> needed <= avail)
                &&& (needed > avail ==> (final(self).deck_view() == old(self).deck_view()
                    && final(self).muck_view() == old(self).muck_view()))
            }),
            r is Some ==> final(self).muck_view() == old(self).muck_view() + (
                match discard_cards {
                    Some(d) => d@,
                    None => Seq::<Card>::empty(),
                }),
            r matches Some(dealt) ==> ({
                let m = if cards_to_deal as int <= old(self).deck_view().len() as int {
                    cards_to_deal as int
                } else {
                    old(self).deck_view().len() as int
                };
                &&& dealt@.len() == m
                &&& (forall|i: int| 0 <= i < m ==> dealt@[i] == old(self).deck_view()[
                    old(self).deck_view().len() - 1 - i])
                &&& final(self).deck_view() == old(self).deck_view().take(
                    old(self).deck_view().len() - m)
            }),
    {
        let needed = cards_to_deal - (match &discard_cards {
            Some(d) => if include_muck { d.len() } else { 0 },
            None => 0,
        });
        if !self.check_deal_cards(needed, include_muck) {
            return None;
        }
        match discard_cards {
            Some(c) => self.muck_cards(c),
            None => {}
        }
        self.deal_cards(cards_to_deal, include_muck)
    }
}

} // verus!
