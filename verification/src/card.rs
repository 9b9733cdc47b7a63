//! Card values, suits, and the Cactus-Kev card encoding.

use vstd::prelude::*;
use vstd::arithmetic::power2::{pow2, lemma2_to64, lemma2_to64_rest};
use vstd::string::*;
use std::str::FromStr;

verus! {

/// The rank of a card, from Two (weakest) to Ace (strongest).
#[derive(Debug, Clone, Copy, PartialEq, Eq, Structural)]
pub enum Value {
    Two,
    Three,
    Four,
    Five,
    Six,
    Seven,
    Eight,
    Nine,
    Ten,
    Jack,
    Queen,
    King,
    Ace,
}

/// The suit of a card; suits have no relative strength.
#[derive(Debug, Clone, Copy, PartialEq, Eq, Structural)]
pub enum Suit {
    Heart,
    Club,
    Diamond,
    Spade,
}

impl Value {
    /// The ordinal of the value: 0 for Two up to 12 for Ace.
    pub open spec fn index(self) -> int {
        match self {
            Value::Two => 0,
            Value::Three => 1,
            Value::Four => 2,
            Value::Five => 3,
            Value::Six => 4,
            Value::Seven => 5,
            Value::Eight => 6,
            Value::Nine => 7,
            Value::Ten => 8,
            Value::Jack => 9,
            Value::Queen => 10,
            Value::King => 11,
            Value::Ace => 12,
        }
    }

    /// The value with the given ordinal.
    pub open spec fn spec_from_index(n: int) -> Value
        recommends 0 <= n < 13,
    {
        if n == 0 { Value::Two }
        else if n == 1 { Value::Three }
        else if n == 2 { Value::Four }
        else if n == 3 { Value::Five }
        else if n == 4 { Value::Six }
        else if n == 5 { Value::Seven }
        else if n == 6 { Value::Eight }
        else if n == 7 { Value::Nine }
        else if n == 8 { Value::Ten }
        else if n == 9 { Value::Jack }
        else if n == 10 { Value::Queen }
        else if n == 11 { Value::King }
        else { Value::Ace }
    }

    /// Returns the ordinal of the value as an integer.
    pub fn to_index(&self) -> (r: u8)
        ensures
            r as int == self.index(),
    {
        match self {
            Value::Two => 0,
            Value::Three => 1,
            Value::Four => 2,
            Value::Five => 3,
            Value::Six => 4,
            Value::Seven => 5,
            Value::Eight => 6,
            Value::Nine => 7,
            Value::Ten => 8,
            Value::Jack => 9,
            Value::Queen => 10,
            Value::King => 11,
            Value::Ace => 12,
        }
    }

    /// Returns the value with ordinal `n`, or `None` when `n` is out of range.
    pub fn from_index(n: u8) -> (r: Option<Value>)
        ensures
            n < 13 ==> r == Some(Value::spec_from_index(n as int)),
            n >= 13 ==> r is None,
    {
        match n {
            0 => Some(Value::Two),
            1 => Some(Value::Three),
            2 => Some(Value::Four),
            3 => Some(Value::Five),
            4 => Some(Value::Six),
            5 => Some(Value::Seven),
            6 => Some(Value::Eight),
            7 => Some(Value::Nine),
            8 => Some(Value::Ten),
            9 => Some(Value::Jack),
            10 => Some(Value::Queen),
            11 => Some(Value::King),
            12 => Some(Value::Ace),
            _ => None,
        }
    }

    /// Returns the value with ordinal `n`, or `None` when `n` is out of range.
    ///
    /// Convenience form used when decoding sub-ranks, which are 16-bit.
    pub fn from_int(n: u16) -> (r: Option<Value>)
        ensures
            n < 13 ==> r == Some(Value::spec_from_index(n as int)),
            n >= 13 ==> r is None,
    {
        if n < 13 {
            Value::from_index(n as u8)
        } else {
            None
        }
    }

    /// The single-character form of the value, as used in two-character card strings.
    pub open spec fn spec_char(self) -> char {
        match self {
            Value::Two => '2',
            Value::Three => '3',
            Value::Four => '4',
            Value::Five => '5',
            Value::Six => '6',
            Value::Seven => '7',
            Value::Eight => '8',
            Value::Nine => '9',
            Value::Ten => 'T',
            Value::Jack => 'J',
            Value::Queen => 'Q',
            Value::King => 'K',
            Value::Ace => 'A',
        }
    }

    /// Gets the associated character for the value (e.g. `'A'` for Ace, `'5'` for Five).
    pub fn get_char(&self) -> (c: char)
        ensures
            c == self.spec_char(),
    {
        match self {
            Value::Two => '2',
            Value::Three => '3',
            Value::Four => '4',
            Value::Five => '5',
            Value::Six => '6',
            Value::Seven => '7',
            Value::Eight => '8',
            Value::Nine => '9',
            Value::Ten => 'T',
            Value::Jack => 'J',
            Value::Queen => 'Q',
            Value::King => 'K',
            Value::Ace => 'A',
        }
    }

    /// What `from_char` returns: the value whose character is `c`, case-insensitively.
    pub open spec fn spec_from_char(c: char) -> Option<Value> {
        if c == '2' { Some(Value::Two) }
        else if c == '3' { Some(Value::Three) }
        else if c == '4' { Some(Value::Four) }
        else if c == '5' { Some(Value::Five) }
        else if c == '6' { Some(Value::Six) }
        else if c == '7' { Some(Value::Seven) }
        else if c == '8' { Some(Value::Eight) }
        else if c == '9' { Some(Value::Nine) }
        else if c == 'T' || c == 't' { Some(Value::Ten) }
        else if c == 'J' || c == 'j' { Some(Value::Jack) }
        else if c == 'Q' || c == 'q' { Some(Value::Queen) }
        else if c == 'K' || c == 'k' { Some(Value::King) }
        else if c == 'A' || c == 'a' { Some(Value::Ace) }
        else { None }
    }

    /// Parses a character into a value, case-insensitively.
    pub fn from_char(c: char) -> (r: Option<Value>)
        ensures
            r == Value::spec_from_char(c),
    {
        match c {
            '2' => Some(Value::Two),
            '3' => Some(Value::Three),
            '4' => Some(Value::Four),
            '5' => Some(Value::Five),
            '6' => Some(Value::Six),
            '7' => Some(Value::Seven),
            '8' => Some(Value::Eight),
            '9' => Some(Value::Nine),
            'T' | 't' => Some(Value::Ten),
            'J' | 'j' => Some(Value::Jack),
            'Q' | 'q' => Some(Value::Queen),
            'K' | 'k' => Some(Value::King),
            'A' | 'a' => Some(Value::Ace),
            _ => None,
        }
    }

    /// The human-readable form of the value: digits for numeric ranks
    /// (`"10"`, not `"T"`) and words for face cards and the Ace.
    pub open spec fn spec_readable(self) -> Seq<char> {
        match self {
            Value::Two => "2"@,
            Value::Three => "3"@,
            Value::Four => "4"@,
            Value::Five => "5"@,
            Value::Six => "6"@,
            Value::Seven => "7"@,
            Value::Eight => "8"@,
            Value::Nine => "9"@,
            Value::Ten => "10"@,
            Value::Jack => "Jack"@,
            Value::Queen => "Queen"@,
            Value::King => "King"@,
            Value::Ace => "Ace"@,
        }
    }

    /// Returns a prettified string of the value, for use in rank descriptions.
    pub fn get_readable_string(&self) -> (s: String)
        ensures
            s@ == self.spec_readable(),
    {
        match self {
            Value::Two => "2".to_owned(),
            Value::Three => "3".to_owned(),
            Value::Four => "4".to_owned(),
            Value::Five => "5".to_owned(),
            Value::Six => "6".to_owned(),
            Value::Seven => "7".to_owned(),
            Value::Eight => "8".to_owned(),
            Value::Nine => "9".to_owned(),
            Value::Ten => "10".to_owned(),
            Value::Jack => "Jack".to_owned(),
            Value::Queen => "Queen".to_owned(),
            Value::King => "King".to_owned(),
            Value::Ace => "Ace".to_owned(),
        }
    }

    /// The prime number assigned to the value in the Cactus-Kev encoding.
    pub open spec fn spec_prime(self) -> int {
        match self {
            Value::Two => 2,
            Value::Three => 3,
            Value::Four => 5,
            Value::Five => 7,
            Value::Six => 11,
            Value::Seven => 13,
            Value::Eight => 17,
            Value::Nine => 19,
            Value::Ten => 23,
            Value::Jack => 29,
            Value::Queen => 31,
            Value::King => 37,
            Value::Ace => 41,
        }
    }

    /// Returns the associated Cactus-Kev prime for the value.
    pub fn get_cactus_kev_prime(&self) -> (p: u8)
        ensures
            p as int == self.spec_prime(),
    {
        match self {
            Value::Two => 2,
            Value::Three => 3,
            Value::Four => 5,
            Value::Five => 7,
            Value::Six => 11,
            Value::Seven => 13,
            Value::Eight => 17,
            Value::Nine => 19,
            Value::Ten => 23,
            Value::Jack => 29,
            Value::Queen => 31,
            Value::King => 37,
            Value::Ace => 41,
        }
    }

    /// Returns true if the value is a face card (Jack, Queen, or King).
    pub fn is_face_card(&self) -> (r: bool)
        ensures
            r == (self is Jack || self is Queen || self is King),
    {
        matches!(self, Value::Jack | Value::Queen | Value::King)
    }
}

impl Suit {
    /// The ordinal of the suit: Heart 0, Club 1, Diamond 2, Spade 3.
    pub open spec fn index(self) -> int {
        match self {
            Suit::Heart => 0,
            Suit::Club => 1,
            Suit::Diamond => 2,
            Suit::Spade => 3,
        }
    }

    /// The suit with the given ordinal.
    pub open spec fn spec_from_index(n: int) -> Suit
        recommends 0 <= n < 4,
    {
        if n == 0 { Suit::Heart }
        else if n == 1 { Suit::Club }
        else if n == 2 { Suit::Diamond }
        else { Suit::Spade }
    }

    /// Returns the ordinal of the suit as an integer.
    pub fn to_index(&self) -> (r: u8)
        ensures
            r as int == self.index(),
    {
        match self {
            Suit::Heart => 0,
            Suit::Club => 1,
            Suit::Diamond => 2,
            Suit::Spade => 3,
        }
    }

    /// The bit position (within the suit nibble) used by the Cactus-Kev encoding.
    pub open spec fn spec_kev_bit(self) -> int {
        match self {
            Suit::Heart => 1,
            Suit::Club => 3,
            Suit::Diamond => 2,
            Suit::Spade => 0,
        }
    }

    /// The lower-case character form of the suit.
    pub open spec fn spec_char(self) -> char {
        match self {
            Suit::Heart => 'h',
            Suit::Club => 'c',
            Suit::Diamond => 'd',
            Suit::Spade => 's',
        }
    }

    /// Gets the associated character for the suit (e.g. `'s'` for spades).
    pub fn get_char(&self) -> (c: char)
        ensures
            c == self.spec_char(),
    {
        match self {
            Suit::Heart => 'h',
            Suit::Club => 'c',
            Suit::Diamond => 'd',
            Suit::Spade => 's',
        }
    }

    /// What `from_char` returns: a case-insensitive letter or the suit's
    /// symbol character.
    pub open spec fn spec_from_char(c: char) -> Option<Suit> {
        if c == 'h' || c == 'H' || c == '♥' { Some(Suit::Heart) }
        else if c == 'c' || c == 'C' || c == '♣' { Some(Suit::Club) }
        else if c == 'd' || c == 'D' || c == '♦' { Some(Suit::Diamond) }
        else if c == 's' || c == 'S' || c == '♠' { Some(Suit::Spade) }
        else { None }
    }

    /// Parses a character into a suit: a case-insensitive letter or a suit symbol.
    pub fn from_char(c: char) -> (r: Option<Suit>)
        ensures
            r == Suit::spec_from_char(c),
    {
        match c {
            'h' | 'H' | '♥' => Some(Suit::Heart),
            'c' | 'C' | '♣' => Some(Suit::Club),
            'd' | 'D' | '♦' => Some(Suit::Diamond),
            's' | 'S' | '♠' => Some(Suit::Spade),
            _ => None,
        }
    }

    /// The symbol form of the suit, used when formatting a card for display.
    pub open spec fn spec_symbol(self) -> Seq<char> {
        match self {
            Suit::Heart => "♥"@,
            Suit::Club => "♣"@,
            Suit::Diamond => "♦"@,
            Suit::Spade => "♠"@,
        }
    }
}

/// A structural representation of a playing card.
#[derive(Debug, Clone, Copy, PartialEq, Eq, Structural)]
pub struct Card {
    /// The value of the card.
    pub value: Value,
    /// The suit of the card.
    pub suit: Suit,
}

impl Card {
    /// The canonical integer identity of the card, in 1..=52.
    pub open spec fn spec_to_int(self) -> int {
        self.value.index() * 4 + self.suit.index() + 1
    }

    /// The card with canonical integer `n`, for `n` in 1..=52.
    pub open spec fn spec_from_int(n: int) -> Card
        recommends 1 <= n <= 52,
    {
        Card {
            value: Value::spec_from_index((n - 1) / 4),
            suit: Suit::spec_from_index((n - 1) % 4),
        }
    }

    /// Turns the card into its canonical integer in 1..=52.
    pub fn to_int(&self) -> (r: i32)
        ensures
            r as int == self.spec_to_int(),
            1 <= r <= 52,
    {
        ((self.value.to_index() as i32) * 4) + (self.suit.to_index() as i32) + 1
    }

    /// Returns the card with canonical integer `n`, or `None` when `n` is
    /// outside 1..=52.  Out-of-range integers are rejected, never clamped.
    pub fn from_int(n: i32) -> (r: Option<Card>)
        ensures
            1 <= n <= 52 ==> r == Some(Card::spec_from_int(n as int)),
            !(1 <= n <= 52) ==> r is None,
    {
        if n < 1 || n > 52 {
            return None;
        }
        let v = Value::from_index(((n - 1) / 4) as u8);
        let s = ((n - 1) % 4) as u8;
        let suit = if s == 0 { Suit::Heart }
            else if s == 1 { Suit::Club }
            else if s == 2 { Suit::Diamond }
            else { Suit::Spade };
        match v {
            Some(value) => Some(Card { value, suit }),
            None => None,
        }
    }

    /// The 32-bit Cactus-Kev bit pattern of the card: a one-hot rank bit in
    /// bits 16..=28, a one-hot suit bit in bits 12..=15, the rank ordinal in
    /// bits 8..=11, and the rank's prime in bits 0..=7.
    pub open spec fn spec_bit_pattern(self) -> int {
        pow2((16 + self.value.index()) as nat) as int
            + pow2((12 + self.suit.spec_kev_bit()) as nat) as int
            + self.value.index() * 256
            + self.value.spec_prime()
    }

    /// Calculates the Cactus-Kev bit pattern for the card.
    pub fn calculate_bit_pattern(&self) -> (r: u32)
        ensures
            r as int == self.spec_bit_pattern(),
    {
        proof {
            lemma2_to64();
            lemma2_to64_rest();
        }
        let v = self.value.to_index() as u32;
        let rank_bit: u32 = 1u32 << (16 + v);
        let suit_shift: u32 = match self.suit {
            Suit::Heart => 13,
            Suit::Club => 15,
            Suit::Diamond => 14,
            Suit::Spade => 12,
        };
        let suit_bit: u32 = 1u32 << suit_shift;
        assert(rank_bit == pow2((16 + self.value.index()) as nat)) by {
            vstd::bits::lemma_u32_shl_is_mul(1u32, (16 + v) as u32);
        }
        assert(suit_bit == pow2((12 + self.suit.spec_kev_bit()) as nat)) by {
            vstd::bits::lemma_u32_shl_is_mul(1u32, suit_shift);
        }
        rank_bit + suit_bit + v * 256 + (self.value.get_cactus_kev_prime() as u32)
    }

    /// Returns true if the card is a face card (Jack, Queen, or King).
    pub fn is_face_card(&self) -> (r: bool)
        ensures
            r == (self.value is Jack || self.value is Queen || self.value is King),
    {
        self.value.is_face_card()
    }

    /// The canonical two-character form of the card: its upper-case value
    /// character followed by its lower-case suit letter (`"As"`, `"Th"`).
    pub open spec fn spec_display(self) -> Seq<char> {
        seq![self.value.spec_char(), self.suit.spec_char()]
    }

    /// The display form of the card: its value character followed by the
    /// suit's symbol.
    pub open spec fn spec_symbol_display(self) -> Seq<char> {
        seq![self.value.spec_char()] + self.suit.spec_symbol()
    }

    /// The single-character string of a value, for building card strings.
    fn value_str(&self) -> (r: &'static str)
        ensures
            r@ == seq![self.value.spec_char()],
    {
        proof {
            reveal_strlit("2");
            reveal_strlit("3");
            reveal_strlit("4");
            reveal_strlit("5");
            reveal_strlit("6");
            reveal_strlit("7");
            reveal_strlit("8");
            reveal_strlit("9");
            reveal_strlit("T");
            reveal_strlit("J");
            reveal_strlit("Q");
            reveal_strlit("K");
            reveal_strlit("A");
        }
        let r: &'static str = match self.value {
            Value::Two => "2",
            Value::Three => "3",
            Value::Four => "4",
            Value::Five => "5",
            Value::Six => "6",
            Value::Seven => "7",
            Value::Eight => "8",
            Value::Nine => "9",
            Value::Ten => "T",
            Value::Jack => "J",
            Value::Queen => "Q",
            Value::King => "K",
            Value::Ace => "A",
        };
        proof {
            assert(r@ =~= seq![self.value.spec_char()]);
        }
        r
    }

    /// Formats the card in its canonical two-character form: the value
    /// character, upper case, followed by the suit letter, lower case
    /// (e.g. the ace of spades formats as the value character `A` and the
    /// suit letter `s`).
    pub fn card_string(&self) -> (s: String)
        ensures
            s@ == self.spec_display(),
    {
        let mut s = self.value_str().to_owned();
        proof {
            reveal_strlit("h");
            reveal_strlit("c");
            reveal_strlit("d");
            reveal_strlit("s");
        }
        let suit: &str = match self.suit {
            Suit::Heart => "h",
            Suit::Club => "c",
            Suit::Diamond => "d",
            Suit::Spade => "s",
        };
        s.append(suit);
        proof {
            assert(s@ =~= self.spec_display());
        }
        s
    }

    /// Formats the card with its suit rendered as a symbol; the value
    /// character is unchanged.  The symbol form re-parses like the
    /// canonical form, since `Suit::from_char` accepts the symbols too.
    pub fn symbol_string(&self) -> (s: String)
        ensures
            s@ == self.spec_symbol_display(),
    {
        let mut s = self.value_str().to_owned();
        let sym: &str = match self.suit {
            Suit::Heart => "♥",
            Suit::Club => "♣",
            Suit::Diamond => "♦",
            Suit::Spade => "♠",
        };
        s.append(sym);
        proof {
            assert(s@ =~= self.spec_symbol_display());
        }
        s
    }

    /// What parsing a two-character card string yields.
    pub open spec fn spec_parse2(cv: char, cs: char) -> Option<Card> {
        match (Value::spec_from_char(cv), Suit::spec_from_char(cs)) {
            (Some(value), Some(suit)) => Some(Card { value, suit }),
            _ => None,
        }
    }

    /// Parses a two-character card string (value character then suit
    /// character, case-insensitive).  Returns a descriptive error when the
    /// string is not exactly two characters or either character is invalid.
    pub fn parse_str(s: &str) -> (r: Result<Card, String>)
        ensures
            ({
                let n = s@.len();
                &&& n != 2 ==> (r matches Err(e)
                    && e@ == "Card string \""@ + s@ + "\" is not exactly a length of 2"@)
                &&& n == 2 && Value::spec_from_char(s@[0]) is None ==> (r matches Err(e)
                    && e@ == "Card value \""@ + seq![s@[0]] + "\" was not a valid character"@)
                &&& n == 2 && Value::spec_from_char(s@[0]) is Some
                    && Suit::spec_from_char(s@[1]) is None ==> (r matches Err(e)
                    && e@ == "Card suit \""@ + seq![s@[1]] + "\" was not a valid character"@)
                &&& n == 2 && Card::spec_parse2(s@[0], s@[1]) is Some
                    ==> r == Ok::<Card, String>(Card::spec_parse2(s@[0], s@[1]).unwrap())
            }),
    {
        let n = s.unicode_len();
        if n != 2 {
            let mut e = "Card string \"".to_owned();
            e.append(s);
            e.append("\" is not exactly a length of 2");
            return Err(e);
        }
        let cv = s.get_char(0);
        let cs = s.get_char(1);
        match Value::from_char(cv) {
            None => {
                let mut e = "Card value \"".to_owned();
                e.append(s.substring_char(0, 1));
                e.append("\" was not a valid character");
                proof {
                    assert(s@.subrange(0, 1) =~= seq![s@[0]]);
                }
                Err(e)
            }
            Some(value) => {
                match Suit::from_char(cs) {
                    None => {
                        let mut e = "Card suit \"".to_owned();
                        e.append(s.substring_char(1, 2));
                        e.append("\" was not a valid character");
                        proof {
                            assert(s@.subrange(1, 2) =~= seq![s@[1]]);
                        }
                        Err(e)
                    }
                    Some(suit) => Ok(Card { value, suit }),
                }
            }
        }
    }

    /// What a whole card-list string parses to, two characters per card.
    pub open spec fn spec_parse_seq(s: Seq<char>) -> Option<Seq<Card>>
        decreases s.len(),
    {
        if s.len() == 0 {
            Some(Seq::empty())
        } else if s.len() == 1 {
            None
        } else {
            match (Card::spec_parse2(s[0], s[1]), Card::spec_parse_seq(s.skip(2))) {
                (Some(c), Some(rest)) => Some(seq![c] + rest),
                _ => None,
            }
        }
    }

    /// Takes in a string of two-character cards and returns the cards in
    /// order.  An odd-length string or any invalid pair is rejected.
    pub fn vec_from_str(s: &str) -> (r: Result<Vec<Card>, String>)
        ensures
            Card::spec_parse_seq(s@) matches Some(cards) ==> (r matches Ok(v) && v@ == cards),
            Card::spec_parse_seq(s@) is None ==> (r matches Err(e) && e@ == "not a valid string"@),
    {
        let n = s.unicode_len();
        if n % 2 != 0 {
            proof {
                lemma_parse_seq_odd_none(s@);
            }
            return Err("not a valid string".to_owned());
        }
        let mut cards: Vec<Card> = Vec::new();
        let mut i: usize = 0;
        proof {
            assert(s@.skip(0) =~= s@);
        }
        while i < n
            invariant
                i % 2 == 0,
                i <= n,
                n % 2 == 0,
                n == s@.len(),
                Card::spec_parse_seq(s@) matches Some(cs)
                    ==> cards@ == cs.take(i as int / 2),
                Card::spec_parse_seq(s@) is Some
                    <==> Card::spec_parse_seq(s@.skip(i as int)) is Some,
            decreases n - i,
        {
            proof {
                assert(i + 2 <= n) by {
                    assert(i < n && i % 2 == 0 && n % 2 == 0);
                    assert(i + 1 == n ==> n % 2 == 1);
                }
            }
            let cv = s.get_char(i);
            let cs = s.get_char(i + 1);
            let v = Value::from_char(cv);
            let su = Suit::from_char(cs);
            proof {
                assert(s@.skip(i as int).len() >= 2);
                assert(s@.skip(i as int)[0] == s@[i as int]);
                assert(s@.skip(i as int)[1] == s@[i as int + 1]);
                assert(s@.skip(i as int).skip(2) =~= s@.skip(i as int + 2));
            }
            match (v, su) {
                (Some(value), Some(suit)) => {
                    cards.push(Card { value, suit });
                    proof {
                        assert(Card::spec_parse2(s@[i as int], s@[i as int + 1])
                            == Some(Card { value, suit }));
                        if Card::spec_parse_seq(s@) is Some {
                            lemma_parse_seq_take_step(s@, i as int);
                        }
                    }
                }
                _ => {
                    proof {
                        assert(Card::spec_parse2(s@[i as int], s@[i as int + 1]) is None);
                        assert(Card::spec_parse_seq(s@.skip(i as int)) is None);
                    }
                    return Err("not a valid string".to_owned());
                }
            }
            i = i + 2;
        }
        proof {
            assert(s@.skip(n as int) =~= Seq::<char>::empty());
            assert(Card::spec_parse_seq(s@.skip(n as int)) == Some(Seq::<Card>::empty()));
            if let Some(cs_all) = Card::spec_parse_seq(s@) {
                assert(cards@ == cs_all.take(n as int / 2));
                lemma_parse_seq_len(s@);
                assert(cs_all.take(n as int / 2) =~= cs_all);
            }
        }
        Ok(cards)
    }
}

/// An odd-length string never parses to a card list.
proof fn lemma_parse_seq_odd_none(s: Seq<char>)
    requires
        s.len() % 2 == 1,
    ensures
        Card::spec_parse_seq(s) is None,
    decreases s.len(),
{
    if s.len() > 1 {
        assert(s.skip(2).len() % 2 == 1);
        lemma_parse_seq_odd_none(s.skip(2));
    }
}

/// A parsed card list has one card for every two characters.
proof fn lemma_parse_seq_len(s: Seq<char>)
    requires
        Card::spec_parse_seq(s) is Some,
    ensures
        Card::spec_parse_seq(s).unwrap().len() == s.len() / 2,
    decreases s.len(),
{
    if s.len() >= 2 {
        lemma_parse_seq_len(s.skip(2));
    }
}

/// Relates the parse of a suffix to the whole parse: if the whole string
/// parses, the card at pair `i/2` comes from the pair at position `i`.
proof fn lemma_parse_seq_take_step(s: Seq<char>, i: int)
    requires
        0 <= i,
        i % 2 == 0,
        i + 2 <= s.len(),
        Card::spec_parse_seq(s) is Some,
    ensures
        ({
            let all = Card::spec_parse_seq(s).unwrap();
            &&& i / 2 < all.len()
            &&& Card::spec_parse2(s[i], s[i + 1]) == Some(all[i / 2])
            &&& all.take(i / 2 + 1) == all.take(i / 2).push(all[i / 2])
        }),
    decreases i,
{
    lemma_parse_seq_len(s);
    let all = Card::spec_parse_seq(s).unwrap();
    if i == 0 {
        assert(all == seq![Card::spec_parse2(s[0], s[1]).unwrap()]
            + Card::spec_parse_seq(s.skip(2)).unwrap());
        assert(all[0] == Card::spec_parse2(s[0], s[1]).unwrap());
    } else {
        let rest = Card::spec_parse_seq(s.skip(2)).unwrap();
        assert(s.skip(2)[i - 2] == s[i]);
        assert(s.skip(2)[i - 1] == s[i + 1]);
        lemma_parse_seq_take_step(s.skip(2), i - 2);
        assert(all == seq![Card::spec_parse2(s[0], s[1]).unwrap()] + rest);
        assert(all[i / 2] == rest[(i - 2) / 2]);
    }
    assert(all.take(i / 2 + 1) =~= all.take(i / 2).push(all[i / 2]));
}

impl FromStr for Card {
    type Err = String;

    fn from_str(s: &str) -> Result<Self, Self::Err> {
        Self::parse_str(s)
    }
}

} // verus!
