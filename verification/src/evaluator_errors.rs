//! Error values returned by the evaluators.

use vstd::prelude::*;
use vstd::string::*;

verus! {

/// An error raised while evaluating a hand: a cardinality problem (too few
/// or too many cards, with the subject and the bound carried along) or a
/// failure to produce a rank, with a descriptive reason.
#[derive(Debug, Clone, PartialEq, Eq)]
pub enum EvaluatorError {
    /// There are not enough cards provided to the evaluator.
    NotEnoughCards {
        /// Which set of cards was short.
        card_set_type: String,
        /// The expected amount of cards (at least).
        expected_count: u64,
        /// The actual amount of cards received.
        actual_count: u64,
    },
    /// There are too many cards provided to the evaluator.
    TooManyCards {
        /// Which set of cards was oversized.
        card_set_type: String,
        /// The expected amount of cards (at most).
        expected_count: u64,
        /// The actual amount of cards received.
        actual_count: u64,
    },
    /// The evaluator was unable to find a valid rank for the given hand.
    FailedToCalculateRank(String),
}

/// The character for one decimal digit.
pub open spec fn spec_digit_char(d: int) -> char {
    if d == 0 { '0' }
    else if d == 1 { '1' }
    else if d == 2 { '2' }
    else if d == 3 { '3' }
    else if d == 4 { '4' }
    else if d == 5 { '5' }
    else if d == 6 { '6' }
    else if d == 7 { '7' }
    else if d == 8 { '8' }
    else { '9' }
}

/// The decimal representation of a non-negative integer.
pub open spec fn spec_dec(n: int) -> Seq<char>
    decreases n,
{
    if n < 0 {
        Seq::empty()
    } else if n <= 9 {
        seq![spec_digit_char(n)]
    } else {
        spec_dec(n / 10) + seq![spec_digit_char(n % 10)]
    }
}

/// One decimal digit as a string slice.
fn digit_str(d: u64) -> (r: &'static str)
    requires
        d <= 9,
    ensures
        r@ == seq![spec_digit_char(d as int)],
{
    proof {
        reveal_strlit("0");
        reveal_strlit("1");
        reveal_strlit("2");
        reveal_strlit("3");
        reveal_strlit("4");
        reveal_strlit("5");
        reveal_strlit("6");
        reveal_strlit("7");
        reveal_strlit("8");
        reveal_strlit("9");
    }
    let r: &'static str = if d == 0 { "0" }
    else if d == 1 { "1" }
    else if d == 2 { "2" }
    else if d == 3 { "3" }
    else if d == 4 { "4" }
    else if d == 5 { "5" }
    else if d == 6 { "6" }
    else if d == 7 { "7" }
    else if d == 8 { "8" }
    else { "9" };
    proof {
        assert(r@ =~= seq![spec_digit_char(d as int)]);
    }
    r
}

/// Formats a number in decimal.
pub fn u64_to_string(n: u64) -> (s: String)
    ensures
        s@ == spec_dec(n as int),
    decreases n,
{
    if n <= 9 {
        digit_str(n).to_owned()
    } else {
        let mut s = u64_to_string(n / 10);
        s.append(digit_str(n % 10));
        s
    }
}

/// `base` with `plural_suffix` appended unless `n` is one.
pub fn pluralize(n: u64, base: &str, plural_suffix: &str) -> (s: String)
    ensures
        n == 1 ==> s@ == base@,
        n != 1 ==> s@ == base@ + plural_suffix@,
{
    if n == 1 {
        base.to_owned()
    } else {
        let mut s = base.to_owned();
        s.append(plural_suffix);
        s
    }
}

/// The message of a cardinality error, naming the subject, the bound and
/// the actual count.
pub open spec fn spec_cardinality_message(
    kind: Seq<char>,
    subject: Seq<char>,
    expected: int,
    actual: int,
) -> Seq<char> {
    subject + " does not have "@ + kind + spec_dec(expected) + " "@
        + (if expected == 1 { "card"@ } else { "cards"@ }) + " (Got instead "@
        + spec_dec(actual) + " "@ + (if actual == 1 { "card"@ } else { "cards"@ }) + ")"@
}

impl EvaluatorError {
    /// What `message` returns for each variant.
    pub open spec fn spec_message(self) -> Seq<char> {
        match self {
            EvaluatorError::NotEnoughCards { card_set_type, expected_count, actual_count } =>
                spec_cardinality_message(
                    "at least "@, card_set_type@, expected_count as int, actual_count as int),
            EvaluatorError::TooManyCards { card_set_type, expected_count, actual_count } =>
                spec_cardinality_message(
                    "at most "@, card_set_type@, expected_count as int, actual_count as int),
            EvaluatorError::FailedToCalculateRank(reason) =>
                "Failed to calculate rank based off of set of cards: "@ + reason@,
        }
    }

    /// Renders the error as a human-readable message.
    pub fn message(&self) -> (s: String)
        ensures
            s@ == self.spec_message(),
    {
        match self {
            EvaluatorError::NotEnoughCards { card_set_type, expected_count, actual_count } => {
                let mut s = card_set_type.clone();
                s.append(" does not have at least ");
                s.append(u64_to_string(*expected_count).as_str());
                s.append(" ");
                s.append(pluralize(*expected_count, "card", "s").as_str());
                s.append(" (Got instead ");
                s.append(u64_to_string(*actual_count).as_str());
                s.append(" ");
                s.append(pluralize(*actual_count, "card", "s").as_str());
                s.append(")");
                proof {
                    reveal_strlit(" does not have at least ");
                    reveal_strlit(" does not have ");
                    reveal_strlit("at least ");
                    reveal_strlit("card");
                    reveal_strlit("cards");
                    reveal_strlit("s");
                    assert(" does not have at least "@
                        =~= " does not have "@ + "at least "@);
                    assert("card"@ + "s"@ =~= "cards"@);
                    assert(s@ =~= self.spec_message());
                }
                s
            }
            EvaluatorError::TooManyCards { card_set_type, expected_count, actual_count } => {
                let mut s = card_set_type.clone();
                s.append(" does not have at most ");
                s.append(u64_to_string(*expected_count).as_str());
                s.append(" ");
                s.append(pluralize(*expected_count, "card", "s").as_str());
                s.append(" (Got instead ");
                s.append(u64_to_string(*actual_count).as_str());
                s.append(" ");
                s.append(pluralize(*actual_count, "card", "s").as_str());
                s.append(")");
                proof {
                    reveal_strlit(" does not have at most ");
                    reveal_strlit(" does not have ");
                    reveal_strlit("at most ");
                    reveal_strlit("card");
                    reveal_strlit("cards");
                    reveal_strlit("s");
                    assert(" does not have at most "@
                        =~= " does not have "@ + "at most "@);
                    assert("card"@ + "s"@ =~= "cards"@);
                    assert(s@ =~= self.spec_message());
                }
                s
            }
            EvaluatorError::FailedToCalculateRank(reason) => {
                let mut s = "Failed to calculate rank based off of set of cards: ".to_owned();
                s.append(reason.as_str());
                s
            }
        }
    }
}

} // verus!
