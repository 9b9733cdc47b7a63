//! Derivation of the human-readable description of a hand from its
//! category and sub-rank, by inverse combinatorial arithmetic.

use vstd::prelude::*;
use vstd::string::*;
use crate::card::Value;
use crate::five_card::{spec_decode_cat, spec_decode_sub};

verus! {

/// Whether `sub` is a valid sub-rank for category `h`: each category has a
/// fixed number of sub-ranks (1277 high cards, 2860 pairs, 858 two pairs,
/// 858 three of a kinds, 10 straights, 1277 flushes, 156 full houses, 156
/// four of a kinds, 10 straight flushes).
pub open spec fn spec_description_ok(h: int, sub: int) -> bool {
    if h == 1 || h == 6 { 1 <= sub <= 1277 }
    else if h == 2 { 1 <= sub <= 2860 }
    else if h == 3 || h == 4 { 1 <= sub <= 858 }
    else if h == 5 || h == 9 { 1 <= sub <= 10 }
    else if h == 7 || h == 8 { 1 <= sub <= 156 }
    else { false }
}

/// The word for the high card of a high-card or flush hand, from the fixed
/// sub-rank breakpoints.
pub open spec fn spec_high_word(sub: int) -> Seq<char> {
    if sub <= 4 { "7"@ }
    else if sub <= 18 { "8"@ }
    else if sub <= 52 { "9"@ }
    else if sub <= 121 { "10"@ }
    else if sub <= 246 { "Jack"@ }
    else if sub <= 455 { "Queen"@ }
    else if sub <= 784 { "King"@ }
    else { "Ace"@ }
}

/// The readable word of the value with ordinal `v`, pluralized.
pub open spec fn spec_plural_value(v: int) -> Seq<char> {
    Value::spec_from_index(v).spec_readable() + "s"@
}

/// The higher pair of a two-pair sub-rank: the least `b` with
/// `m < b * (b + 1) / 2`, scanning upward from `b0`.
pub open spec fn spec_tri_inv(m: int, b: int) -> int
    decreases 12 - b,
{
    if b >= 12 {
        12
    } else if m < b * (b + 1) / 2 {
        b
    } else {
        spec_tri_inv(m, b + 1)
    }
}

proof fn lemma_tri_inv_props(m: int, b0: int)
    requires
        0 <= m <= 77,
        1 <= b0 <= 12,
        m >= b0 * (b0 - 1) / 2,
    ensures
        ({
            let b = spec_tri_inv(m, b0);
            &&& b0 <= b <= 12
            &&& m >= b * (b - 1) / 2
            &&& m < b * (b + 1) / 2
        }),
    decreases 12 - b0,
{
    if b0 < 12 && !(m < b0 * (b0 + 1) / 2) {
        assert((b0 + 1) * ((b0 + 1) - 1) == b0 * (b0 + 1)) by (nonlinear_arith);
        lemma_tri_inv_props(m, b0 + 1);
    }
}

/// The description of the hand with category `h` and sub-rank `sub`:
/// the exact inverse of the combinatorial sub-rank layout, rendered with
/// readable value words.
pub open spec fn spec_description(h: int, sub: int) -> Seq<char>
    recommends spec_description_ok(h, sub),
{
    if h == 1 {
        spec_high_word(sub) + " High"@
    } else if h == 2 {
        "Pair of "@ + spec_plural_value((sub - 1) / 220)
    } else if h == 3 {
        let m = (sub - 1) / 11;
        let b = spec_tri_inv(m, 1);
        let sr = sub - (b - 1) * b / 2 * 11;
        let a = (sr - 1) / 11;
        "Two Pair of "@ + spec_plural_value(b) + " and "@ + spec_plural_value(a)
    } else if h == 4 {
        "Trip "@ + spec_plural_value((sub - 1) / 66)
    } else if h == 5 {
        Value::spec_from_index(sub + 2).spec_readable() + " High Straight"@
    } else if h == 6 {
        spec_high_word(sub) + " High Flush"@
    } else if h == 7 {
        let t = (sub - 1) / 12;
        let praw = (sub - 1) % 12;
        let p = if praw >= t { praw + 1 } else { praw };
        spec_plural_value(t) + " Full of "@ + spec_plural_value(p)
    } else if h == 8 {
        "Quad "@ + spec_plural_value((sub - 1) / 12)
    } else {
        Value::spec_from_index(sub + 2).spec_readable() + " High Straight Flush"@
    }
}

/// The error message reported for an invalid sub-rank of category `h`.
pub open spec fn spec_description_err(h: int) -> Seq<char> {
    if h == 1 { "Sub rank for high card was not valid"@ }
    else if h == 2 { "Sub rank for one pair was not valid"@ }
    else if h == 3 { "Sub rank for two pair was not valid"@ }
    else if h == 4 { "Sub rank for three of a kind was not valid"@ }
    else if h == 5 || h == 9 { "Sub rank for straight was not valid"@ }
    else if h == 6 { "Sub rank for flush was not valid"@ }
    else if h == 7 { "Sub rank for full house was not valid"@ }
    else if h == 8 { "Sub rank for four of a kind was not valid"@ }
    else { "Hand rank did not have a valid hand category"@ }
}

/// Every valid dense rank decodes to a describable category and sub-rank.
pub proof fn lemma_decode_describable(d: int)
    requires
        1 <= d <= 7462,
    ensures
        spec_description_ok(spec_decode_cat(d), spec_decode_sub(d)),
{
}

/// The higher pair of a two-pair sub-rank, as executable code.
fn tri_inv(m: u16) -> (r: u16)
    requires
        m <= 77,
    ensures
        r as int == spec_tri_inv(m as int, 1),
        1 <= r <= 12,
{
    proof {
        lemma_tri_inv_props(m as int, 1);
    }
    let mut b: u16 = 1;
    while b < 12
        invariant
            1 <= b <= 12,
            m <= 77,
            spec_tri_inv(m as int, 1) == spec_tri_inv(m as int, b as int),
        decreases 12 - b,
    {
        proof {
            assert(b * (b + 1) <= 156) by (nonlinear_arith)
                requires b <= 12;
        }
        let thr = b * (b + 1) / 2;
        if m < thr {
            return b;
        }
        b = b + 1;
    }
    12
}

/// The pluralized readable word for a value ordinal.
fn plural_value(v: u16) -> (s: String)
    requires
        v < 13,
    ensures
        s@ == spec_plural_value(v as int),
{
    let val = Value::from_int(v);
    match val {
        Some(value) => {
            let mut s = value.get_readable_string();
            s.append("s");
            s
        }
        None => "".to_owned(),
    }
}

/// Builds the description of the hand with the given category and
/// sub-rank, or reports which of the two was out of range.  The
/// descriptions follow the fixed category layout exactly: for example a
/// pair's value is `(sub - 1) / 220` and a full house splits its sub-rank
/// into trips and pair values.
pub fn get_string(hand_rank: u16, sub_rank: u16) -> (r: Result<String, String>)
    ensures
        spec_description_ok(hand_rank as int, sub_rank as int)
            ==> (r matches Ok(s) && s@ == spec_description(hand_rank as int, sub_rank as int)),
        !spec_description_ok(hand_rank as int, sub_rank as int)
            ==> (r matches Err(e) && e@ == spec_description_err(hand_rank as int)),
{
    let h = hand_rank;
    let sub = sub_rank;
    if h == 1 || h == 6 {
        if sub == 0 || sub > 1277 {
            return Err(if h == 1 {
                "Sub rank for high card was not valid".to_owned()
            } else {
                "Sub rank for flush was not valid".to_owned()
            });
        }
        let word: &'static str = if sub <= 4 { "7" }
            else if sub <= 18 { "8" }
            else if sub <= 52 { "9" }
            else if sub <= 121 { "10" }
            else if sub <= 246 { "Jack" }
            else if sub <= 455 { "Queen" }
            else if sub <= 784 { "King" }
            else { "Ace" };
        let mut s = word.to_owned();
        if h == 1 {
            s.append(" High");
        } else {
            s.append(" High Flush");
        }
        proof {
            assert(s@ =~= spec_description(h as int, sub as int));
        }
        Ok(s)
    } else if h == 2 {
        if sub == 0 || sub > 2860 {
            return Err("Sub rank for one pair was not valid".to_owned());
        }
        let mut s = "Pair of ".to_owned();
        s.append(plural_value((sub - 1) / 220).as_str());
        proof {
            assert(s@ =~= spec_description(h as int, sub as int));
        }
        Ok(s)
    } else if h == 3 {
        if sub == 0 || sub > 858 {
            return Err("Sub rank for two pair was not valid".to_owned());
        }
        let m = (sub - 1) / 11;
        let b = tri_inv(m);
        proof {
            lemma_tri_inv_props(m as int, 1);
            assert((b - 1) * b <= 132) by (nonlinear_arith)
                requires b <= 12;
            let bb = b as int;
            let lo = bb * (bb - 1) / 2;
            let hi = bb * (bb + 1) / 2;
            assert(bb * (bb + 1) == bb * (bb - 1) + 2 * bb) by (nonlinear_arith);
            assert(hi == lo + bb);
            assert((m as int) >= lo && (m as int) < hi);
            assert(11 * (m as int) <= sub as int - 1);
            assert(sub as int - 1 <= 11 * (m as int) + 10);
            assert((bb - 1) * bb == bb * (bb - 1)) by (nonlinear_arith);
            assert(11 * lo + 1 <= sub as int);
            assert(sub as int - 11 * lo - 1 <= 11 * bb - 1);
        }
        let sr = sub - (b - 1) * b / 2 * 11;
        let a = (sr - 1) / 11;
        proof {
            assert(sr >= 1);
            assert(a < b);
        }
        let mut s = "Two Pair of ".to_owned();
        s.append(plural_value(b).as_str());
        s.append(" and ");
        s.append(plural_value(a).as_str());
        proof {
            assert(s@ =~= spec_description(h as int, sub as int));
        }
        Ok(s)
    } else if h == 4 {
        if sub == 0 || sub > 858 {
            return Err("Sub rank for three of a kind was not valid".to_owned());
        }
        let mut s = "Trip ".to_owned();
        s.append(plural_value((sub - 1) / 66).as_str());
        proof {
            assert(s@ =~= spec_description(h as int, sub as int));
        }
        Ok(s)
    } else if h == 5 || h == 9 {
        if sub == 0 || sub > 10 {
            return Err("Sub rank for straight was not valid".to_owned());
        }
        let val = Value::from_int(sub + 2);
        let mut s = match val {
            Some(value) => value.get_readable_string(),
            None => "".to_owned(),
        };
        if h == 5 {
            s.append(" High Straight");
        } else {
            s.append(" High Straight Flush");
        }
        proof {
            assert(s@ =~= spec_description(h as int, sub as int));
        }
        Ok(s)
    } else if h == 7 {
        if sub == 0 || sub > 156 {
            return Err("Sub rank for full house was not valid".to_owned());
        }
        let t = (sub - 1) / 12;
        let praw = (sub - 1) % 12;
        let p = if praw >= t { praw + 1 } else { praw };
        let mut s = plural_value(t);
        s.append(" Full of ");
        s.append(plural_value(p).as_str());
        proof {
            assert(s@ =~= spec_description(h as int, sub as int));
        }
        Ok(s)
    } else if h == 8 {
        if sub == 0 || sub > 156 {
            return Err("Sub rank for four of a kind was not valid".to_owned());
        }
        let mut s = "Quad ".to_owned();
        s.append(plural_value((sub - 1) / 12).as_str());
        proof {
            assert(s@ =~= spec_description(h as int, sub as int));
        }
        Ok(s)
    } else {
        Err("Hand rank did not have a valid hand category".to_owned())
    }
}

} // verus!
