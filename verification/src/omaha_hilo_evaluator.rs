//! Evaluates Omaha hi-lo hands: the Omaha high evaluation beside an
//! ace-to-five low evaluation over cards of rank eight or below.

use vstd::prelude::*;
use crate::card::Card;
use crate::combinatorics::{binom, lemma_binom_monotone, lemma_binom_values, spec_binom};
use crate::combos::{combinations, is_choice, select, views_of, selection_list,
    lemma_selection_member, lemma_selection_complete};
use crate::evaluator_errors::EvaluatorError;
use crate::omaha_hi_evaluator;
use crate::omaha_hi_evaluator::spec_omaha_hi_result;
use crate::badugi_evaluator::{ace_low, lo_present, desc_ranks};
use crate::ranks::{BasicRank, LowA5Rank, OmahaHiLoRank};
use vstd::string::*;

verus! {

/// A card that can play in the low half: rank eight or below, or an ace.
pub open spec fn is_low_card(c: Card) -> bool {
    c.value.index() <= 6 || c.value.index() == 12
}

/// The cards of `s` that can play low, in order.
pub open spec fn low_filter(s: Seq<Card>) -> Seq<Card>
    decreases s.len(),
{
    if s.len() == 0 {
        Seq::empty()
    } else {
        low_filter(s.drop_last()) + if is_low_card(s.last()) {
            seq![s.last()]
        } else {
            Seq::empty()
        }
    }
}

/// The five cards of a low candidate hold five distinct ace-low ranks.
pub open spec fn lo_qualifies(sel: Seq<Card>) -> bool {
    desc_ranks(sel, 7).len() == 5
}

/// A choice of two filtered hand cards and three filtered board cards
/// whose five cards cover five distinct low ranks.
pub open spec fn is_lo_choice(hand: Seq<Card>, board: Seq<Card>, ixh: Seq<int>, ixb: Seq<int>)
    -> bool {
    let hf = low_filter(hand);
    let bf = low_filter(board);
    &&& is_choice(ixh, 2, hf.len() as int)
    &&& is_choice(ixb, 3, bf.len() as int)
    &&& lo_qualifies(select(hf, ixh) + select(bf, ixb))
}

/// The word for one low rank in a low description: the ace prints as `A`,
/// the others as digits.
pub open spec fn spec_lo_word(r: int) -> Seq<char> {
    if r == 0 { "A"@ }
    else if r == 1 { "2"@ }
    else if r == 2 { "3"@ }
    else if r == 3 { "4"@ }
    else if r == 4 { "5"@ }
    else if r == 5 { "6"@ }
    else if r == 6 { "7"@ }
    else { "8"@ }
}

/// The strength of a qualifying low candidate: its position among the 56
/// qualifying rank sets, the wheel being strongest at 56.
pub open spec fn spec_lo_strength(sel: Seq<Card>) -> int {
    let ds = desc_ranks(sel, 7);
    56 - (spec_binom(ds[0] as nat, 5) + spec_binom(ds[1] as nat, 4) + spec_binom(
        ds[2] as nat,
        3,
    ) + spec_binom(ds[3] as nat, 2)) as int - ds[4]
}

/// The low hand category: 1 for an eight-high low down to 4 for the wheel.
pub open spec fn spec_lo_hand_rank(sel: Seq<Card>) -> int {
    let top = desc_ranks(sel, 7)[0];
    if top == 7 { 1int } else if top == 6 { 2int } else if top == 5 { 3int } else { 4int }
}

/// The sub-rank of a low hand within its category.
pub open spec fn spec_lo_sub_rank(sel: Seq<Card>) -> int {
    let top = desc_ranks(sel, 7)[0];
    spec_lo_strength(sel) - (if top == 7 { 0int } else if top == 6 { 35int } else if top == 5 {
        50int
    } else {
        55int
    })
}

/// The description of a low hand: its five ranks, highest first.
pub open spec fn spec_lo_desc(sel: Seq<Card>) -> Seq<char> {
    let ds = desc_ranks(sel, 7);
    spec_lo_word(ds[0]) + "-"@ + spec_lo_word(ds[1]) + "-"@ + spec_lo_word(ds[2]) + "-"@
        + spec_lo_word(ds[3]) + "-"@ + spec_lo_word(ds[4])
}

/// The rank fields of a qualifying low candidate.
pub open spec fn spec_lo_fields(sel: Seq<Card>, b: BasicRank) -> bool {
    &&& b.strength as int == spec_lo_strength(sel)
    &&& b.hand_rank as int == spec_lo_hand_rank(sel)
    &&& b.sub_rank as int == spec_lo_sub_rank(sel)
    &&& b.description matches Some(ds) && ds@ == spec_lo_desc(sel)
}

/// The candidate five low cards a choice picks.
pub open spec fn lo_selected(hand: Seq<Card>, board: Seq<Card>, ixh: Seq<int>, ixb: Seq<int>)
    -> Seq<Card> {
    select(low_filter(hand), ixh) + select(low_filter(board), ixb)
}

/// What an Omaha hi-lo evaluation returns: the Omaha high result, and
/// beside it the best qualifying low hand — `None`, not an error, when no
/// two low hand cards and three low board cards cover five distinct low
/// ranks.
pub open spec fn spec_hilo_result(
    hand: Seq<Card>,
    board: Seq<Card>,
    r: Result<OmahaHiLoRank, EvaluatorError>,
) -> bool {
    &&& (r matches Err(e) ==> spec_omaha_hi_result(hand, board, Err(e)))
    &&& (r is Ok <==> spec_omaha_hi_result_is_ok(hand, board))
    &&& (r matches Ok(o) ==> ({
        &&& spec_omaha_hi_result(hand, board, Ok(o.hi_rank))
        &&& (o.lo_rank is None <==> !(exists|ixh: Seq<int>, ixb: Seq<int>|
            #[trigger] is_lo_choice(hand, board, ixh, ixb)))
        &&& (o.lo_rank matches Some(l) ==> ({
            &&& exists|ixh: Seq<int>, ixb: Seq<int>|
                #[trigger] is_lo_choice(hand, board, ixh, ixb)
                && spec_lo_fields(lo_selected(hand, board, ixh, ixb), l.0)
            &&& forall|ixh: Seq<int>, ixb: Seq<int>|
                #[trigger] is_lo_choice(hand, board, ixh, ixb)
                ==> spec_lo_strength(lo_selected(hand, board, ixh, ixb)) <= l.0.strength as int
        }))
    }))
}

/// Whether the Omaha high evaluation succeeds.
pub open spec fn spec_omaha_hi_result_is_ok(hand: Seq<Card>, board: Seq<Card>) -> bool {
    hand.len() >= 4 && board.len() >= 3 && crate::combos::distinct_cards(hand + board)
}

/// The ranks collected downward strictly decrease.
proof fn lemma_desc_ranks_sorted(sel: Seq<Card>, from: int)
    ensures
        forall|j: int| 0 < j < desc_ranks(sel, from).len()
            ==> #[trigger] desc_ranks(sel, from)[j] < desc_ranks(sel, from)[j - 1],
        forall|j: int| 0 <= j < desc_ranks(sel, from).len()
            ==> #[trigger] desc_ranks(sel, from)[j] <= from,
    decreases from + 1,
{
    if from >= 0 {
        lemma_desc_ranks_sorted(sel, from - 1);
        let cur = desc_ranks(sel, from);
        let rest = desc_ranks(sel, from - 1);
        if lo_present(sel, from) {
            assert(cur == seq![from] + rest);
            assert forall|j: int| 0 < j < cur.len() implies #[trigger] cur[j] < cur[j - 1] by {
                assert(cur[j] == rest[j - 1]);
                if j > 1 {
                    assert(cur[j - 1] == rest[j - 2]);
                }
            }
            assert forall|j: int| 0 <= j < cur.len() implies #[trigger] cur[j] <= from by {
                if j > 0 {
                    assert(cur[j] == rest[j - 1]);
                }
            }
        }
    }
}

/// Builds the list of low-capable cards of `cards`.
fn filter_low(cards: &Vec<Card>) -> (r: Vec<Card>)
    ensures
        r@ == low_filter(cards@),
{
    let mut r: Vec<Card> = Vec::new();
    let mut i: usize = 0;
    proof {
        assert(cards@.take(0) =~= Seq::<Card>::empty());
    }
    while i < cards.len()
        invariant
            i <= cards@.len(),
            r@ == low_filter(cards@.take(i as int)),
        decreases cards@.len() - i,
    {
        let v = cards[i].value.to_index();
        proof {
            assert(cards@.take(i as int + 1).drop_last() =~= cards@.take(i as int));
            assert(cards@.take(i as int + 1).last() == cards@[i as int]);
        }
        if v <= 6 || v == 12 {
            r.push(cards[i]);
            proof {
                assert(low_filter(cards@.take(i as int + 1))
                    =~= low_filter(cards@.take(i as int)).push(cards@[i as int]));
            }
        }
        i = i + 1;
    }
    proof {
        assert(cards@.take(cards@.len() as int) =~= cards@);
    }
    r
}

/// Whether some card of `sel` has the given ace-low rank (low range).
fn any_lo_rank(cards: &Vec<Card>, r: u8) -> (res: bool)
    ensures
        res == lo_present(cards@, r as int),
{
    let mut i: usize = 0;
    while i < cards.len()
        invariant
            i <= cards@.len(),
            forall|w: int| 0 <= w < i
                ==> ace_low((#[trigger] cards@[w]).value.index()) != r as int,
        decreases cards@.len() - i,
    {
        let v = cards[i].value.to_index();
        if (v + 1) % 13 == r {
            return true;
        }
        i = i + 1;
    }
    false
}

/// Ranks a five-card low candidate: `None` when its cards do not cover
/// five distinct low ranks, otherwise the low rank fields.
fn lo_rank_of(sel: &Vec<Card>) -> (r: Option<BasicRank>)
    requires
        forall|i: int| 0 <= i < sel@.len() ==> is_low_card(#[trigger] sel@[i]),
    ensures
        r is None <==> !lo_qualifies(sel@),
        r matches Some(b) ==> spec_lo_fields(sel@, b),
{
    let mut ds: Vec<u8> = Vec::new();
    let mut v: i32 = 7;
    while v >= 0
        invariant
            -1 <= v <= 7,
            forall|j: int| 0 <= j < ds@.len() ==> #[trigger] ds@[j] <= 7,
            desc_ranks(sel@, 7) =~= ds@.map_values(|x: u8| x as int) + desc_ranks(sel@, v as int),
        decreases v + 1,
    {
        if any_lo_rank(sel, v as u8) {
            ds.push(v as u8);
            proof {
                assert(desc_ranks(sel@, v as int)
                    == seq![v as int] + desc_ranks(sel@, v as int - 1));
                assert(ds@.map_values(|x: u8| x as int)
                    =~= ds@.drop_last().map_values(|x: u8| x as int).push(v as int));
            }
        }
        v = v - 1;
    }
    proof {
        assert(desc_ranks(sel@, -1) =~= Seq::<int>::empty());
        assert(desc_ranks(sel@, 7) =~= ds@.map_values(|x: u8| x as int));
        lemma_desc_ranks_sorted(sel@, 7);
    }
    if ds.len() != 5 {
        return None;
    }
    let b5 = ds[0];
    let b4 = ds[1];
    let b3 = ds[2];
    let b2 = ds[3];
    let b1 = ds[4];
    proof {
        lemma_binom_values();
        let gds = desc_ranks(sel@, 7);
        assert(gds[0] == ds@[0] as int && gds[1] == ds@[1] as int && gds[2] == ds@[2] as int
            && gds[3] == ds@[3] as int && gds[4] == ds@[4] as int);
        assert(b5 as int == gds[0]);
        assert(b4 < b5 && b3 < b4 && b2 < b3 && b1 < b2 && b5 <= 7);
        lemma_binom_monotone(b5 as nat, 7, 5);
        lemma_binom_monotone(b4 as nat, 6, 4);
        lemma_binom_monotone(b3 as nat, 5, 3);
        lemma_binom_monotone(b2 as nat, 4, 2);
        if b5 == 6 {
            lemma_binom_monotone(b4 as nat, 5, 4);
            lemma_binom_monotone(b3 as nat, 4, 3);
            lemma_binom_monotone(b2 as nat, 3, 2);
        }
        if b5 == 5 {
            lemma_binom_monotone(b4 as nat, 4, 4);
            lemma_binom_monotone(b3 as nat, 3, 3);
            lemma_binom_monotone(b2 as nat, 2, 2);
        }
        if b5 == 4 {
            lemma_binom_monotone(b4 as nat, 3, 4);
            lemma_binom_monotone(b3 as nat, 2, 3);
            lemma_binom_monotone(b2 as nat, 1, 2);
        }
    }
    let colex: u32 = binom(b5 as u32, 5) + binom(b4 as u32, 4) + binom(b3 as u32, 3)
        + binom(b2 as u32, 2) + (b1 as u32);
    let strength: u32 = 56 - colex;
    let hand_rank: u16 = if b5 == 7 { 1 } else if b5 == 6 { 2 } else if b5 == 5 { 3 } else { 4 };
    let base: u32 = if b5 == 7 { 0 } else if b5 == 6 { 35 } else if b5 == 5 { 50 } else { 55 };
    let sub_rank: u16 = (strength - base) as u16;
    let mut desc = lo_word(b5).to_owned();
    desc.append("-");
    desc.append(lo_word(b4));
    desc.append("-");
    desc.append(lo_word(b3));
    desc.append("-");
    desc.append(lo_word(b2));
    desc.append("-");
    desc.append(lo_word(b1));
    proof {
        assert(desc@ =~= spec_lo_desc(sel@));
    }
    Some(BasicRank { strength, hand_rank, sub_rank, description: Some(desc) })
}

/// The word for one low rank.
fn lo_word(r: u8) -> (w: &'static str)
    requires
        r <= 7,
    ensures
        w@ == spec_lo_word(r as int),
{
    proof {
        reveal_strlit("A");
        reveal_strlit("2");
        reveal_strlit("3");
        reveal_strlit("4");
        reveal_strlit("5");
        reveal_strlit("6");
        reveal_strlit("7");
        reveal_strlit("8");
    }
    if r == 0 { "A" }
    else if r == 1 { "2" }
    else if r == 2 { "3" }
    else if r == 3 { "4" }
    else if r == 4 { "5" }
    else if r == 5 { "6" }
    else if r == 6 { "7" }
    else { "8" }
}

/// Evaluates the Omaha hi-lo hand for one player: the Omaha high rank,
/// and the best qualifying ace-to-five low using two hand cards and three
/// board cards of rank eight or below (ace counting low).
#[verifier::rlimit(60)]
pub fn evaluate_hand(
    player_hand: &Vec<Card>,
    board: &Vec<Card>,
) -> (r: Result<OmahaHiLoRank, EvaluatorError>)
    ensures
        spec_hilo_result(player_hand@, board@, r),
{
    let hi_rank = match omaha_hi_evaluator::evaluate_hand(player_hand, board) {
        Err(e) => {
            return Err(e);
        }
        Ok(h) => h,
    };
    let hf = filter_low(player_hand);
    let bf = filter_low(board);
    let ghost nhf = hf@.len() as int;
    let ghost nbf = bf@.len() as int;
    let mut lo: Option<BasicRank> = None;
    if hf.len() >= 2 && bf.len() >= 3 {
        let hcombos = combinations(&hf, 2);
        let bcombos = combinations(&bf, 3);
        let mut jh: usize = 0;
        while jh < hcombos.len()
            invariant
                jh <= hcombos@.len(),
                nhf == hf@.len() as int,
                nbf == bf@.len() as int,
                nhf >= 2,
                nbf >= 3,
                hf@ == low_filter(player_hand@),
                bf@ == low_filter(board@),
                selection_list(hf@, 2, views_of(hcombos@)),
                selection_list(bf@, 3, views_of(bcombos@)),
                lo matches Some(b) ==> exists|ixh: Seq<int>, ixb: Seq<int>|
                    #[trigger] is_lo_choice(player_hand@, board@, ixh, ixb)
                    && spec_lo_fields(lo_selected(player_hand@, board@, ixh, ixb), b),
                forall|jj: int, ixb: Seq<int>| 0 <= jj < jh
                    && #[trigger] is_choice(ixb, 3, nbf)
                    && lo_qualifies((#[trigger] hcombos@[jj]@) + select(bf@, ixb))
                    ==> (lo matches Some(b)
                        && spec_lo_strength(hcombos@[jj]@ + select(bf@, ixb))
                            <= b.strength as int),
            decreases hcombos@.len() - jh,
        {
            let hc = &hcombos[jh];
            proof {
                let ixh = lemma_selection_member(hf@, 2, views_of(hcombos@), jh as int);
                assert(views_of(hcombos@)[jh as int] == hcombos@[jh as int]@);
            }
            let mut jb: usize = 0;
            while jb < bcombos.len()
                invariant
                    jb <= bcombos@.len(),
                    jh < hcombos@.len(),
                    nhf == hf@.len() as int,
                    nbf == bf@.len() as int,
                    nhf >= 2,
                    nbf >= 3,
                    hf@ == low_filter(player_hand@),
                    bf@ == low_filter(board@),
                    selection_list(hf@, 2, views_of(hcombos@)),
                    selection_list(bf@, 3, views_of(bcombos@)),
                    hc == &hcombos[jh as int],
                    lo matches Some(b) ==> exists|ixh: Seq<int>, ixb: Seq<int>|
                        #[trigger] is_lo_choice(player_hand@, board@, ixh, ixb)
                        && spec_lo_fields(lo_selected(player_hand@, board@, ixh, ixb), b),
                    forall|jj: int, ixb: Seq<int>| 0 <= jj < jh
                        && #[trigger] is_choice(ixb, 3, nbf)
                        && lo_qualifies((#[trigger] hcombos@[jj]@) + select(bf@, ixb))
                        ==> (lo matches Some(b)
                            && spec_lo_strength(hcombos@[jj]@ + select(bf@, ixb))
                                <= b.strength as int),
                    forall|jj: int| 0 <= jj < jb
                        && lo_qualifies(hcombos@[jh as int]@ + (#[trigger] bcombos@[jj]@))
                        ==> (lo matches Some(b)
                            && spec_lo_strength(hcombos@[jh as int]@ + bcombos@[jj]@)
                                <= b.strength as int),
                decreases bcombos@.len() - jb,
            {
                let bc = &bcombos[jb];
                proof {
                    let ixh = lemma_selection_member(hf@, 2, views_of(hcombos@), jh as int);
                    let ixb = lemma_selection_member(bf@, 3, views_of(bcombos@), jb as int);
                    assert(views_of(hcombos@)[jh as int] == hcombos@[jh as int]@);
                    assert(views_of(bcombos@)[jb as int] == bcombos@[jb as int]@);
                    assert(hcombos@[jh as int]@.len() == 2);
                    assert(bcombos@[jb as int]@.len() == 3);
                    assert forall|i: int| 0 <= i < hf@.len()
                        implies is_low_card(#[trigger] hf@[i]) by {
                        lemma_low_filter_low(player_hand@);
                    }
                    assert forall|i: int| 0 <= i < bf@.len()
                        implies is_low_card(#[trigger] bf@[i]) by {
                        lemma_low_filter_low(board@);
                    }
                }
                let mut cand: Vec<Card> = Vec::new();
                cand.push(hc[0]);
                cand.push(hc[1]);
                cand.push(bc[0]);
                cand.push(bc[1]);
                cand.push(bc[2]);
                proof {
                    assert(cand@ =~= hcombos@[jh as int]@ + bcombos@[jb as int]@);
                }
                match lo_rank_of(&cand) {
                    None => {}
                    Some(b) => {
                        proof {
                            let ixh = lemma_selection_member(
                                hf@, 2, views_of(hcombos@), jh as int);
                            let ixb = lemma_selection_member(
                                bf@, 3, views_of(bcombos@), jb as int);
                            assert(views_of(hcombos@)[jh as int] == hcombos@[jh as int]@);
                            assert(views_of(bcombos@)[jb as int] == bcombos@[jb as int]@);
                            assert(lo_selected(player_hand@, board@, ixh, ixb) == cand@);
                            assert(is_lo_choice(player_hand@, board@, ixh, ixb));
                        }
                        let replace = match &lo {
                            None => true,
                            Some(cur) => b.strength > cur.strength,
                        };
                        if replace {
                            lo = Some(b);
                        }
                    }
                }
                jb = jb + 1;
            }
            jh = jh + 1;
            proof {
                assert forall|jj: int, ixb: Seq<int>| 0 <= jj < jh
                    && #[trigger] is_choice(ixb, 3, nbf)
                    && lo_qualifies((#[trigger] hcombos@[jj]@) + select(bf@, ixb))
                    implies (lo matches Some(b)
                        && spec_lo_strength(hcombos@[jj]@ + select(bf@, ixb))
                            <= b.strength as int) by {
                    if jj == jh - 1 {
                        let jb2 = lemma_selection_complete(bf@, 3, views_of(bcombos@), ixb);
                        assert(views_of(bcombos@)[jb2] == bcombos@[jb2]@);
                    }
                }
            }
        }
        proof {
            assert forall|ixh: Seq<int>, ixb: Seq<int>|
                #[trigger] is_lo_choice(player_hand@, board@, ixh, ixb)
                implies (lo matches Some(b)
                    && spec_lo_strength(lo_selected(player_hand@, board@, ixh, ixb))
                        <= b.strength as int) by {
                let jj = lemma_selection_complete(hf@, 2, views_of(hcombos@), ixh);
                assert(views_of(hcombos@)[jj] == hcombos@[jj]@);
            }
        }
    } else {
        proof {
            assert forall|ixh: Seq<int>, ixb: Seq<int>|
                !(#[trigger] is_lo_choice(player_hand@, board@, ixh, ixb)) by {
                if is_lo_choice(player_hand@, board@, ixh, ixb) {
                    if hf@.len() < 2 {
                        assert(0 <= ixh[0] < ixh[1] < hf@.len());
                    } else {
                        assert(0 <= ixb[0] < ixb[1] < ixb[2] < bf@.len());
                    }
                }
            }
        }
    }
    match lo {
        None => Ok(OmahaHiLoRank { hi_rank, lo_rank: None }),
        Some(b) => Ok(OmahaHiLoRank { hi_rank, lo_rank: Some(LowA5Rank(b)) }),
    }
}

/// Every card the low filter keeps can play low.
proof fn lemma_low_filter_low(s: Seq<Card>)
    ensures
        forall|i: int| 0 <= i < low_filter(s).len() ==> is_low_card(#[trigger] low_filter(s)[i]),
    decreases s.len(),
{
    if s.len() > 0 {
        lemma_low_filter_low(s.drop_last());
        let cur = low_filter(s);
        let rest = low_filter(s.drop_last());
        assert forall|i: int| 0 <= i < cur.len() implies is_low_card(#[trigger] cur[i]) by {
            if is_low_card(s.last()) {
                assert(cur == rest + seq![s.last()]);
                if i < rest.len() {
                    assert(cur[i] == rest[i]);
                }
            } else {
                assert(cur =~= rest);
            }
        }
    }
}

} // verus!
