//! A closed dispatcher over the evaluators, for callers that pick the
//! game at run time.

use vstd::prelude::*;
use crate::card::Card;
use crate::evaluator_errors::EvaluatorError;
use crate::high_evaluator;
use crate::high_evaluator::spec_high_result;
use crate::low_27_evaluator;
use crate::low_27_evaluator::spec_low27_result;
use crate::omaha_hi_evaluator;
use crate::omaha_hi_evaluator::spec_omaha_hi_result;
use crate::omaha_hilo_evaluator;
use crate::omaha_hilo_evaluator::spec_hilo_result;
use crate::drawmaha_evaluator;
use crate::drawmaha_evaluator::spec_drawmaha_result;
use crate::ranks::BasicRank;
use crate::rank::Rank;

verus! {

/// The evaluator variants the dispatcher can run.
#[derive(Debug, Clone, Copy)]
pub enum Evaluator {
    /// The high-hand evaluator over the player's cards and the board.
    High,
    /// The 2-to-7 low evaluator over the player's cards and the board.
    Low27,
    /// The Omaha high evaluator.
    OmahaHi,
    /// The Omaha hi-lo evaluator.
    OmahaHiLo,
    /// The Drawmaha evaluator.
    Drawmaha,
}

/// `rk` carries the same fields as `b`.
pub open spec fn spec_conv(b: BasicRank, rk: Rank) -> bool {
    &&& rk.strength == b.strength
    &&& rk.hand_rank == b.hand_rank
    &&& rk.sub_rank == b.sub_rank
    &&& (rk.description is Some <==> b.description is Some)
    &&& (rk.description matches Some(d) ==> (b.description matches Some(bd) && d@ == bd@))
}

/// Copies a basic rank into the plain rank record.
fn conv(b: &BasicRank) -> (rk: Rank)
    ensures
        spec_conv(*b, rk),
{
    Rank {
        strength: b.strength,
        hand_rank: b.hand_rank,
        sub_rank: b.sub_rank,
        description: match &b.description {
            Some(d) => Some(d.clone()),
            None => None,
        },
    }
}

/// Concatenates the player's cards and the board.
fn concat_cards(player_hand: &Vec<Card>, board: &Vec<Card>) -> (all: Vec<Card>)
    ensures
        all@ == player_hand@ + board@,
{
    let mut all: Vec<Card> = Vec::new();
    let mut i: usize = 0;
    while i < player_hand.len()
        invariant
            i <= player_hand@.len(),
            all@ == player_hand@.take(i as int),
        decreases player_hand@.len() - i,
    {
        all.push(player_hand[i]);
        proof {
            assert(player_hand@.take(i as int + 1)
                =~= player_hand@.take(i as int).push(player_hand@[i as int]));
        }
        i = i + 1;
    }
    let mut i: usize = 0;
    proof {
        assert(player_hand@.take(player_hand@.len() as int) =~= player_hand@);
    }
    while i < board.len()
        invariant
            i <= board@.len(),
            all@ == player_hand@ + board@.take(i as int),
        decreases board@.len() - i,
    {
        all.push(board[i]);
        proof {
            assert(player_hand@ + board@.take(i as int + 1)
                =~= (player_hand@ + board@.take(i as int)).push(board@[i as int]));
        }
        i = i + 1;
    }
    proof {
        assert(board@.take(board@.len() as int) =~= board@);
    }
    all
}

impl Evaluator {
    /// Calls the selected evaluator and reports its ranks as a uniform
    /// list: one entry for most games, the hi and lo entries for Omaha
    /// hi-lo (the lo entry absent when no low hand qualifies), and the
    /// Omaha and draw entries for Drawmaha.
    pub fn evaluate_hand(
        self,
        player_hand: &Vec<Card>,
        board: &Vec<Card>,
    ) -> (r: Result<Vec<Option<Rank>>, EvaluatorError>)
        ensures
            self is High ==> ({
                &&& (r matches Err(e) ==> spec_high_result(player_hand@ + board@, Err(e)))
                &&& (r matches Ok(v) ==> v@.len() == 1 && (v@[0] matches Some(rk)
                    && exists|h: crate::ranks::HighRank|
                        #[trigger] spec_high_result(player_hand@ + board@, Ok(h))
                        && spec_conv(h.0, rk)))
            }),
            self is Low27 ==> ({
                &&& (r matches Err(e) ==> spec_low27_result(player_hand@ + board@, Err(e)))
                &&& (r matches Ok(v) ==> v@.len() == 1 && (v@[0] matches Some(rk)
                    && exists|l: crate::ranks::Low27Rank|
                        #[trigger] spec_low27_result(player_hand@ + board@, Ok(l))
                        && spec_conv(l.0, rk)))
            }),
            self is OmahaHi ==> ({
                &&& (r matches Err(e) ==> spec_omaha_hi_result(player_hand@, board@, Err(e)))
                &&& (r matches Ok(v) ==> v@.len() == 1 && (v@[0] matches Some(rk)
                    && exists|h: crate::ranks::HighRank|
                        #[trigger] spec_omaha_hi_result(player_hand@, board@, Ok(h))
                        && spec_conv(h.0, rk)))
            }),
            self is OmahaHiLo ==> ({
                &&& (r matches Err(e) ==> spec_hilo_result(player_hand@, board@, Err(e)))
                &&& (r matches Ok(v) ==> v@.len() == 2 && v@[0] is Some
                    && exists|o: crate::ranks::OmahaHiLoRank|
                        #[trigger] spec_hilo_result(player_hand@, board@, Ok(o))
                        && (v@[0] matches Some(rk) && spec_conv(o.hi_rank.0, rk))
                        && (v@[1] is Some <==> o.lo_rank is Some)
                        && (o.lo_rank matches Some(l)
                            ==> (v@[1] matches Some(rk2) && spec_conv(l.0, rk2))))
            }),
            self is Drawmaha ==> ({
                &&& (r matches Err(e) ==> spec_drawmaha_result(player_hand@, board@, Err(e)))
                &&& (r matches Ok(v) ==> v@.len() == 2
                    && (exists|dr: crate::ranks::DrawmahaRank|
                        #[trigger] spec_drawmaha_result(player_hand@, board@, Ok(dr))
                        && (v@[0] matches Some(rk) && spec_conv(dr.omaha_rank.0, rk))
                        && (v@[1] matches Some(rk2) && spec_conv(dr.draw_rank.0, rk2))))
            }),
    {
        match self {
            Evaluator::High => {
                let all = concat_cards(player_hand, board);
                match high_evaluator::evaluate_hand(&all) {
                    Err(e) => Err(e),
                    Ok(h) => {
                        let rk = conv(&h.0);
                        let ghost gh = h;
                        let v = vec![Some(rk)];
                        proof {
                            assert(spec_high_result(player_hand@ + board@, Ok(gh)));
                            assert(v@[0] matches Some(r0) && spec_conv(gh.0, r0));
                        }
                        Ok(v)
                    }
                }
            }
            Evaluator::Low27 => {
                let all = concat_cards(player_hand, board);
                match low_27_evaluator::evaluate_hand(&all) {
                    Err(e) => Err(e),
                    Ok(l) => {
                        let rk = conv(&l.0);
                        let ghost gl = l;
                        let v = vec![Some(rk)];
                        proof {
                            assert(spec_low27_result(player_hand@ + board@, Ok(gl)));
                            assert(v@[0] matches Some(r0) && spec_conv(gl.0, r0));
                        }
                        Ok(v)
                    }
                }
            }
            Evaluator::OmahaHi => {
                match omaha_hi_evaluator::evaluate_hand(player_hand, board) {
                    Err(e) => Err(e),
                    Ok(h) => {
                        let rk = conv(&h.0);
                        let ghost gh = h;
                        let v = vec![Some(rk)];
                        proof {
                            assert(spec_omaha_hi_result(player_hand@, board@, Ok(gh)));
                            assert(v@[0] matches Some(r0) && spec_conv(gh.0, r0));
                        }
                        Ok(v)
                    }
                }
            }
            Evaluator::OmahaHiLo => {
                match omaha_hilo_evaluator::evaluate_hand(player_hand, board) {
                    Err(e) => Err(e),
                    Ok(o) => {
                        let hi = conv(&o.hi_rank.0);
                        let lo = match &o.lo_rank {
                            Some(l) => Some(conv(&l.0)),
                            None => None,
                        };
                        let ghost go = o;
                        let v = vec![Some(hi), lo];
                        proof {
                            assert(spec_hilo_result(player_hand@, board@, Ok(go)));
                            assert(v@[0] matches Some(r0) && spec_conv(go.hi_rank.0, r0));
                        }
                        Ok(v)
                    }
                }
            }
            Evaluator::Drawmaha => {
                match drawmaha_evaluator::evaluate_hand(player_hand, board) {
                    Err(e) => Err(e),
                    Ok(dr) => {
                        let omaha = conv(&dr.omaha_rank.0);
                        let draw = conv(&dr.draw_rank.0);
                        let ghost gdr = dr;
                        let v = vec![Some(omaha), Some(draw)];
                        proof {
                            assert(spec_drawmaha_result(player_hand@, board@, Ok(gdr)));
                            assert(v@[0] matches Some(r0) && spec_conv(gdr.omaha_rank.0, r0));
                            assert(v@[1] matches Some(r1) && spec_conv(gdr.draw_rank.0, r1));
                        }
                        Ok(v)
                    }
                }
            }
        }
    }
}

} // verus!
