//! Rank result types shared by the evaluators.

use vstd::prelude::*;
use crate::describe::{get_string, spec_description, spec_description_err, spec_description_ok};

verus! {

/// A foundational struct containing hand-strength metadata.
///
/// `strength` is the totally ordered hand strength: higher is always
/// stronger.  `hand_rank` is the major category and `sub_rank` the position
/// within it; `description` is the human-readable form of the hand, present
/// on every rank the evaluators produce.
#[derive(Debug, Clone, PartialEq, Eq, PartialOrd)]
pub struct BasicRank {
    /// The strength of the rank; higher values beat lower ones.
    pub strength: u32,
    /// The major hand category of the rank.
    pub hand_rank: u16,
    /// The sub-rank within the hand category.
    pub sub_rank: u16,
    /// A human-readable description of the rank.
    pub description: Option<String>,
}

/// A rank of a high hand.
#[derive(Debug, Clone, PartialEq, Eq, PartialOrd)]
pub struct HighRank(pub BasicRank);

/// A rank of a 2-to-7 lowball hand.
#[derive(Debug, Clone, PartialEq, Eq, PartialOrd)]
pub struct Low27Rank(pub BasicRank);

/// A rank of an ace-to-5 lowball hand.
#[derive(Debug, Clone, PartialEq, Eq, PartialOrd)]
pub struct LowA5Rank(pub BasicRank);

/// A rank of a Badugi hand.
#[derive(Debug, Clone, PartialEq, Eq, PartialOrd)]
pub struct BadugiRank(pub BasicRank);

/// The pair of ranks of a Dramaha High hand: the Omaha half and the
/// five-card draw half, reported side by side.
#[derive(Debug, Clone, PartialEq, Eq, PartialOrd)]
pub struct DramahaHighRank {
    /// The Omaha high rank from the hand.
    pub omaha_rank: HighRank,
    /// The five-card draw high rank from the hand.
    pub draw_rank: HighRank,
}

/// The pair of ranks of a Drawmaha hand.
#[derive(Debug, Clone, PartialEq, Eq, PartialOrd)]
pub struct DrawmahaRank {
    /// The Omaha high rank from the hand.
    pub omaha_rank: HighRank,
    /// The five-card draw rank from the hand.
    pub draw_rank: HighRank,
}

/// The ranks of an Omaha hi-lo hand.  Not every hand has a qualifying low
/// half, so the low rank is optional; `None` means no qualifying low hand,
/// not an error.
#[derive(Debug, Clone, PartialEq, Eq)]
pub struct OmahaHiLoRank {
    /// The Omaha hi rank from the hand.
    pub hi_rank: HighRank,
    /// The Omaha lo rank from the hand, when one qualifies.
    pub lo_rank: Option<LowA5Rank>,
}

/// A low-hand rank in the packed form `hand_rank << 12 | sub_rank`, ordered
/// so that the weaker high hand is the better low hand.
#[derive(Debug, Clone, Copy, PartialEq, Eq)]
pub struct LowRank {
    rank_strength: u16,
    hand_rank: u8,
    sub_rank: u16,
}

impl LowRank {
    /// Creates a new low rank from a packed strength: the high-hand
    /// category in the upper four bits and the sub-rank in the lower twelve.
    pub fn new(strength: u16) -> (r: LowRank)
        ensures
            r.spec_rank_strength() == strength as int,
            r.spec_hand_rank() == strength as int / 4096,
            r.spec_sub_rank() == strength as int % 4096,
    {
        proof {
            assert(strength >> 12 == strength / 4096) by (bit_vector);
            assert(strength & 0xFFF == strength % 4096) by (bit_vector);
            assert(strength >> 12 < 16) by (bit_vector);
        }
        LowRank {
            rank_strength: strength,
            hand_rank: (strength >> 12) as u8,
            sub_rank: strength & 0xFFF,
        }
    }

    /// The packed strength.
    pub closed spec fn spec_rank_strength(self) -> int {
        self.rank_strength as int
    }

    /// The unpacked hand category.
    pub closed spec fn spec_hand_rank(self) -> int {
        self.hand_rank as int
    }

    /// The unpacked sub-rank.
    pub closed spec fn spec_sub_rank(self) -> int {
        self.sub_rank as int
    }

    /// Gets the packed hand strength.
    pub fn get_rank_strength(&self) -> (r: u16)
        ensures
            r as int == self.spec_rank_strength(),
    {
        self.rank_strength
    }

    /// Gets the hand category.
    pub fn get_hand_rank(&self) -> (r: u8)
        ensures
            r as int == self.spec_hand_rank(),
    {
        self.hand_rank
    }

    /// Gets the sub-rank within the hand category.
    pub fn get_sub_rank(&self) -> (r: u16)
        ensures
            r as int == self.spec_sub_rank(),
    {
        self.sub_rank
    }

    /// Returns the description of the hand, or the reason why the packed
    /// category and sub-rank are not valid.
    pub fn get_string(&self) -> (r: Result<String, String>)
        ensures
            spec_description_ok(self.spec_hand_rank(), self.spec_sub_rank())
                ==> (r matches Ok(s)
                    && s@ == spec_description(self.spec_hand_rank(), self.spec_sub_rank())),
            !spec_description_ok(self.spec_hand_rank(), self.spec_sub_rank())
                ==> (r matches Err(e) && e@ == spec_description_err(self.spec_hand_rank())),
    {
        get_string(self.hand_rank as u16, self.sub_rank)
    }
}

/// A rank from either family of evaluators: a high-style rank or a packed
/// low rank.  Ranks of different variants are not comparable.
#[derive(Debug, Clone, PartialEq, Eq)]
pub enum Rank {
    /// A high-family rank.
    High(HighRank),
    /// A low-family rank.
    Low(LowRank),
}

impl Rank {
    /// Gets the rank's strength on its own scale.
    pub fn get_rank_strength(&self) -> (r: u64)
        ensures
            self matches Rank::High(h) ==> r == h.0.strength,
            self matches Rank::Low(l) ==> r as int == l.spec_rank_strength(),
    {
        match self {
            Rank::High(h) => h.0.strength as u64,
            Rank::Low(l) => l.get_rank_strength() as u64,
        }
    }

    /// Returns the readable string of the rank, or why none could be
    /// derived: a high rank's stored description, or the description
    /// derived from the category and sub-rank where none is stored.
    pub fn get_string(&self) -> (r: Result<String, String>)
        ensures
            self matches Rank::High(h) ==> (h.0.description matches Some(d)
                ==> (r matches Ok(s) && s@ == d@)),
            self matches Rank::High(h) ==> ((h.0.description is None
                && spec_description_ok(h.0.hand_rank as int, h.0.sub_rank as int))
                ==> (r matches Ok(s)
                    && s@ == spec_description(h.0.hand_rank as int, h.0.sub_rank as int))),
            self matches Rank::High(h) ==> ((h.0.description is None
                && !spec_description_ok(h.0.hand_rank as int, h.0.sub_rank as int))
                ==> (r matches Err(e) && e@ == spec_description_err(h.0.hand_rank as int))),
            self matches Rank::Low(l) ==> (spec_description_ok(
                l.spec_hand_rank(), l.spec_sub_rank())
                ==> (r matches Ok(s)
                    && s@ == spec_description(l.spec_hand_rank(), l.spec_sub_rank()))),
            self matches Rank::Low(l) ==> (!spec_description_ok(
                l.spec_hand_rank(), l.spec_sub_rank())
                ==> (r matches Err(e) && e@ == spec_description_err(l.spec_hand_rank()))),
    {
        match self {
            Rank::High(h) => match &h.0.description {
                Some(d) => Ok(d.clone()),
                None => get_string(h.0.hand_rank, h.0.sub_rank),
            },
            Rank::Low(l) => l.get_string(),
        }
    }
}

/// An iterator-like view of the strengths a rank carries: some rank types
/// carry several strengths, and absent entries stand for hands that did
/// not qualify.
#[derive(Debug, Clone)]
pub struct RankStrengthIterator {
    ranks: Vec<Option<u32>>,
    idx: usize,
}

impl RankStrengthIterator {
    /// The strength entries.
    pub closed spec fn strengths(self) -> Seq<Option<u32>> {
        self.ranks@
    }

    /// How many entries have been taken.
    pub closed spec fn taken(self) -> int {
        self.idx as int
    }

    /// Creates an iterator over the given strength entries.
    pub fn new(ranks: Vec<Option<u32>>) -> (r: RankStrengthIterator)
        ensures
            r.strengths() == ranks@,
            r.taken() == 0,
    {
        RankStrengthIterator { ranks, idx: 0 }
    }

    /// Returns the number of entries.
    pub fn len(&self) -> (r: usize)
        ensures
            r as int == self.strengths().len(),
    {
        self.ranks.len()
    }

    /// Takes the next entry: `None` when all entries have been taken,
    /// otherwise the entry, itself absent for a non-qualifying hand.
    pub fn next_strength(&mut self) -> (r: Option<Option<u32>>)
        ensures
            final(self).strengths() == old(self).strengths(),
            old(self).taken() >= old(self).strengths().len() ==> (r is None
                && final(self).taken() == old(self).taken()),
            old(self).taken() < old(self).strengths().len() ==> (
                r == Some(old(self).strengths()[old(self).taken()])
                && final(self).taken() == old(self).taken() + 1),
    {
        if self.idx < self.ranks.len() {
            let entry = self.ranks[self.idx];
            self.idx = self.idx + 1;
            Some(entry)
        } else {
            None
        }
    }
}

/// Conversion of a rank type into an iterator over its strengths.
pub trait IntoRankStrengthIterator {
    /// Creates a `RankStrengthIterator` from the rank.
    fn into_strength_iter(self) -> RankStrengthIterator;
}

impl IntoRankStrengthIterator for BasicRank {
    fn into_strength_iter(self) -> RankStrengthIterator {
        RankStrengthIterator { ranks: vec![Some(self.strength)], idx: 0 }
    }
}

impl IntoRankStrengthIterator for HighRank {
    fn into_strength_iter(self) -> RankStrengthIterator {
        RankStrengthIterator { ranks: vec![Some(self.0.strength)], idx: 0 }
    }
}

impl IntoRankStrengthIterator for Low27Rank {
    fn into_strength_iter(self) -> RankStrengthIterator {
        RankStrengthIterator { ranks: vec![Some(self.0.strength)], idx: 0 }
    }
}

impl IntoRankStrengthIterator for LowA5Rank {
    fn into_strength_iter(self) -> RankStrengthIterator {
        RankStrengthIterator { ranks: vec![Some(self.0.strength)], idx: 0 }
    }
}

impl IntoRankStrengthIterator for BadugiRank {
    fn into_strength_iter(self) -> RankStrengthIterator {
        RankStrengthIterator { ranks: vec![Some(self.0.strength)], idx: 0 }
    }
}

impl IntoRankStrengthIterator for DramahaHighRank {
    fn into_strength_iter(self) -> RankStrengthIterator {
        RankStrengthIterator {
            ranks: vec![Some(self.omaha_rank.0.strength), Some(self.draw_rank.0.strength)],
            idx: 0,
        }
    }
}

impl IntoRankStrengthIterator for DrawmahaRank {
    fn into_strength_iter(self) -> RankStrengthIterator {
        RankStrengthIterator {
            ranks: vec![Some(self.omaha_rank.0.strength), Some(self.draw_rank.0.strength)],
            idx: 0,
        }
    }
}

impl IntoRankStrengthIterator for OmahaHiLoRank {
    fn into_strength_iter(self) -> RankStrengthIterator {
        let lo = match self.lo_rank {
            Some(l) => Some(l.0.strength),
            None => None,
        };
        RankStrengthIterator { ranks: vec![Some(self.hi_rank.0.strength), lo], idx: 0 }
    }
}

} // verus!

verus! {

impl PartialOrd for LowRank {
    fn partial_cmp(&self, other: &LowRank) -> (r: Option<core::cmp::Ordering>) {
        if self.rank_strength > other.rank_strength {
            Some(core::cmp::Ordering::Less)
        } else if self.rank_strength == other.rank_strength {
            Some(core::cmp::Ordering::Equal)
        } else {
            Some(core::cmp::Ordering::Greater)
        }
    }
}

impl vstd::std_specs::cmp::PartialOrdSpecImpl for LowRank {
    open spec fn obeys_partial_cmp_spec() -> bool {
        true
    }

    closed spec fn partial_cmp_spec(&self, other: &LowRank) -> Option<core::cmp::Ordering> {
        if self.rank_strength > other.rank_strength {
            Some(core::cmp::Ordering::Less)
        } else if self.rank_strength == other.rank_strength {
            Some(core::cmp::Ordering::Equal)
        } else {
            Some(core::cmp::Ordering::Greater)
        }
    }
}

} // verus!
