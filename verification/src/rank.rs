//! A plain rank record and a container for per-hand winner lists.

use vstd::prelude::*;

verus! {

/// A rank as plain data: the totally ordered strength, the hand category,
/// the sub-rank within the category, and a human-readable description.
#[derive(Debug, Clone, PartialEq, Eq)]
pub struct Rank {
    /// The strength of the rank; higher values beat lower ones.
    pub strength: u32,
    /// The major hand category of the rank.
    pub hand_rank: u16,
    /// The sub-rank within the hand category.
    pub sub_rank: u16,
    /// An optional description of the rank.
    pub description: Option<String>,
}

impl Rank {
    /// Gets the strength of the rank.
    pub fn get_strength(&self) -> (r: u32)
        ensures
            r == self.strength,
    {
        self.strength
    }

    /// Gets the hand category of the rank.
    pub fn get_hand_rank(&self) -> (r: u16)
        ensures
            r == self.hand_rank,
    {
        self.hand_rank
    }

    /// Gets the sub-rank of the rank.
    pub fn get_sub_rank(&self) -> (r: u16)
        ensures
            r == self.sub_rank,
    {
        self.sub_rank
    }

    /// Gets the description of the rank.
    pub fn get_description(&self) -> (r: Option<String>)
        ensures
            r matches Some(d) ==> (self.description matches Some(sd) && d@ == sd@),
            (r is Some) == (self.description is Some),
    {
        match &self.description {
            Some(d) => Some(d.clone()),
            None => None,
        }
    }
}

/// Which keys hold the strongest ranks, hand by hand: for every hand, a
/// list of groups of keys ordered from the strongest rank to the weakest.
#[derive(Debug, Clone)]
pub struct RankResults<T> {
    hand_table: Vec<Vec<Vec<T>>>,
}

impl<T> RankResults<T> {
    /// The winner table.
    pub closed spec fn table_view(self) -> Seq<Vec<Vec<T>>> {
        self.hand_table@
    }

    /// Wraps a winner table.
    pub fn new(hand_table: Vec<Vec<Vec<T>>>) -> (r: RankResults<T>)
        ensures
            r.table_view() == hand_table@,
    {
        RankResults { hand_table }
    }

    /// Gets the winner list of hand `n`, if that hand exists.
    pub fn hand_number(&self, n: usize) -> (r: Option<&Vec<Vec<T>>>)
        ensures
            (r is Some) == ((n as int) < self.table_view().len()),
            r matches Some(v) ==> *v == self.table_view()[n as int],
    {
        if n < self.hand_table.len() {
            Some(&self.hand_table[n])
        } else {
            None
        }
    }
}

} // verus!
