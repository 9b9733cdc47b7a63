//! Selections of cards: distinctness, k-element combinations, and the
//! specification vocabulary used by the evaluators' contracts.

use vstd::prelude::*;
use crate::card::Card;
use itertools::Itertools;

verus! {

/// No card occurs twice.
pub open spec fn distinct_cards(s: Seq<Card>) -> bool {
    forall|i: int, j: int| 0 <= i < j < s.len() ==> s[i] != s[j]
}

/// The cards of `cards` at the positions in `ix`, in order.
pub open spec fn select(cards: Seq<Card>, ix: Seq<int>) -> Seq<Card> {
    Seq::new(ix.len(), |i: int| cards[ix[i]])
}

/// `ix` is a strictly increasing sequence of `k` positions within `0..n`;
/// selecting along such a sequence picks a k-element combination.
pub open spec fn is_choice(ix: Seq<int>, k: nat, n: int) -> bool {
    &&& ix.len() == k
    &&& forall|i: int| 0 <= i < ix.len() ==> 0 <= #[trigger] ix[i] < n
    &&& forall|i: int| 0 < i < ix.len() ==> ix[i - 1] < #[trigger] ix[i]
}

/// Positions in a choice grow over any distance, not just between neighbours.
pub proof fn lemma_choice_increasing(ix: Seq<int>, k: nat, n: int, lo: int, hi: int)
    requires
        is_choice(ix, k, n),
        0 <= lo < hi < ix.len(),
    ensures
        ix[lo] < ix[hi],
    decreases hi - lo,
{
    if hi > lo + 1 {
        lemma_choice_increasing(ix, k, n, lo, hi - 1);
    }
}

/// A combination drawn from distinct cards is itself distinct.
pub proof fn lemma_select_distinct(cards: Seq<Card>, ix: Seq<int>, k: nat)
    requires
        distinct_cards(cards),
        is_choice(ix, k, cards.len() as int),
    ensures
        select(cards, ix).len() == k,
        distinct_cards(select(cards, ix)),
{
    let sel = select(cards, ix);
    assert forall|i: int, j: int| 0 <= i < j < sel.len() implies sel[i] != sel[j] by {
        lemma_choice_increasing(ix, k, cards.len() as int, i, j);
    }
}

/// The views of a list of card vectors.
pub open spec fn views_of(list: Seq<Vec<Card>>) -> Seq<Seq<Card>> {
    Seq::new(list.len(), |j: int| list[j]@)
}

/// `list` is exactly the list of `k`-element combinations of `cards`:
/// every entry selects `k` positions in increasing order, and every such
/// selection appears among the entries.
#[verifier::opaque]
pub open spec fn selection_list(cards: Seq<Card>, k: nat, list: Seq<Seq<Card>>) -> bool {
    &&& forall|j: int| #![trigger list[j]] 0 <= j < list.len() ==> exists|ix: Seq<int>|
        is_choice(ix, k, cards.len() as int) && list[j] == (#[trigger] select(cards, ix))
    &&& forall|ix: Seq<int>| #[trigger] is_choice(ix, k, cards.len() as int)
        ==> exists|j: int| #![auto] 0 <= j < list.len() && list[j] == select(cards, ix)
}

/// Every entry of a selection list is the selection along some choice.
pub proof fn lemma_selection_member(
    cards: Seq<Card>,
    k: nat,
    list: Seq<Seq<Card>>,
    j: int,
) -> (ix: Seq<int>)
    requires
        selection_list(cards, k, list),
        0 <= j < list.len(),
    ensures
        is_choice(ix, k, cards.len() as int),
        list[j] == select(cards, ix),
{
    reveal(selection_list);
    choose|ix: Seq<int>| is_choice(ix, k, cards.len() as int)
        && list[j] == (#[trigger] select(cards, ix))
}

/// Every choice's selection appears in a selection list.
pub proof fn lemma_selection_complete(
    cards: Seq<Card>,
    k: nat,
    list: Seq<Seq<Card>>,
    ix: Seq<int>,
) -> (j: int)
    requires
        selection_list(cards, k, list),
        is_choice(ix, k, cards.len() as int),
    ensures
        0 <= j < list.len(),
        list[j] == select(cards, ix),
{
    reveal(selection_list);
    choose|j: int| #![auto] 0 <= j < list.len() && list[j] == select(cards, ix)
}

/// Relies on itertools' `combinations`: it yields exactly the `k`-element
/// combinations of the input — every output picks `k` positions in
/// increasing order, and every such pick appears among the outputs.
#[verifier::external_body]
pub(crate) fn combinations(cards: &Vec<Card>, k: usize) -> (r: Vec<Vec<Card>>)
    ensures
        selection_list(cards@, k as nat, views_of(r@)),
{
    cards.iter().cloned().combinations(k).collect()
}

/// Reports whether any card occurs twice in `cards`.
pub fn has_duplicate(cards: &Vec<Card>) -> (r: bool)
    ensures
        r <==> !distinct_cards(cards@),
{
    let n = cards.len();
    let mut i: usize = 0;
    while i < n
        invariant
            i <= n,
            n == cards@.len(),
            forall|a: int, b: int| 0 <= a < b < cards@.len() && a < i as int
                ==> cards@[a] != cards@[b],
        decreases n - i,
    {
        let mut j: usize = i + 1;
        while j < n
            invariant
                i < j <= n,
                n == cards@.len(),
                forall|b: int| i < b < j as int ==> cards@[i as int] != cards@[b],
            decreases n - j,
        {
            if cards[i] == cards[j] {
                return true;
            }
            j = j + 1;
        }
        i = i + 1;
    }
    false
}

} // verus!
