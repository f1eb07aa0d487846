use vstd::prelude::*;

use rand::seq::SliceRandom;

use crate::card::{cards_identical, Card, Suit};
use crate::error::PokerError;

verus! {

/// The suit encoded by a card index's low two bits.
pub open spec fn spec_suit_of(i: u8) -> Suit {
    if i % 4 == 0 {
        Suit::Spade
    } else if i % 4 == 1 {
        Suit::Club
    } else if i % 4 == 2 {
        Suit::Diamond
    } else {
        Suit::Heart
    }
}

/// The card a deck index in 0..52 stands for: consecutive indices run
/// through the four suits of one rank before moving to the next rank.
pub open spec fn spec_card_of_index(i: u8) -> Card {
    (Card { rank: (i / 4 + 1) as u8, suit: spec_suit_of(i) })
}

/// The 52 indices of a full deck, in order.
pub open spec fn all_card_indices() -> Seq<u8> {
    Seq::new(52, |i: int| i as u8)
}

/// A single-use deck: the 52 distinct cards in a uniformly shuffled order,
/// drawn strictly from the front until none is left.
#[derive(Clone, Debug)]
pub struct Deck {
    pub cards: Vec<u8>,
}

/// Relies on `rand`: `SliceRandom::shuffle` with `rand::thread_rng` reorders
/// the slice in place by swaps (a Fisher-Yates walk), so the vector afterwards
/// holds the same elements with the same multiplicities, in an order that
/// depends on the process-wide random source.
#[verifier::external_body]
fn shuffle_indices(v: &mut Vec<u8>)
    ensures
        final(v)@.to_multiset() == old(v)@.to_multiset(),
{
    v.shuffle(&mut rand::thread_rng());
}

impl Deck {
    /// Every index the deck still holds denotes one of the 52 cards.
    pub open spec fn wf(self) -> bool {
        forall|k: int| 0 <= k < self.cards@.len() ==> #[trigger] self.cards@[k] < 52
    }

    /// Builds a full deck: the 52 distinct card indices in a uniformly
    /// random order.
    pub fn new() -> (d: Deck)
        ensures
            d.wf(),
            d.cards@.len() == 52,
            d.cards@.to_multiset() == all_card_indices().to_multiset(),
    {
        let mut v: Vec<u8> = Vec::new();
        let mut i: u8 = 0;
        while i < 52
            invariant
                i <= 52,
                v@ == all_card_indices().take(i as int),
            decreases 52 - i,
        {
            v.push(i);
            proof {
                assert(all_card_indices().take(i as int + 1) =~= all_card_indices().take(
                    i as int,
                ).push(i));
            }
            i += 1;
        }
        proof {
            assert(v@ =~= all_card_indices());
        }
        shuffle_indices(&mut v);
        proof {
            broadcast use vstd::seq_lib::group_to_multiset_ensures;

            assert forall|k: int| 0 <= k < v@.len() implies #[trigger] v@[k] < 52 by {
                assert(v@.contains(v@[k]));
                assert(all_card_indices().to_multiset().count(v@[k]) > 0);
                assert(all_card_indices().contains(v@[k]));
                let t = choose|t: int|
                    0 <= t < all_card_indices().len() && all_card_indices()[t] == v@[k];
                assert(all_card_indices()[t] == t as u8);
            }
            assert(v@.len() == v@.to_multiset().len());
            assert(all_card_indices().len() == all_card_indices().to_multiset().len());
        }
        Deck { cards: v }
    }

    /// Deals the deck's frontmost card, or `EmptyDeck` once all 52 cards are
    /// gone; a failed draw leaves the deck untouched.
    pub fn random_card(&mut self) -> (r: Result<Card, PokerError>)
        requires
            old(self).wf(),
        ensures
            final(self).wf(),
            old(self).cards@.len() == 0 ==> r == Err::<Card, PokerError>(PokerError::EmptyDeck)
                && *final(self) == *old(self),
            old(self).cards@.len() > 0 ==> r == Ok::<Card, PokerError>(
                spec_card_of_index(old(self).cards@[0]),
            ) && final(self).cards@ == old(self).cards@.drop_first(),
    {
        if self.cards.len() == 0 {
            return Err(PokerError::EmptyDeck);
        }
        let index: u8 = self.cards.remove(0);
        proof {
            assert(self.cards@ =~= old(self).cards@.drop_first());
        }
        Ok(card_of_index(index))
    }
}

/// The runtime twin of `spec_card_of_index`.
fn card_of_index(i: u8) -> (c: Card)
    requires
        i < 52,
    ensures
        c == spec_card_of_index(i),
        c.wf(),
{
    let rank: u8 = i / 4 + 1;
    let suit = match i % 4 {
        0 => Suit::Spade,
        1 => Suit::Club,
        2 => Suit::Diamond,
        _ => Suit::Heart,
    };
    Card { rank, suit }
}

/// Law: a deck holding the full multiset of card indices — as a freshly
/// shuffled deck does — holds 52 pairwise distinct indices, so drawing it dry
/// deals every (rank, suit) identity exactly once.
pub proof fn lemma_full_deck_distinct(d: Deck)
    requires
        d.cards@.to_multiset() == all_card_indices().to_multiset(),
    ensures
        d.cards@.len() == 52,
        forall|a: int, b: int|
            0 <= a < b < d.cards@.len() ==> !cards_identical(
                spec_card_of_index(#[trigger] d.cards@[a]),
                spec_card_of_index(#[trigger] d.cards@[b]),
            ),
{
    broadcast use vstd::seq_lib::group_to_multiset_ensures;

    assert forall|p: int, q: int|
        0 <= p < all_card_indices().len() && 0 <= q < all_card_indices().len() && p
            != q implies all_card_indices()[p] != all_card_indices()[q] by {
        assert(all_card_indices()[p] == p as u8);
        assert(all_card_indices()[q] == q as u8);
    }
    assert(all_card_indices().no_duplicates());
    all_card_indices().lemma_multiset_has_no_duplicates();
    d.cards@.lemma_multiset_has_no_duplicates_conv();
    assert(d.cards@.len() == d.cards@.to_multiset().len());
    assert(all_card_indices().len() == all_card_indices().to_multiset().len());
    assert forall|a: int, b: int|
        0 <= a < b < d.cards@.len() implies !cards_identical(
        spec_card_of_index(#[trigger] d.cards@[a]),
        spec_card_of_index(#[trigger] d.cards@[b]),
    ) by {
        assert(d.cards@.contains(d.cards@[a]));
        assert(all_card_indices().to_multiset().count(d.cards@[a]) > 0);
        assert(all_card_indices().contains(d.cards@[a]));
        let t = choose|t: int|
            0 <= t < all_card_indices().len() && all_card_indices()[t] == d.cards@[a];
        assert(all_card_indices()[t] == t as u8);
        assert(d.cards@.contains(d.cards@[b]));
        assert(all_card_indices().to_multiset().count(d.cards@[b]) > 0);
        assert(all_card_indices().contains(d.cards@[b]));
        let u = choose|u: int|
            0 <= u < all_card_indices().len() && all_card_indices()[u] == d.cards@[b];
        assert(all_card_indices()[u] == u as u8);
        assert(d.cards@[a] != d.cards@[b]);
        lemma_card_of_index_injective(d.cards@[a], d.cards@[b]);
    }
}

/// Law: distinct deck indices stand for distinct cards, so a full deck holds
/// every (rank, suit) identity exactly once and 52 draws deal 52 pairwise
/// distinct cards.
pub proof fn lemma_card_of_index_injective(i: u8, j: u8)
    requires
        i < 52,
        j < 52,
        i != j,
    ensures
        !cards_identical(spec_card_of_index(i), spec_card_of_index(j)),
{
    if spec_card_of_index(i).rank == spec_card_of_index(j).rank && spec_card_of_index(i).suit
        == spec_card_of_index(j).suit {
        assert(i / 4 == j / 4);
        assert(i % 4 == j % 4);
        assert(i == 4 * (i / 4) + i % 4);
        assert(j == 4 * (j / 4) + j % 4);
    }
}

} // verus!
