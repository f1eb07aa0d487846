use vstd::prelude::*;

use crate::error::PokerError;

verus! {

use core::cmp::Ordering;

/// The four suits of a standard deck. Suits carry no ordering weight of their
/// own: they matter only for flush detection.
#[derive(Clone, Copy, Debug, PartialEq, Eq, Structural)]
pub enum Suit {
    Spade,
    Club,
    Diamond,
    Heart,
}

/// A rank is valid when it lies in 1..=13 (1 = Ace, 11 = Jack, 12 = Queen,
/// 13 = King).
pub open spec fn valid_rank(r: u8) -> bool {
    1 <= r <= 13
}

/// The comparison weight of a rank: the Ace (stored as 1) outranks every
/// other rank, so it weighs 14; all other ranks weigh their face value.
pub open spec fn rank_value(r: u8) -> u8 {
    if r == 1 {
        14u8
    } else {
        r
    }
}

/// A single playing card: a rank in 1..=13 and a suit.
#[derive(Clone, Copy, Debug)]
pub struct Card {
    pub rank: u8,
    pub suit: Suit,
}

/// How two cards compare: by rank weight alone, with the Ace highest.
/// Suits never influence the order.
pub open spec fn card_cmp(a: Card, b: Card) -> Ordering {
    if rank_value(a.rank) < rank_value(b.rank) {
        Ordering::Less
    } else if rank_value(a.rank) > rank_value(b.rank) {
        Ordering::Greater
    } else {
        Ordering::Equal
    }
}

/// Two cards are the same physical card of the deck when both rank and suit
/// agree. (Card *equality* for ranking purposes ignores the suit; this
/// predicate is the stricter identity used to reject duplicate inputs.)
pub open spec fn cards_identical(a: Card, b: Card) -> bool {
    a.rank == b.rank && a.suit == b.suit
}

impl Card {
    /// A card is well formed when its rank is in 1..=13.
    pub open spec fn wf(self) -> bool {
        valid_rank(self.rank)
    }

    /// Builds a card, rejecting a rank of 0 or above 13 with `InvalidRank`.
    pub fn new(rank: u8, suit: Suit) -> (r: Result<Card, PokerError>)
        ensures
            valid_rank(rank) ==> r == Ok::<Card, PokerError>((Card { rank, suit })),
            !valid_rank(rank) ==> r == Err::<Card, PokerError>(PokerError::InvalidRank),
    {
        if rank == 0 || rank > 13 {
            Err(PokerError::InvalidRank)
        } else {
            Ok(Card { rank, suit })
        }
    }

    /// Rank-only equality: two cards of equal rank are equal for ranking
    /// purposes, whatever their suits.
    pub fn eq(&self, other: &Card) -> (r: bool)
        ensures
            r == (self.rank == other.rank),
    {
        self.rank == other.rank
    }

    /// Compares two cards by rank, the Ace highest; suits are ignored.
    pub fn cmp(&self, other: &Card) -> (r: Ordering)
        requires
            self.wf(),
            other.wf(),
        ensures
            r == card_cmp(*self, *other),
    {
        if self.rank == 1 {
            if other.rank == 1 {
                Ordering::Equal
            } else {
                Ordering::Greater
            }
        } else if other.rank == 1 {
            Ordering::Less
        } else if self.rank < other.rank {
            Ordering::Less
        } else if self.rank > other.rank {
            Ordering::Greater
        } else {
            Ordering::Equal
        }
    }

    /// Reads the card's rank.
    pub fn rank(&self) -> (r: u8)
        ensures
            r == self.rank,
    {
        self.rank
    }

    /// Reads the card's suit.
    pub fn suit(&self) -> (s: Suit)
        ensures
            s == self.suit,
    {
        self.suit
    }
}

/// The runtime twin of `rank_value`.
pub fn rank_value_exec(r: u8) -> (v: u8)
    ensures
        v == rank_value(r),
{
    if r == 1 {
        14
    } else {
        r
    }
}

} // verus!
