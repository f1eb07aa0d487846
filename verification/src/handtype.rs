use vstd::prelude::*;

use crate::card::{valid_rank, rank_value, Card};
use crate::hand::Hand;

verus! {

/// The four hand categories of this ranking system, strongest first:
/// Flush > Straight > OnePair > HighCard.
///
/// `Straight` carries the straight's effective high rank (5 for the wheel
/// A-2-3-4-5, 1 for the Ace-high broadway 10-J-Q-K-A, the top card's rank
/// otherwise); `OnePair` carries the rank that forms the pair. Both payloads
/// feed the tie-break rules of the hand comparator.
#[derive(Clone, Copy, Debug, PartialEq, Eq, Structural)]
pub enum HandType {
    Flush,
    Straight(u8),
    OnePair(u8),
    HighCard,
}

/// The ranks of a card sequence, in the same order.
pub open spec fn ranks_of(s: Seq<Card>) -> Seq<u8> {
    s.map_values(|c: Card| c.rank)
}

/// Sorted ascending by rank weight, the Ace counting as the highest rank.
pub open spec fn sorted_by_rank(s: Seq<Card>) -> bool {
    forall|i: int, j: int|
        0 <= i < j < s.len() ==> rank_value(s[i].rank) <= rank_value(s[j].rank)
}

/// Every card of the sequence carries a rank in 1..=13.
pub open spec fn all_ranks_valid(s: Seq<Card>) -> bool {
    forall|i: int| 0 <= i < s.len() ==> valid_rank((#[trigger] s[i]).rank)
}

/// Flush: every card wears the same suit as the first card.
pub open spec fn spec_is_flush(s: Seq<Card>) -> bool {
    forall|i: int| 0 <= i < s.len() ==> (#[trigger] s[i]).suit == s[0].suit
}

/// The wheel: ranks A-2-3-4-5, which sort as 2,3,4,5,Ace.
pub open spec fn spec_is_wheel(s: Seq<Card>) -> bool {
    ranks_of(s) == seq![2u8, 3u8, 4u8, 5u8, 1u8]
}

/// Broadway: ranks 10-J-Q-K-A, which sort as 10,11,12,13,Ace.
pub open spec fn spec_is_broadway(s: Seq<Card>) -> bool {
    ranks_of(s) == seq![10u8, 11u8, 12u8, 13u8, 1u8]
}

/// An ace-free run of five consecutive ranks, in sorted order.
pub open spec fn spec_is_run(s: Seq<Card>) -> bool {
    &&& s.len() == 5
    &&& s[4].rank != 1
    &&& forall|i: int| 1 <= i < 5 ==> (#[trigger] s[i]).rank == s[i - 1].rank + 1
}

/// Straight: a run, or one of the two explicit Ace patterns.
pub open spec fn spec_is_straight(s: Seq<Card>) -> bool {
    spec_is_wheel(s) || spec_is_broadway(s) || spec_is_run(s)
}

/// The effective high rank of a straight: 5 for the wheel, Ace (1) for
/// broadway, the top sorted card's rank otherwise.
pub open spec fn spec_straight_high(s: Seq<Card>) -> u8 {
    if spec_is_wheel(s) {
        5u8
    } else if spec_is_broadway(s) {
        1u8
    } else {
        s[4].rank
    }
}

/// One pair: some two adjacent cards of the sorted hand share a rank.
pub open spec fn spec_has_pair(s: Seq<Card>) -> bool {
    exists|i: int| 0 <= i < s.len() - 1 && (#[trigger] s[i]).rank == s[i + 1].rank
}

/// The position of the first adjacent pair of a sorted five-card hand.
pub open spec fn spec_first_pair_index(s: Seq<Card>) -> int {
    if s[0].rank == s[1].rank {
        0
    } else if s[1].rank == s[2].rank {
        1
    } else if s[2].rank == s[3].rank {
        2
    } else {
        3
    }
}

/// The rank forming the first adjacent pair of a sorted five-card hand.
pub open spec fn spec_pair_rank(s: Seq<Card>) -> u8 {
    s[spec_first_pair_index(s)].rank
}

/// The single category of a sorted five-card hand. The raw predicates are not
/// mutually exclusive, so the priority Flush > Straight > OnePair > HighCard
/// picks the one category the hand belongs to; HighCard is the catch-all.
pub open spec fn spec_classify(s: Seq<Card>) -> HandType {
    if spec_is_flush(s) {
        HandType::Flush
    } else if spec_is_straight(s) {
        HandType::Straight(spec_straight_high(s))
    } else if spec_has_pair(s) {
        HandType::OnePair(spec_pair_rank(s))
    } else {
        HandType::HighCard
    }
}

impl HandType {
    /// The category's strength, higher meaning stronger. This is what the
    /// comparator orders categories by.
    pub open spec fn spec_strength(self) -> u8 {
        match self {
            HandType::Flush => 3u8,
            HandType::Straight(_) => 2u8,
            HandType::OnePair(_) => 1u8,
            HandType::HighCard => 0u8,
        }
    }

    /// The category's ranking number, lower meaning stronger.
    pub open spec fn spec_ranking(self) -> u8 {
        match self {
            HandType::Flush => 5u8,
            HandType::Straight(_) => 6u8,
            HandType::OnePair(_) => 9u8,
            HandType::HighCard => 10u8,
        }
    }

    /// Returns the category's ranking number; a lower number is a stronger
    /// category (Flush 5, Straight 6, OnePair 9, HighCard 10).
    pub fn get_ranking(self) -> (r: u8)
        ensures
            r == self.spec_ranking(),
    {
        match self {
            HandType::Flush => 5,
            HandType::Straight(_) => 6,
            HandType::OnePair(_) => 9,
            HandType::HighCard => 10,
        }
    }

    /// Tests the raw predicate of this value's category against a hand: all
    /// one suit for Flush, a straight pattern for Straight, an adjacent equal
    /// pair for OnePair, and none of the three for HighCard. Any payload the
    /// value carries is ignored; the predicates are not mutually exclusive.
    #[verifier::rlimit(50)]
    pub fn check_hand(self, hand: Hand) -> (r: bool)
        requires
            all_ranks_valid(hand.cards@),
        ensures
            self is Flush ==> r == spec_is_flush(hand.cards@),
            self is Straight ==> r == spec_is_straight(hand.cards@),
            self is OnePair ==> r == spec_has_pair(hand.cards@),
            self is HighCard ==> r == (!spec_is_flush(hand.cards@) && !spec_is_straight(
                hand.cards@,
            ) && !spec_has_pair(hand.cards@)),
    {
        match self {
            HandType::Flush => is_flush(&hand.cards),
            HandType::Straight(_) => is_straight(&hand.cards),
            HandType::OnePair(_) => is_one_pair(&hand.cards),
            HandType::HighCard => {
                !(is_flush(&hand.cards) || is_straight(&hand.cards) || is_one_pair(&hand.cards))
            },
        }
    }
}

/// Checks whether all five cards wear one suit.
pub(crate) fn is_flush(cards: &[Card; 5]) -> (r: bool)
    ensures
        r == spec_is_flush(cards@),
{
    cards[1].suit == cards[0].suit && cards[2].suit == cards[0].suit && cards[3].suit
        == cards[0].suit && cards[4].suit == cards[0].suit
}

/// Checks whether the sorted hand forms a straight (a run or one of the two
/// Ace patterns).
pub(crate) fn is_straight(cards: &[Card; 5]) -> (r: bool)
    requires
        all_ranks_valid(cards@),
    ensures
        r == spec_is_straight(cards@),
{
    if cards[4].rank == 1 {
        let wheel = cards[0].rank == 2 && cards[1].rank == 3 && cards[2].rank == 4
            && cards[3].rank == 5;
        let broadway = cards[0].rank == 10 && cards[1].rank == 11 && cards[2].rank == 12
            && cards[3].rank == 13;
        proof {
            if wheel {
                assert(ranks_of(cards@) =~= seq![2u8, 3u8, 4u8, 5u8, 1u8]);
            }
            if broadway {
                assert(ranks_of(cards@) =~= seq![10u8, 11u8, 12u8, 13u8, 1u8]);
            }
            if !wheel && !broadway {
                assert(!spec_is_wheel(cards@)) by {
                    if spec_is_wheel(cards@) {
                        assert(ranks_of(cards@)[0] == 2);
                    }
                }
                assert(!spec_is_broadway(cards@)) by {
                    if spec_is_broadway(cards@) {
                        assert(ranks_of(cards@)[0] == 10);
                    }
                }
            }
        }
        return wheel || broadway;
    }
    proof {
        assert(!spec_is_wheel(cards@)) by {
            if spec_is_wheel(cards@) {
                assert(ranks_of(cards@)[4] == 1);
            }
        }
        assert(!spec_is_broadway(cards@)) by {
            if spec_is_broadway(cards@) {
                assert(ranks_of(cards@)[4] == 1);
            }
        }
    }
    cards[1].rank == cards[0].rank + 1 && cards[2].rank == cards[1].rank + 1 && cards[3].rank
        == cards[2].rank + 1 && cards[4].rank == cards[3].rank + 1
}

/// Checks whether some two adjacent cards of the sorted hand share a rank.
pub(crate) fn is_one_pair(cards: &[Card; 5]) -> (r: bool)
    ensures
        r == spec_has_pair(cards@),
{
    cards[0].rank == cards[1].rank || cards[1].rank == cards[2].rank || cards[2].rank
        == cards[3].rank || cards[3].rank == cards[4].rank
}

/// The effective high rank of a hand already known to be a straight.
pub(crate) fn straight_high(cards: &[Card; 5]) -> (r: u8)
    requires
        spec_is_straight(cards@),
    ensures
        r == spec_straight_high(cards@),
{
    if cards[4].rank == 1 {
        proof {
            assert(!spec_is_run(cards@));
            if spec_is_wheel(cards@) {
                assert(ranks_of(cards@)[0] == 2);
            } else {
                assert(ranks_of(cards@)[0] == 10);
            }
        }
        if cards[0].rank == 2 {
            5
        } else {
            1
        }
    } else {
        proof {
            assert(!spec_is_wheel(cards@)) by {
                if spec_is_wheel(cards@) {
                    assert(ranks_of(cards@)[4] == 1);
                }
            }
            assert(!spec_is_broadway(cards@)) by {
                if spec_is_broadway(cards@) {
                    assert(ranks_of(cards@)[4] == 1);
                }
            }
        }
        cards[4].rank
    }
}

/// The rank of the first adjacent pair of the sorted hand.
pub(crate) fn pair_rank(cards: &[Card; 5]) -> (r: u8)
    ensures
        r == spec_pair_rank(cards@),
{
    if cards[0].rank == cards[1].rank {
        cards[0].rank
    } else if cards[1].rank == cards[2].rank {
        cards[1].rank
    } else if cards[2].rank == cards[3].rank {
        cards[2].rank
    } else {
        cards[3].rank
    }
}

/// Classifies a sorted five-card hand into its single category, with the
/// payload the tie-break rules need.
pub(crate) fn classify(cards: &[Card; 5]) -> (t: HandType)
    requires
        sorted_by_rank(cards@),
        all_ranks_valid(cards@),
    ensures
        t == spec_classify(cards@),
{
    if is_flush(cards) {
        HandType::Flush
    } else if is_straight(cards) {
        HandType::Straight(straight_high(cards))
    } else if is_one_pair(cards) {
        HandType::OnePair(pair_rank(cards))
    } else {
        HandType::HighCard
    }
}

} // verus!
