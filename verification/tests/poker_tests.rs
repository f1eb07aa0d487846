use std::cmp::Ordering;

use poker_core::card::{Card, Suit};
use poker_core::deck::Deck;
use poker_core::error::PokerError;
use poker_core::hand::Hand;
use poker_core::handtype::HandType;

use rand::seq::SliceRandom;

const ALL_SUITS: [Suit; 4] = [Suit::Spade, Suit::Club, Suit::Diamond, Suit::Heart];

fn card(rank: u8, suit: Suit) -> Card {
    Card::new(rank, suit).unwrap()
}

fn create_hand(ranks: [u8; 5], suits: [Suit; 5]) -> Hand {
    Hand::new([
        card(ranks[0], suits[0]),
        card(ranks[1], suits[1]),
        card(ranks[2], suits[2]),
        card(ranks[3], suits[3]),
        card(ranks[4], suits[4]),
    ])
}

fn random_suits_no_flush() -> [Suit; 5] {
    let mut rng = rand::thread_rng();
    loop {
        let mut suits = Vec::new();
        for _ in 0..5 {
            suits.push(*ALL_SUITS.choose(&mut rng).unwrap());
        }
        if suits.iter().any(|&suit| suit != suits[0]) {
            return suits.try_into().unwrap();
        }
    }
}

/// Five fixed suits that never form a flush.
const MIXED: [Suit; 5] = [
    Suit::Spade,
    Suit::Club,
    Suit::Diamond,
    Suit::Heart,
    Suit::Spade,
];

#[test]
fn hand_compare_tests() {
    let highcard1 = create_hand([3, 5, 2, 6, 9], random_suits_no_flush());
    let highcard2 = create_hand([1, 2, 3, 7, 4], random_suits_no_flush());

    let pair1 = create_hand([2, 3, 10, 2, 4], random_suits_no_flush());
    let pair2 = create_hand([5, 6, 7, 5, 2], random_suits_no_flush());
    let pair3 = create_hand([5, 6, 2, 5, 1], random_suits_no_flush());

    let straight1 = create_hand([3, 4, 5, 6, 7], random_suits_no_flush());
    let straight2 = create_hand([1, 2, 3, 4, 5], random_suits_no_flush());

    assert_eq!(highcard1.cmp(&highcard2), Ordering::Less);
    assert_eq!(pair1.cmp(&pair2), Ordering::Less);
    assert_eq!(pair2.cmp(&pair3), Ordering::Less);
    assert_eq!(highcard1.cmp(&pair2), Ordering::Less);
    assert_eq!(straight1.cmp(&straight2), Ordering::Greater);
}

#[test]
fn card_new_accepts_valid_ranks_only() {
    for rank in 1..=13u8 {
        for suit in ALL_SUITS {
            let c = Card::new(rank, suit).unwrap();
            assert_eq!(c.rank(), rank);
            assert_eq!(c.suit(), suit);
        }
    }
    for rank in [0u8, 14, 100, 255] {
        for suit in ALL_SUITS {
            assert_eq!(Card::new(rank, suit).unwrap_err(), PokerError::InvalidRank);
        }
    }
}

#[test]
fn card_ordering_ace_high() {
    let ace_s = card(1, Suit::Spade);
    let ace_h = card(1, Suit::Heart);
    let king = card(13, Suit::Club);
    let two = card(2, Suit::Diamond);

    assert_eq!(ace_s.cmp(&king), Ordering::Greater);
    assert_eq!(king.cmp(&two), Ordering::Greater);
    assert_eq!(ace_s.cmp(&two), Ordering::Greater);
    assert_eq!(two.cmp(&ace_s), Ordering::Less);
    assert_eq!(ace_s.cmp(&ace_h), Ordering::Equal);
    assert!(ace_s.eq(&ace_h));
    assert!(!ace_s.eq(&king));
}

#[test]
fn deck_deals_all_52_cards_once() {
    let mut deck = Deck::new();
    let mut seen: Vec<(u8, Suit)> = Vec::new();
    for _ in 0..52 {
        let c = deck.random_card().unwrap();
        let identity = (c.rank(), c.suit());
        assert!(!seen.contains(&identity));
        assert!((1..=13).contains(&c.rank()));
        seen.push(identity);
    }
    assert_eq!(seen.len(), 52);
    assert_eq!(deck.random_card().unwrap_err(), PokerError::EmptyDeck);
}

#[test]
fn deck_draws_from_the_front() {
    let mut deck = Deck {
        cards: vec![0, 5, 51],
    };
    let first = deck.random_card().unwrap();
    assert_eq!((first.rank(), first.suit()), (1, Suit::Spade));
    let second = deck.random_card().unwrap();
    assert_eq!((second.rank(), second.suit()), (2, Suit::Club));
    let third = deck.random_card().unwrap();
    assert_eq!((third.rank(), third.suit()), (13, Suit::Heart));
    assert_eq!(deck.random_card().unwrap_err(), PokerError::EmptyDeck);
}

#[test]
fn classification_examples() {
    let straight = create_hand([3, 4, 5, 6, 7], MIXED);
    assert_eq!(straight.get_hand_type(), HandType::Straight(7));

    let wheel = create_hand([1, 2, 3, 4, 5], MIXED);
    assert_eq!(wheel.get_hand_type(), HandType::Straight(5));
    let six_high = create_hand([2, 3, 4, 5, 6], MIXED);
    assert_eq!(wheel.cmp(&six_high), Ordering::Less);

    let broadway = create_hand([10, 11, 12, 13, 1], MIXED);
    assert_eq!(broadway.get_hand_type(), HandType::Straight(1));
    let king_high_straight = create_hand([9, 10, 11, 12, 13], MIXED);
    assert_eq!(broadway.cmp(&king_high_straight), Ordering::Greater);

    let pair = create_hand([2, 3, 10, 2, 4], MIXED);
    assert_eq!(pair.get_hand_type(), HandType::OnePair(2));

    let flush = create_hand([2, 5, 9, 11, 13], [Suit::Heart; 5]);
    assert_eq!(flush.get_hand_type(), HandType::Flush);

    let nothing = create_hand([2, 5, 9, 11, 13], MIXED);
    assert_eq!(nothing.get_hand_type(), HandType::HighCard);
}

#[test]
fn straight_flush_counts_as_flush() {
    let hand = create_hand([3, 4, 5, 6, 7], [Suit::Club; 5]);
    assert_eq!(hand.get_hand_type(), HandType::Flush);
}

#[test]
fn check_hand_tests_raw_predicates() {
    let straight_flush = create_hand([3, 4, 5, 6, 7], [Suit::Spade; 5]);
    assert!(HandType::Flush.check_hand(straight_flush));
    assert!(HandType::Straight(0).check_hand(straight_flush));
    assert!(!HandType::OnePair(0).check_hand(straight_flush));
    assert!(!HandType::HighCard.check_hand(straight_flush));

    let pair = create_hand([2, 3, 10, 2, 4], MIXED);
    assert!(!HandType::Flush.check_hand(pair));
    assert!(!HandType::Straight(0).check_hand(pair));
    assert!(HandType::OnePair(0).check_hand(pair));
    assert!(!HandType::HighCard.check_hand(pair));

    let nothing = create_hand([2, 5, 9, 11, 13], MIXED);
    assert!(HandType::HighCard.check_hand(nothing));
}

#[test]
fn get_ranking_values() {
    assert_eq!(HandType::Flush.get_ranking(), 5);
    assert_eq!(HandType::Straight(7).get_ranking(), 6);
    assert_eq!(HandType::OnePair(2).get_ranking(), 9);
    assert_eq!(HandType::HighCard.get_ranking(), 10);
}

#[test]
fn one_pair_kickers_break_ties() {
    let pair_five_high_kicker = create_hand([5, 5, 2, 6, 7], MIXED);
    let pair_five_low_kicker = create_hand([5, 5, 2, 6, 4], MIXED);
    let pair_ten = create_hand([10, 10, 2, 3, 4], MIXED);

    assert_eq!(
        pair_five_high_kicker.cmp(&pair_five_low_kicker),
        Ordering::Greater
    );
    assert_eq!(
        pair_five_low_kicker.cmp(&pair_five_high_kicker),
        Ordering::Less
    );
    assert_eq!(pair_five_high_kicker.cmp(&pair_ten), Ordering::Less);
    assert_eq!(pair_five_low_kicker.cmp(&pair_ten), Ordering::Less);
}

#[test]
fn ace_pair_beats_king_pair() {
    let ace_pair = create_hand([1, 1, 2, 3, 5], MIXED);
    let king_pair = create_hand([13, 13, 2, 3, 5], MIXED);
    assert_eq!(ace_pair.cmp(&king_pair), Ordering::Greater);
}

#[test]
fn three_of_a_kind_still_counts_as_one_pair() {
    let trips = create_hand([7, 7, 7, 2, 3], MIXED);
    assert_eq!(trips.get_hand_type(), HandType::OnePair(7));
}

#[test]
fn comparator_law_examples() {
    let hands = [
        create_hand([2, 5, 9, 11, 13], MIXED),
        create_hand([2, 3, 10, 2, 4], MIXED),
        create_hand([3, 4, 5, 6, 7], MIXED),
        create_hand([2, 5, 9, 11, 13], [Suit::Diamond; 5]),
    ];
    // Reflexivity.
    for h in &hands {
        assert_eq!(h.cmp(h), Ordering::Equal);
    }
    // Antisymmetry over every pair.
    for a in &hands {
        for b in &hands {
            match a.cmp(b) {
                Ordering::Less => assert_eq!(b.cmp(a), Ordering::Greater),
                Ordering::Greater => assert_eq!(b.cmp(a), Ordering::Less),
                Ordering::Equal => assert_eq!(b.cmp(a), Ordering::Equal),
            }
        }
    }
    // Transitivity across a chain of three distinct categories:
    // high card < one pair < straight < flush.
    assert_eq!(hands[0].cmp(&hands[1]), Ordering::Less);
    assert_eq!(hands[1].cmp(&hands[2]), Ordering::Less);
    assert_eq!(hands[0].cmp(&hands[2]), Ordering::Less);
    assert_eq!(hands[2].cmp(&hands[3]), Ordering::Less);
    assert_eq!(hands[1].cmp(&hands[3]), Ordering::Less);
}

fn max_hand(hands: &[Hand], indices: impl Iterator<Item = usize>) -> Hand {
    let mut best: Option<Hand> = None;
    for k in indices {
        best = match best {
            None => Some(hands[k]),
            Some(b) => {
                if hands[k].cmp(&b) == Ordering::Greater {
                    Some(hands[k])
                } else {
                    Some(b)
                }
            }
        };
    }
    best.unwrap()
}

#[test]
fn best_hands_returns_21_candidates() {
    let hole = [card(1, Suit::Spade), card(13, Suit::Spade)];
    let community = [
        card(2, Suit::Heart),
        card(7, Suit::Spade),
        card(7, Suit::Diamond),
        card(10, Suit::Club),
        card(4, Suit::Spade),
    ];
    let hands = Hand::get_all_hands(hole, community).unwrap();
    assert_eq!(hands.len(), 21);
    // Every candidate keeps five of the seven cards.
    for h in &hands {
        for k in 0..5 {
            let c = h.card_at(k);
            let in_pool = hole
                .iter()
                .chain(community.iter())
                .any(|p| p.rank() == c.rank() && p.suit() == c.suit());
            assert!(in_pool);
        }
    }
    // The maximum does not depend on the walking order.
    let forward = max_hand(&hands, 0..21);
    let backward = max_hand(&hands, (0..21).rev());
    assert_eq!(forward.cmp(&backward), Ordering::Equal);
    // The best hand here pairs the sevens with ace, king, ten behind them.
    assert_eq!(forward.get_hand_type(), HandType::OnePair(7));
}

#[test]
fn best_hands_rejects_duplicate_cards() {
    let hole = [card(1, Suit::Spade), card(13, Suit::Spade)];
    let community = [
        card(2, Suit::Heart),
        card(1, Suit::Spade),
        card(7, Suit::Diamond),
        card(10, Suit::Club),
        card(4, Suit::Spade),
    ];
    assert_eq!(
        Hand::get_all_hands(hole, community).unwrap_err(),
        PokerError::MalformedHandInput
    );
}

#[test]
fn ranks_array_is_sorted_ace_high() {
    let hand = create_hand([10, 3, 1, 7, 2], MIXED);
    assert_eq!(hand.get_ranks_array(), [2, 3, 7, 10, 1]);
}

#[test]
fn equal_rank_hands_tie_exactly() {
    let wheel_a = create_hand([1, 2, 3, 4, 5], MIXED);
    let wheel_b = create_hand(
        [4, 5, 1, 2, 3],
        [Suit::Heart, Suit::Spade, Suit::Club, Suit::Spade, Suit::Diamond],
    );
    assert_eq!(wheel_a.cmp(&wheel_b), Ordering::Equal);

    let flush_spades = create_hand([2, 5, 9, 11, 13], [Suit::Spade; 5]);
    let flush_hearts = create_hand([2, 5, 9, 11, 13], [Suit::Heart; 5]);
    assert_eq!(flush_spades.cmp(&flush_hearts), Ordering::Equal);
}

#[test]
fn missing_kickers_weigh_lowest() {
    // A third seven swallows a kicker slot, so the shorter kicker list
    // loses to a plain pair of sevens with a king behind it.
    let trips = create_hand([7, 7, 7, 2, 3], MIXED);
    let pair_with_king = create_hand([7, 7, 13, 2, 3], MIXED);
    assert_eq!(trips.cmp(&pair_with_king), Ordering::Less);
}
