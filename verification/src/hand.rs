use vstd::prelude::*;

use crate::card::{cards_identical, rank_value, rank_value_exec, valid_rank, Card};
use crate::error::PokerError;
use crate::handtype::{
    all_ranks_valid, classify, ranks_of, sorted_by_rank, spec_classify, HandType,
};
use crate::lex::{
    lemma_lex_cmp_antisym, lemma_lex_cmp_equal_is_eq, lemma_lex_cmp_first_diff, lemma_lex_cmp_refl,
    lemma_lex_cmp_trans, lex_cmp, lex_compare,
};

verus! {

use core::cmp::Ordering;

/// A five-card hand, held sorted ascending by rank weight (Ace high), with
/// its category computed once at construction and carried alongside.
#[derive(Clone, Copy, Debug)]
pub struct Hand {
    pub cards: [Card; 5],
    pub hand_type: HandType,
}

impl Hand {
    /// A hand is well formed when its five cards are sorted ascending by rank
    /// weight, every rank is valid, and the stored category is the
    /// classification of those cards.
    pub open spec fn wf(self) -> bool {
        &&& sorted_by_rank(self.cards@)
        &&& all_ranks_valid(self.cards@)
        &&& self.hand_type == spec_classify(self.cards@)
    }

    /// Builds a hand from five cards: sorts them ascending by rank weight and
    /// classifies the result. The returned hand holds exactly the given
    /// cards.
    pub fn new(cards: [Card; 5]) -> (h: Hand)
        requires
            all_ranks_valid(cards@),
        ensures
            h.wf(),
            h.cards@.to_multiset() == cards@.to_multiset(),
    {
        let mut v: Vec<Card> = Vec::new();
        v.push(cards[0]);
        v.push(cards[1]);
        v.push(cards[2]);
        v.push(cards[3]);
        v.push(cards[4]);
        proof {
            assert(v@ =~= cards@);
        }
        let sv = sort_cards(v);
        proof {
            broadcast use vstd::seq_lib::group_to_multiset_ensures;

            assert forall|i: int| 0 <= i < sv@.len() implies valid_rank(
                (#[trigger] sv@[i]).rank,
            ) by {
                assert(sv@.contains(sv@[i]));
                assert(cards@.to_multiset().count(sv@[i]) > 0);
                assert(cards@.contains(sv@[i]));
            }
        }
        let arr: [Card; 5] = [sv[0], sv[1], sv[2], sv[3], sv[4]];
        proof {
            assert(arr@ =~= sv@);
        }
        let ht = classify(&arr);
        Hand { cards: arr, hand_type: ht }
    }

    /// The five ranks of the hand, in sorted card order.
    pub fn get_ranks_array(self) -> (r: [u8; 5])
        ensures
            r@ == ranks_of(self.cards@),
    {
        let r: [u8; 5] = [
            self.cards[0].rank,
            self.cards[1].rank,
            self.cards[2].rank,
            self.cards[3].rank,
            self.cards[4].rank,
        ];
        proof {
            assert(r@ =~= ranks_of(self.cards@));
        }
        r
    }

    /// The hand's category, computed at construction.
    pub fn get_hand_type(self) -> (t: HandType)
        requires
            self.wf(),
        ensures
            t == spec_classify(self.cards@),
    {
        self.hand_type
    }

    /// The card at a position of the sorted hand.
    pub fn card_at(&self, i: usize) -> (c: Card)
        requires
            i < 5,
        ensures
            c == self.cards@[i as int],
    {
        self.cards[i]
    }
}

/// The cards of a sorted hand whose rank is not the pair rank, in order:
/// the kickers of a one-pair hand.
pub open spec fn spec_non_pair(s: Seq<Card>, pr: u8) -> Seq<Card>
    decreases s.len(),
{
    if s.len() == 0 {
        Seq::empty()
    } else if s.first().rank == pr {
        spec_non_pair(s.drop_first(), pr)
    } else {
        seq![s.first()] + spec_non_pair(s.drop_first(), pr)
    }
}

/// The `i`-th kicker weight, counting from the strongest kicker down;
/// positions past the kickers weigh 0.
pub open spec fn spec_kick(ks: Seq<Card>, i: int) -> u8 {
    if i < ks.len() {
        rank_value(ks[ks.len() - 1 - i].rank)
    } else {
        0u8
    }
}

impl Hand {
    /// The hand's comparison key: six weights compared lexicographically.
    /// The first is the category strength (Flush 3, Straight 2, OnePair 1,
    /// HighCard 0); the rest are the category's tie-break weights — the five
    /// card weights from highest to lowest for Flush and HighCard, the
    /// effective straight high weight for Straight, and the pair weight
    /// followed by the kicker weights from highest to lowest for OnePair.
    pub open spec fn key(self) -> Seq<u8> {
        let s = self.cards@;
        match self.hand_type {
            HandType::Flush => seq![
                3u8,
                rank_value(s[4].rank),
                rank_value(s[3].rank),
                rank_value(s[2].rank),
                rank_value(s[1].rank),
                rank_value(s[0].rank),
            ],
            HandType::Straight(hr) => seq![2u8, rank_value(hr), 0u8, 0u8, 0u8, 0u8],
            HandType::OnePair(pr) => {
                let ks = spec_non_pair(s, pr);
                seq![
                    1u8,
                    rank_value(pr),
                    spec_kick(ks, 0),
                    spec_kick(ks, 1),
                    spec_kick(ks, 2),
                    0u8,
                ]
            },
            HandType::HighCard => seq![
                0u8,
                rank_value(s[4].rank),
                rank_value(s[3].rank),
                rank_value(s[2].rank),
                rank_value(s[1].rank),
                rank_value(s[0].rank),
            ],
        }
    }
}

/// How two hands compare: by category strength first, then by the category's
/// tie-break weights, all encoded in the hands' keys.
pub open spec fn spec_hand_cmp(a: Hand, b: Hand) -> Ordering {
    lex_cmp(a.key(), b.key())
}

/// The cards of the sorted array whose rank differs from `pr`, in order.
fn filter_non_pair(cards: &[Card; 5], pr: u8) -> (ks: Vec<Card>)
    ensures
        ks@ == spec_non_pair(cards@, pr),
{
    let mut ks: Vec<Card> = Vec::new();
    let mut t: usize = 0;
    proof {
        assert(cards@.skip(0) =~= cards@);
        assert(Seq::<Card>::empty() + spec_non_pair(cards@, pr) =~= spec_non_pair(cards@, pr));
    }
    while t < 5
        invariant
            t <= 5,
            ks@ + spec_non_pair(cards@.skip(t as int), pr) == spec_non_pair(cards@, pr),
        decreases 5 - t,
    {
        let ghost pre = cards@.skip(t as int);
        proof {
            assert(pre.first() == cards@[t as int]);
            assert(pre.drop_first() =~= cards@.skip(t as int + 1));
        }
        if cards[t].rank != pr {
            ks.push(cards[t]);
            proof {
                assert(spec_non_pair(pre, pr) == seq![cards@[t as int]] + spec_non_pair(
                    cards@.skip(t as int + 1),
                    pr,
                ));
                assert(ks@ + spec_non_pair(cards@.skip(t as int + 1), pr) =~= spec_non_pair(
                    cards@,
                    pr,
                ));
            }
        } else {
            proof {
                assert(spec_non_pair(pre, pr) == spec_non_pair(cards@.skip(t as int + 1), pr));
            }
        }
        t += 1;
    }
    proof {
        assert(cards@.skip(5) =~= Seq::<Card>::empty());
        assert(ks@ =~= ks@ + spec_non_pair(cards@.skip(5), pr));
    }
    ks
}

impl Hand {
    /// Lays the hand's comparison key out as bytes.
    fn build_key(&self) -> (k: Vec<u8>)
        ensures
            k@ == self.key(),
            k@.len() == 6,
    {
        let mut k: Vec<u8> = Vec::new();
        match self.hand_type {
            HandType::Flush => {
                k.push(3);
                k.push(rank_value_exec(self.cards[4].rank));
                k.push(rank_value_exec(self.cards[3].rank));
                k.push(rank_value_exec(self.cards[2].rank));
                k.push(rank_value_exec(self.cards[1].rank));
                k.push(rank_value_exec(self.cards[0].rank));
            },
            HandType::Straight(hr) => {
                k.push(2);
                k.push(rank_value_exec(hr));
                k.push(0);
                k.push(0);
                k.push(0);
                k.push(0);
            },
            HandType::OnePair(pr) => {
                k.push(1);
                k.push(rank_value_exec(pr));
                let ks = filter_non_pair(&self.cards, pr);
                let n: usize = ks.len();
                if n > 0 {
                    k.push(rank_value_exec(ks[n - 1].rank));
                } else {
                    k.push(0);
                }
                if n > 1 {
                    k.push(rank_value_exec(ks[n - 2].rank));
                } else {
                    k.push(0);
                }
                if n > 2 {
                    k.push(rank_value_exec(ks[n - 3].rank));
                } else {
                    k.push(0);
                }
                k.push(0);
            },
            HandType::HighCard => {
                k.push(0);
                k.push(rank_value_exec(self.cards[4].rank));
                k.push(rank_value_exec(self.cards[3].rank));
                k.push(rank_value_exec(self.cards[2].rank));
                k.push(rank_value_exec(self.cards[1].rank));
                k.push(rank_value_exec(self.cards[0].rank));
            },
        }
        proof {
            assert(k@ =~= self.key());
        }
        k
    }

    /// Compares two hands: the stronger category wins outright; within one
    /// category the tie-break weights decide, the first difference settling
    /// it; hands with equal keys are exactly tied.
    pub fn cmp(&self, other: &Hand) -> (r: Ordering)
        requires
            self.wf(),
            other.wf(),
        ensures
            r == spec_hand_cmp(*self, *other),
    {
        let ka = self.build_key();
        let kb = other.build_key();
        lex_compare(&ka, &kb)
    }
}

/// Every comparison key spans exactly six weights, and the first is the
/// category's strength.
pub proof fn lemma_key_len(h: Hand)
    ensures
        h.key().len() == 6,
        h.key()[0] == h.hand_type.spec_strength(),
{
}

/// Law: when two hands fall in different categories, the hand of the
/// stronger category wins outright, whatever the cards.
pub proof fn lemma_compare_category_first(a: Hand, b: Hand)
    ensures
        a.hand_type.spec_strength() > b.hand_type.spec_strength() ==> spec_hand_cmp(a, b)
            == Ordering::Greater,
        a.hand_type.spec_strength() < b.hand_type.spec_strength() ==> spec_hand_cmp(a, b)
            == Ordering::Less,
{
    lemma_key_len(a);
    lemma_key_len(b);
    if a.hand_type.spec_strength() != b.hand_type.spec_strength() {
        lemma_lex_cmp_first_diff(a.key(), b.key(), 0);
    }
}

/// Law: two straights compare by their effective high ranks alone — the
/// wheel (high rank 5) below every other straight, an Ace-high straight
/// above all — and equal high ranks tie exactly.
pub proof fn lemma_compare_straights(a: Hand, b: Hand, ha: u8, hb: u8)
    requires
        a.hand_type == HandType::Straight(ha),
        b.hand_type == HandType::Straight(hb),
    ensures
        spec_hand_cmp(a, b) == (if rank_value(ha) < rank_value(hb) {
            Ordering::Less
        } else if rank_value(ha) > rank_value(hb) {
            Ordering::Greater
        } else {
            Ordering::Equal
        }),
{
    lemma_key_len(a);
    lemma_key_len(b);
    if rank_value(ha) != rank_value(hb) {
        lemma_lex_cmp_first_diff(a.key(), b.key(), 1);
    } else {
        assert(a.key() =~= b.key());
        lemma_lex_cmp_refl(a.key());
    }
}

/// Law: two hands of one card-by-card category — both flushes or both high
/// cards — compare by their sorted cards pairwise from the highest position
/// down, and the first position `p` whose rank weights differ decides.
pub proof fn lemma_compare_card_by_card(a: Hand, b: Hand, p: int)
    requires
        a.hand_type.spec_strength() == b.hand_type.spec_strength(),
        a.hand_type is Flush || a.hand_type is HighCard,
        0 <= p < 5,
        forall|q: int| p < q < 5 ==> rank_value(a.cards@[q].rank) == rank_value(b.cards@[q].rank),
        rank_value(a.cards@[p].rank) != rank_value(b.cards@[p].rank),
    ensures
        spec_hand_cmp(a, b) == (if rank_value(a.cards@[p].rank) < rank_value(b.cards@[p].rank) {
            Ordering::Less
        } else {
            Ordering::Greater
        }),
{
    lemma_key_len(a);
    lemma_key_len(b);
    assert forall|j: int| 0 <= j < 5 - p implies a.key()[j] == b.key()[j] by {
        if j > 0 {
            assert(rank_value(a.cards@[5 - j].rank) == rank_value(b.cards@[5 - j].rank));
        }
    }
    lemma_lex_cmp_first_diff(a.key(), b.key(), 5 - p);
}

/// Law: two hands of one card-by-card category whose sorted cards carry
/// pairwise equal rank weights are exactly tied, whatever the suits.
pub proof fn lemma_compare_card_by_card_tie(a: Hand, b: Hand)
    requires
        a.hand_type.spec_strength() == b.hand_type.spec_strength(),
        a.hand_type is Flush || a.hand_type is HighCard,
        forall|q: int| 0 <= q < 5 ==> rank_value(a.cards@[q].rank) == rank_value(b.cards@[q].rank),
    ensures
        spec_hand_cmp(a, b) == Ordering::Equal,
{
    lemma_key_len(a);
    lemma_key_len(b);
    assert(a.key() =~= b.key());
    lemma_lex_cmp_refl(a.key());
}

/// Law: between two one-pair hands with different pair ranks, the higher
/// pair rank (the Ace highest) wins, whatever the kickers.
pub proof fn lemma_compare_pairs_by_pair_rank(a: Hand, b: Hand, pa: u8, pb: u8)
    requires
        a.hand_type == HandType::OnePair(pa),
        b.hand_type == HandType::OnePair(pb),
        rank_value(pa) != rank_value(pb),
    ensures
        spec_hand_cmp(a, b) == (if rank_value(pa) < rank_value(pb) {
            Ordering::Less
        } else {
            Ordering::Greater
        }),
{
    lemma_key_len(a);
    lemma_key_len(b);
    lemma_lex_cmp_first_diff(a.key(), b.key(), 1);
}

/// Law: between two one-pair hands whose pair ranks weigh the same, the
/// kicker weights decide, compared from the strongest kicker down; the first
/// kicker position `m` whose weights differ settles the comparison.
pub proof fn lemma_compare_pairs_by_kickers(a: Hand, b: Hand, pa: u8, pb: u8, m: int)
    requires
        a.hand_type == HandType::OnePair(pa),
        b.hand_type == HandType::OnePair(pb),
        rank_value(pa) == rank_value(pb),
        0 <= m < 3,
        forall|q: int|
            0 <= q < m ==> spec_kick(spec_non_pair(a.cards@, pa), q) == spec_kick(
                spec_non_pair(b.cards@, pb),
                q,
            ),
        spec_kick(spec_non_pair(a.cards@, pa), m) != spec_kick(spec_non_pair(b.cards@, pb), m),
    ensures
        spec_hand_cmp(a, b) == (if spec_kick(spec_non_pair(a.cards@, pa), m) < spec_kick(
            spec_non_pair(b.cards@, pb),
            m,
        ) {
            Ordering::Less
        } else {
            Ordering::Greater
        }),
{
    lemma_key_len(a);
    lemma_key_len(b);
    assert forall|j: int| 0 <= j < m + 2 implies a.key()[j] == b.key()[j] by {
        if j >= 2 {
            assert(spec_kick(spec_non_pair(a.cards@, pa), j - 2) == spec_kick(
                spec_non_pair(b.cards@, pb),
                j - 2,
            ));
        }
    }
    lemma_lex_cmp_first_diff(a.key(), b.key(), m + 2);
}

/// Law: two one-pair hands whose pair ranks and kicker weights all agree are
/// exactly tied, whatever the suits.
pub proof fn lemma_compare_pairs_tie(a: Hand, b: Hand, pa: u8, pb: u8)
    requires
        a.hand_type == HandType::OnePair(pa),
        b.hand_type == HandType::OnePair(pb),
        rank_value(pa) == rank_value(pb),
        forall|q: int|
            0 <= q < 3 ==> spec_kick(spec_non_pair(a.cards@, pa), q) == spec_kick(
                spec_non_pair(b.cards@, pb),
                q,
            ),
    ensures
        spec_hand_cmp(a, b) == Ordering::Equal,
{
    lemma_key_len(a);
    lemma_key_len(b);
    assert(a.key() =~= b.key());
    lemma_lex_cmp_refl(a.key());
}

/// Law: every hand is exactly tied with itself.
pub proof fn lemma_compare_reflexive(h: Hand)
    ensures
        spec_hand_cmp(h, h) == Ordering::Equal,
{
    lemma_lex_cmp_refl(h.key());
}

/// Law: swapping the two hands reverses the comparison — `Less` one way is
/// `Greater` the other, and a tie is a tie both ways.
pub proof fn lemma_compare_antisymmetric(a: Hand, b: Hand)
    ensures
        (spec_hand_cmp(a, b) == Ordering::Less) <==> (spec_hand_cmp(b, a) == Ordering::Greater),
        (spec_hand_cmp(a, b) == Ordering::Equal) <==> (spec_hand_cmp(b, a) == Ordering::Equal),
{
    lemma_key_len(a);
    lemma_key_len(b);
    lemma_lex_cmp_antisym(a.key(), b.key());
}

/// Law: the comparison is transitive in its strict form.
pub proof fn lemma_compare_transitive(a: Hand, b: Hand, c: Hand)
    requires
        spec_hand_cmp(a, b) == Ordering::Less,
        spec_hand_cmp(b, c) == Ordering::Less,
    ensures
        spec_hand_cmp(a, c) == Ordering::Less,
{
    lemma_key_len(a);
    lemma_key_len(b);
    lemma_key_len(c);
    lemma_lex_cmp_trans(a.key(), b.key(), c.key());
}

/// Law: hands that are exactly tied compare alike against every third hand.
pub proof fn lemma_compare_equal_consistent(a: Hand, b: Hand, c: Hand)
    requires
        spec_hand_cmp(a, b) == Ordering::Equal,
    ensures
        spec_hand_cmp(a, c) == spec_hand_cmp(b, c),
{
    lemma_key_len(a);
    lemma_key_len(b);
    lemma_lex_cmp_equal_is_eq(a.key(), b.key());
}

/// Law: any two hands that both weakly dominate one collection of hands they
/// belong to are exactly tied — so the maximum of a best-hand search does not
/// depend on the order the candidates are walked in.
pub proof fn lemma_max_hand_unique(hs: Seq<Hand>, m1: Hand, m2: Hand)
    requires
        hs.contains(m1),
        hs.contains(m2),
        forall|i: int| 0 <= i < hs.len() ==> spec_hand_cmp(m1, #[trigger] hs[i]) != Ordering::Less,
        forall|i: int| 0 <= i < hs.len() ==> spec_hand_cmp(m2, #[trigger] hs[i]) != Ordering::Less,
    ensures
        spec_hand_cmp(m1, m2) == Ordering::Equal,
{
    let i2 = choose|i: int| 0 <= i < hs.len() && hs[i] == m2;
    assert(spec_hand_cmp(m1, m2) != Ordering::Less);
    let i1 = choose|i: int| 0 <= i < hs.len() && hs[i] == m1;
    assert(spec_hand_cmp(m2, m1) != Ordering::Less);
    lemma_compare_antisymmetric(m1, m2);
}

/// The five cards of a seven-card pool other than those at positions `i`
/// and `j`, in pool order.
pub open spec fn spec_drop2(pool: Seq<Card>, i: int, j: int) -> Seq<Card> {
    pool.subrange(0, i) + pool.subrange(i + 1, j) + pool.subrange(j + 1, pool.len() as int)
}

/// Some two positions of the pool hold the same (rank, suit) card.
pub open spec fn spec_has_duplicate(pool: Seq<Card>) -> bool {
    exists|i: int, j: int|
        0 <= i < j < pool.len() && cards_identical(#[trigger] pool[i], #[trigger] pool[j])
}

/// How many position pairs (a, b) with a < b < 7 have a < i.
pub open spec fn spec_pairs_before(i: int) -> int
    decreases i,
{
    if i <= 0 {
        0
    } else {
        spec_pairs_before(i - 1) + (7 - i)
    }
}

/// The position, in the enumeration order of the best-hand search, of the
/// hand that drops the pool positions `a` and `b` (with a < b < 7).
pub open spec fn spec_pair_pos(a: int, b: int) -> int {
    spec_pairs_before(a) + (b - a - 1)
}

impl Hand {
    /// Enumerates every five-card hand that can be made from two private
    /// cards and five shared cards: one hand for each of the 21 five-card
    /// subsets of the seven-card pool. The seven cards must be pairwise
    /// distinct (rank, suit) identities, else `MalformedHandInput`; callers
    /// pick the best hand with the comparator and must not rely on the order
    /// of the 21 hands.
    #[verifier::rlimit(100)]
    pub fn get_all_hands(hole: [Card; 2], community: [Card; 5]) -> (r: Result<
        Vec<Hand>,
        PokerError,
    >)
        requires
            all_ranks_valid(hole@),
            all_ranks_valid(community@),
        ensures
            spec_has_duplicate(hole@ + community@) ==> r == Err::<Vec<Hand>, PokerError>(
                PokerError::MalformedHandInput,
            ),
            !spec_has_duplicate(hole@ + community@) ==> (r matches Ok(hs) && {
                &&& hs@.len() == 21
                &&& forall|k: int| 0 <= k < hs@.len() ==> (#[trigger] hs@[k]).wf()
                &&& forall|a: int, b: int|
                    #![trigger spec_drop2(hole@ + community@, a, b)]
                    0 <= a < b < 7 ==> 0 <= spec_pair_pos(a, b) < 21 && hs@[spec_pair_pos(
                        a,
                        b,
                    )].cards@.to_multiset() == spec_drop2(hole@ + community@, a, b).to_multiset()
            }),
    {
        let mut pool: Vec<Card> = Vec::new();
        pool.push(hole[0]);
        pool.push(hole[1]);
        pool.push(community[0]);
        pool.push(community[1]);
        pool.push(community[2]);
        pool.push(community[3]);
        pool.push(community[4]);
        proof {
            assert(pool@ =~= hole@ + community@);
        }
        // Reject a pool with a repeated (rank, suit) identity.
        let mut i: usize = 0;
        while i < 7
            invariant
                i <= 7,
                pool@.len() == 7,
                pool@ == hole@ + community@,
                forall|a: int, b: int|
                    0 <= a < b < 7 && a < i ==> !cards_identical(
                        #[trigger] pool@[a],
                        #[trigger] pool@[b],
                    ),
            decreases 7 - i,
        {
            let mut j: usize = i + 1;
            while j < 7
                invariant
                    i < 7,
                    i + 1 <= j <= 7,
                    pool@.len() == 7,
                    pool@ == hole@ + community@,
                    forall|b: int|
                        i < b < j ==> !cards_identical(pool@[i as int], #[trigger] pool@[b]),
                decreases 7 - j,
            {
                if pool[i].rank == pool[j].rank && pool[i].suit == pool[j].suit {
                    proof {
                        assert(cards_identical(
                            (hole@ + community@)[i as int],
                            (hole@ + community@)[j as int],
                        ));
                    }
                    return Err(PokerError::MalformedHandInput);
                }
                j += 1;
            }
            i += 1;
        }
        proof {
            assert(!spec_has_duplicate(pool@));
        }
        // Walk the 21 pairs of dropped positions in order.
        let mut out: Vec<Hand> = Vec::new();
        let mut i: usize = 0;
        while i < 7
            invariant
                i <= 7,
                pool@.len() == 7,
                pool@ == hole@ + community@,
                all_ranks_valid(pool@),
                out@.len() == spec_pairs_before(i as int),
                forall|k: int| 0 <= k < out@.len() ==> (#[trigger] out@[k]).wf(),
                forall|a: int, b: int|
                    #![trigger spec_pair_pos(a, b)]
                    0 <= a < b < 7 && a < i ==> 0 <= spec_pair_pos(a, b) < out@.len()
                        && out@[spec_pair_pos(a, b)].cards@.to_multiset() == spec_drop2(
                        pool@,
                        a,
                        b,
                    ).to_multiset(),
            decreases 7 - i,
        {
            let mut j: usize = i + 1;
            while j < 7
                invariant
                    i < 7,
                    i + 1 <= j <= 7,
                    pool@.len() == 7,
                    pool@ == hole@ + community@,
                    all_ranks_valid(pool@),
                    out@.len() == spec_pairs_before(i as int) + (j - i - 1),
                    forall|k: int| 0 <= k < out@.len() ==> (#[trigger] out@[k]).wf(),
                    forall|a: int, b: int|
                        #![trigger spec_pair_pos(a, b)]
                        0 <= a < b < 7 && (a < i || (a == i && b < j)) ==> 0 <= spec_pair_pos(a, b)
                            < out@.len() && out@[spec_pair_pos(a, b)].cards@.to_multiset()
                            == spec_drop2(pool@, a, b).to_multiset(),
                decreases 7 - j,
            {
                let h = subset_hand(&pool, i, j);
                let ghost out_before = out@;
                out.push(h);
                proof {
                    assert(spec_pair_pos(i as int, j as int) == out_before.len());
                    assert(out@[spec_pair_pos(i as int, j as int)].cards@.to_multiset()
                        == spec_drop2(pool@, i as int, j as int).to_multiset());
                    assert(forall|k: int| 0 <= k < out_before.len() ==> out@[k] == out_before[k]);
                    assert forall|a: int, b: int|
                        #![trigger spec_pair_pos(a, b)]
                        0 <= a < b < 7 && (a < i || (a == i && b < j + 1)) implies 0
                        <= spec_pair_pos(a, b) < out@.len() && out@[spec_pair_pos(
                        a,
                        b,
                    )].cards@.to_multiset() == spec_drop2(pool@, a, b).to_multiset() by {
                        if !(a == i as int && b == j as int) {
                            assert(0 <= spec_pair_pos(a, b) < out_before.len());
                            assert(out@[spec_pair_pos(a, b)] == out_before[spec_pair_pos(a, b)]);
                        }
                    }
                }
                j += 1;
            }
            proof {
                assert forall|a: int, b: int|
                    #![trigger spec_pair_pos(a, b)]
                    0 <= a < b < 7 && a < i + 1 implies 0 <= spec_pair_pos(a, b) < out@.len()
                    && out@[spec_pair_pos(a, b)].cards@.to_multiset() == spec_drop2(
                    pool@,
                    a,
                    b,
                ).to_multiset() by {}
            }
            i += 1;
        }
        proof {
            assert(spec_pairs_before(7) == 21) by {
                assert(spec_pairs_before(0) == 0);
                assert(spec_pairs_before(1) == 6);
                assert(spec_pairs_before(2) == 11);
                assert(spec_pairs_before(3) == 15);
                assert(spec_pairs_before(4) == 18);
                assert(spec_pairs_before(5) == 20);
                assert(spec_pairs_before(6) == 21);
                assert(spec_pairs_before(7) == 21);
            }
        }
        Ok(out)
    }
}

/// Builds the hand that keeps every pool card except those at positions
/// `i` and `j`.
fn subset_hand(pool: &Vec<Card>, i: usize, j: usize) -> (h: Hand)
    requires
        pool@.len() == 7,
        i < j < 7,
        all_ranks_valid(pool@),
    ensures
        h.wf(),
        h.cards@.to_multiset() == spec_drop2(pool@, i as int, j as int).to_multiset(),
{
    let mut cand: Vec<Card> = Vec::new();
    let mut t: usize = 0;
    while t < i
        invariant
            t <= i,
            i < j < 7,
            pool@.len() == 7,
            cand@ == pool@.subrange(0, t as int),
        decreases i - t,
    {
        cand.push(pool[t]);
        proof {
            assert(pool@.subrange(0, t as int + 1) =~= pool@.subrange(0, t as int).push(
                pool@[t as int],
            ));
        }
        t += 1;
    }
    t = i + 1;
    while t < j
        invariant
            i + 1 <= t <= j,
            i < j < 7,
            pool@.len() == 7,
            cand@ == pool@.subrange(0, i as int) + pool@.subrange(i as int + 1, t as int),
        decreases j - t,
    {
        cand.push(pool[t]);
        proof {
            assert((pool@.subrange(0, i as int) + pool@.subrange(i as int + 1, t as int)).push(
                pool@[t as int],
            ) =~= pool@.subrange(0, i as int) + pool@.subrange(i as int + 1, t as int + 1));
        }
        t += 1;
    }
    t = j + 1;
    while t < 7
        invariant
            j + 1 <= t <= 7,
            i < j < 7,
            pool@.len() == 7,
            cand@ == pool@.subrange(0, i as int) + pool@.subrange(i as int + 1, j as int)
                + pool@.subrange(j as int + 1, t as int),
        decreases 7 - t,
    {
        cand.push(pool[t]);
        proof {
            assert((pool@.subrange(0, i as int) + pool@.subrange(i as int + 1, j as int)
                + pool@.subrange(j as int + 1, t as int)).push(pool@[t as int]) =~= pool@.subrange(
                0,
                i as int,
            ) + pool@.subrange(i as int + 1, j as int) + pool@.subrange(
                j as int + 1,
                t as int + 1,
            ));
        }
        t += 1;
    }
    proof {
        assert(cand@ == spec_drop2(pool@, i as int, j as int));
        assert(cand@.len() == 5);
        assert forall|k: int| 0 <= k < cand@.len() implies valid_rank(
            (#[trigger] cand@[k]).rank,
        ) by {
            if k < i {
                assert(cand@[k] == pool@[k]);
            } else if k < j - 1 {
                assert(cand@[k] == pool@[k + 1]);
            } else {
                assert(cand@[k] == pool@[k + 2]);
            }
        }
    }
    let arr: [Card; 5] = [cand[0], cand[1], cand[2], cand[3], cand[4]];
    proof {
        assert(arr@ =~= cand@);
    }
    Hand::new(arr)
}

/// Sorts cards ascending by rank weight (Ace high), by repeatedly moving a
/// least remaining card to the output.
fn sort_cards(input: Vec<Card>) -> (out: Vec<Card>)
    ensures
        out@.len() == input@.len(),
        out@.to_multiset() == input@.to_multiset(),
        sorted_by_rank(out@),
{
    broadcast use vstd::seq_lib::group_to_multiset_ensures;

    let mut rest = input;
    let ghost orig = rest@;
    let mut out: Vec<Card> = Vec::new();
    while rest.len() > 0
        invariant
            out@.to_multiset().add(rest@.to_multiset()) == orig.to_multiset(),
            out@.len() + rest@.len() == orig.len(),
            sorted_by_rank(out@),
            forall|a: int, b: int|
                0 <= a < out@.len() && 0 <= b < rest@.len() ==> rank_value(
                    (#[trigger] out@[a]).rank,
                ) <= rank_value((#[trigger] rest@[b]).rank),
        decreases rest@.len(),
    {
        let mut m: usize = 0;
        let mut k: usize = 1;
        while k < rest.len()
            invariant
                m < k <= rest@.len(),
                forall|t: int|
                    0 <= t < k ==> rank_value(rest@[m as int].rank) <= rank_value(
                        (#[trigger] rest@[t]).rank,
                    ),
            decreases rest@.len() - k,
        {
            if rank_value_exec(rest[k].rank) < rank_value_exec(rest[m].rank) {
                m = k;
            }
            k += 1;
        }
        let ghost rest_before = rest@;
        let ghost out_before = out@;
        let c = rest.remove(m);
        out.push(c);
        proof {
            broadcast use vstd::seq_lib::group_to_multiset_ensures;

            assert(rest@ == rest_before.remove(m as int));
            assert(rest@.to_multiset() == rest_before.to_multiset().remove(c));
            assert(out@.to_multiset() == out_before.to_multiset().insert(c));
            assert(rest_before.to_multiset().count(c) > 0) by {
                assert(rest_before.contains(c));
            }
            assert(out@.to_multiset().add(rest@.to_multiset()) =~= orig.to_multiset());
            assert forall|a: int, b: int|
                0 <= a < out@.len() && 0 <= b < rest@.len() implies rank_value(
                (#[trigger] out@[a]).rank,
            ) <= rank_value((#[trigger] rest@[b]).rank) by {
                if b < m {
                    assert(rest@[b] == rest_before[b]);
                } else {
                    assert(rest@[b] == rest_before[b + 1]);
                }
                if a < out@.len() - 1 {
                    assert(out@[a] == out_before[a]);
                } else {
                    assert(out@[a] == c);
                }
            }
        }
    }
    out
}

} // verus!
