//! Hand classification: turning a submitted list of played cards into a
//! typed hand, or rejecting it.
//!
//! The rules by cardinality: zero cards is a pass; one card a single; two or
//! three cards must share one rank (pair, prial); exactly five cards form a
//! trick when they fit one of the six trick shapes; every other cardinality
//! is rejected. The five cards of a trick are returned sorted ascending by a
//! fixed canonical order (straight-chain rank, then suit, then joker flag),
//! so the classification of a five-card submission never depends on the order
//! the cards were submitted in.

use crate::cards::{chain_num, spec_previous_rank, suit_num, PlayedCard, Rank, Suit};
use vstd::prelude::*;
use vstd::relations::{sorted_by, total_ordering};
use vstd::seq_lib::lemma_sorted_unique;

verus! {

broadcast use {vstd::array::group_array_axioms, vstd::seq_lib::group_to_multiset_ensures};

/// The six shapes of a five-card trick, weakest first. A trick of a stronger
/// shape beats any trick of a weaker shape, whatever its cards.
#[derive(Clone, Copy, Debug, PartialEq, Eq, Structural)]
pub enum TrickType {
    /// five ranks in a row along the fixed chain
    Straight,
    /// five cards of one suit; their ranks need not be distinct (with
    /// several decks shuffled together, repeated ranks can share a suit)
    Flush,
    /// three of one rank over two of another
    FullHouse,
    /// four of one rank plus one other card
    FourOfAKind,
    /// a straight whose cards share one suit
    StraightFlush,
    /// five cards of one rank
    FiveOfAKind,
}

/// A classified five-card trick: its shape and its cards, sorted ascending by
/// the canonical order.
#[derive(Clone, Copy, Debug, PartialEq)]
pub struct Trick {
    pub trick_type: TrickType,
    pub cards: [PlayedCard; 5],
}

/// A classified hand: the shape a submitted set of cards was accepted as.
#[derive(Clone, Copy, Debug, PartialEq)]
pub enum Hand {
    /// no cards
    Pass,
    /// one card
    Single(PlayedCard),
    /// two cards of one rank
    Pair(PlayedCard, PlayedCard),
    /// three cards of one rank
    Prial(PlayedCard, PlayedCard, PlayedCard),
    /// five cards forming a trick
    FiveCardTrick(Trick),
}

/// Order the joker flag: a plain card sorts before the joker standing in for
/// the same rank and suit.
pub open spec fn joker_num(j: bool) -> int {
    if j {
        1
    } else {
        0
    }
}

/// The canonical (context-independent) order on played cards used to sort the
/// cards inside a classified trick: straight-chain rank, then suit, then
/// joker flag. It is a total order, so every multiset of cards has exactly
/// one sorted arrangement.
pub open spec fn canon_le(a: PlayedCard, b: PlayedCard) -> bool {
    if chain_num(a.rank) != chain_num(b.rank) {
        chain_num(a.rank) < chain_num(b.rank)
    } else if suit_num(a.suit) != suit_num(b.suit) {
        suit_num(a.suit) < suit_num(b.suit)
    } else {
        joker_num(a.joker) <= joker_num(b.joker)
    }
}

/// `canon_le` as a first-class function, for `sort_by` and `sorted_by`.
pub open spec fn canon_leq_fn() -> spec_fn(PlayedCard, PlayedCard) -> bool {
    |a: PlayedCard, b: PlayedCard| canon_le(a, b)
}

/// Ranks with equal chain numbers are equal.
pub proof fn lemma_chain_num_injective(a: Rank, b: Rank)
    ensures
        chain_num(a) == chain_num(b) ==> a == b,
{
}

/// Suits with equal suit numbers are equal.
pub proof fn lemma_suit_num_injective(a: Suit, b: Suit)
    ensures
        suit_num(a) == suit_num(b) ==> a == b,
{
}

/// The canonical order is a total order.
pub proof fn lemma_canon_le_total()
    ensures
        total_ordering(canon_leq_fn()),
{
    let leq = canon_leq_fn();
    assert forall|a: PlayedCard, b: PlayedCard| #[trigger] leq(a, b) && #[trigger] leq(b, a) implies a
        == b by {
        lemma_chain_num_injective(a.rank, b.rank);
        lemma_suit_num_injective(a.suit, b.suit);
    }
    assert forall|a: PlayedCard| #[trigger] leq(a, a) by {}
    assert forall|a: PlayedCard, b: PlayedCard| !(#[trigger] leq(a, b)) implies #[trigger] leq(b, a) by {}
}

/// The cards sorted ascending by the canonical order.
pub open spec fn sort_cards_spec(s: Seq<PlayedCard>) -> Seq<PlayedCard> {
    s.sort_by(canon_leq_fn())
}

/// All cards share one rank.
pub open spec fn all_same_rank(s: Seq<PlayedCard>) -> bool {
    forall|i: int| 0 <= i < s.len() ==> #[trigger] s[i].rank == s[0].rank
}

/// Exactly two distinct ranks occur. (Stated for a canonically sorted
/// sequence, where the first and last cards carry the two extreme ranks.)
pub open spec fn two_ranks(s: Seq<PlayedCard>) -> bool {
    &&& s.len() > 0
    &&& s[0].rank != s[s.len() - 1].rank
    &&& forall|i: int|
        0 <= i < s.len() ==> #[trigger] s[i].rank == s[0].rank || s[i].rank == s[s.len() - 1].rank
}

/// How many cards carry rank `r`.
pub open spec fn count_rank(s: Seq<PlayedCard>, r: Rank) -> int
    decreases s.len(),
{
    if s.len() == 0 {
        0
    } else {
        count_rank(s.drop_last(), r) + if s.last().rank == r {
            1int
        } else {
            0int
        }
    }
}

/// Each card's rank is the fixed-chain successor of the previous card's rank.
/// The chain is not cyclic, so no wraparound straight exists.
pub open spec fn is_straight_spec(s: Seq<PlayedCard>) -> bool {
    forall|i: int| 1 <= i < s.len() ==> spec_previous_rank(#[trigger] s[i].rank) == Some(
        s[i - 1].rank,
    )
}

/// All cards share one suit.
pub open spec fn is_flush_spec(s: Seq<PlayedCard>) -> bool {
    forall|i: int| 0 <= i < s.len() ==> #[trigger] s[i].suit == s[0].suit
}

/// A five-element array holding the first five cards of `s`.
pub open spec fn array_of_five(s: Seq<PlayedCard>) -> [PlayedCard; 5] {
    vstd::array::spec_array_update(
        vstd::array::spec_array_update(
            vstd::array::spec_array_update(
                vstd::array::spec_array_update(
                    vstd::array::spec_array_fill_for_copy_type::<PlayedCard, 5>(s[0]),
                    1,
                    s[1],
                ),
                2,
                s[2],
            ),
            3,
            s[3],
        ),
        4,
        s[4],
    )
}

pub proof fn lemma_array_of_five(s: Seq<PlayedCard>)
    requires
        s.len() == 5,
    ensures
        array_of_five(s)@ =~= s,
{
}

/// Classification of five canonically sorted cards.
pub open spec fn classify_five(s: Seq<PlayedCard>) -> Option<Hand> {
    let cards = array_of_five(s);
    if all_same_rank(s) {
        Some(Hand::FiveCardTrick(Trick { trick_type: TrickType::FiveOfAKind, cards }))
    } else if two_ranks(s) {
        if count_rank(s, s[0].rank) == 1 || count_rank(s, s[0].rank) == 4 {
            Some(Hand::FiveCardTrick(Trick { trick_type: TrickType::FourOfAKind, cards }))
        } else {
            Some(Hand::FiveCardTrick(Trick { trick_type: TrickType::FullHouse, cards }))
        }
    } else if is_straight_spec(s) && is_flush_spec(s) {
        Some(Hand::FiveCardTrick(Trick { trick_type: TrickType::StraightFlush, cards }))
    } else if is_straight_spec(s) {
        Some(Hand::FiveCardTrick(Trick { trick_type: TrickType::Straight, cards }))
    } else if is_flush_spec(s) {
        Some(Hand::FiveCardTrick(Trick { trick_type: TrickType::Flush, cards }))
    } else {
        None
    }
}

/// What `Hand::build` returns for a submitted list of cards.
pub open spec fn build_spec(cards: Seq<PlayedCard>) -> Option<Hand> {
    if cards.len() == 0 {
        Some(Hand::Pass)
    } else if cards.len() == 1 {
        Some(Hand::Single(cards[0]))
    } else if cards.len() == 2 {
        if cards[0].rank == cards[1].rank {
            Some(Hand::Pair(cards[0], cards[1]))
        } else {
            None
        }
    } else if cards.len() == 3 {
        if cards[0].rank == cards[1].rank && cards[1].rank == cards[2].rank {
            Some(Hand::Prial(cards[0], cards[1], cards[2]))
        } else {
            None
        }
    } else if cards.len() == 5 {
        classify_five(sort_cards_spec(cards))
    } else {
        None
    }
}

impl Hand {
    /// Classify a submitted list of played cards, or reject it.
    pub fn build(cards: Vec<PlayedCard>) -> (r: Option<Hand>)
        ensures
            r == build_spec(cards@),
    {
        if cards.len() == 0 {
            Some(Hand::Pass)
        } else if cards.len() == 1 {
            Some(Hand::Single(cards[0]))
        } else if cards.len() == 2 {
            if cards[0].rank == cards[1].rank {
                Some(Hand::Pair(cards[0], cards[1]))
            } else {
                None
            }
        } else if cards.len() == 3 {
            if cards[0].rank == cards[1].rank && cards[1].rank == cards[2].rank {
                Some(Hand::Prial(cards[0], cards[1], cards[2]))
            } else {
                None
            }
        } else if cards.len() == 5 {
            let sorted = sort_cards(&cards);
            Self::check_valid_fct(&sorted)
        } else {
            None
        }
    }

    /// Classification of five canonically sorted cards.
    fn check_valid_fct(sorted: &Vec<PlayedCard>) -> (r: Option<Hand>)
        requires
            sorted@.len() == 5,
        ensures
            r == classify_five(sorted@),
    {
        let cards: [PlayedCard; 5] = [sorted[0], sorted[1], sorted[2], sorted[3], sorted[4]];
        proof {
            lemma_array_of_five(sorted@);
            assert(cards =~= array_of_five(sorted@));
        }
        if ranks_all_equal(sorted) {
            return Some(Hand::FiveCardTrick(Trick { trick_type: TrickType::FiveOfAKind, cards }));
        }
        if ranks_exactly_two(sorted) {
            let low_count = count_of_rank(sorted, sorted[0].get_rank());
            if low_count == 1 || low_count == 4 {
                return Some(
                    Hand::FiveCardTrick(Trick { trick_type: TrickType::FourOfAKind, cards }),
                );
            } else {
                return Some(Hand::FiveCardTrick(Trick { trick_type: TrickType::FullHouse, cards }));
            }
        }
        let straight = is_straight(sorted);
        let flush = is_flush(sorted);
        if straight && flush {
            Some(Hand::FiveCardTrick(Trick { trick_type: TrickType::StraightFlush, cards }))
        } else if straight {
            Some(Hand::FiveCardTrick(Trick { trick_type: TrickType::Straight, cards }))
        } else if flush {
            Some(Hand::FiveCardTrick(Trick { trick_type: TrickType::Flush, cards }))
        } else {
            None
        }
    }
}

/// How many of the cards carry rank `r`.
fn count_of_rank(cards: &Vec<PlayedCard>, r: Rank) -> (n: usize)
    ensures
        n == count_rank(cards@, r),
        n <= cards@.len(),
{
    let mut n: usize = 0;
    let mut i: usize = 0;
    while i < cards.len()
        invariant
            i <= cards@.len(),
            n == count_rank(cards@.take(i as int), r),
            n <= i,
        decreases cards@.len() - i,
    {
        proof {
            assert(cards@.take(i + 1).drop_last() =~= cards@.take(i as int));
            assert(cards@.take(i + 1).last() == cards@[i as int]);
        }
        if cards[i].rank == r {
            n = n + 1;
        }
        i = i + 1;
    }
    proof {
        assert(cards@.take(cards@.len() as int) =~= cards@);
    }
    n
}

/// Whether the cards, in the order given, run along the fixed straight chain.
#[verifier::rlimit(30)]
pub fn is_straight(cards: &Vec<PlayedCard>) -> (r: bool)
    ensures
        r == is_straight_spec(cards@),
{
    if cards.len() == 0 {
        return true;
    }
    let mut i: usize = 1;
    while i < cards.len()
        invariant
            1 <= i <= cards@.len(),
            forall|j: int| 1 <= j < i ==> spec_previous_rank(#[trigger] cards@[j].rank) == Some(
                cards@[j - 1].rank,
            ),
        decreases cards@.len() - i,
    {
        let prev = cards[i].previous_rank();
        match prev {
            Some(p) => {
                if !(cards[i - 1].rank == p) {
                    return false;
                }
            },
            None => {
                return false;
            },
        }
        i = i + 1;
    }
    true
}

/// Whether all the cards share one suit.
pub fn is_flush(cards: &Vec<PlayedCard>) -> (r: bool)
    ensures
        r == is_flush_spec(cards@),
{
    if cards.len() == 0 {
        return true;
    }
    let mut i: usize = 0;
    while i < cards.len()
        invariant
            i <= cards@.len(),
            cards@.len() > 0,
            forall|j: int| 0 <= j < i ==> #[trigger] cards@[j].suit == cards@[0].suit,
        decreases cards@.len() - i,
    {
        if !(cards[i].suit == cards[0].suit) {
            return false;
        }
        i = i + 1;
    }
    true
}

/// Sort the cards ascending by the canonical order.
#[verifier::rlimit(50)]
pub fn sort_cards(cards: &Vec<PlayedCard>) -> (r: Vec<PlayedCard>)
    ensures
        r@ == sort_cards_spec(cards@),
        r@.len() == cards@.len(),
{
    let mut out: Vec<PlayedCard> = Vec::new();
    let mut i: usize = 0;
    while i < cards.len()
        invariant
            i <= cards@.len(),
            sorted_by(out@, canon_leq_fn()),
            out@.to_multiset() == cards@.take(i as int).to_multiset(),
            out@.len() == i,
        decreases cards@.len() - i,
    {
        let c = cards[i];
        let mut j: usize = 0;
        while j < out.len() && canon_le_exec(out[j], c)
            invariant
                j <= out@.len(),
                forall|k: int| 0 <= k < j ==> canon_leq_fn()(#[trigger] out@[k], c),
            decreases out@.len() - j,
        {
            j = j + 1;
        }
        proof {
            lemma_canon_le_total();
            let leq = canon_leq_fn();
            assert(cards@.take(i + 1) =~= cards@.take(i as int).push(cards@[i as int]));
            if j < out@.len() {
                assert(!leq(out@[j as int], c));
                assert(leq(c, out@[j as int]));
                assert forall|k: int| j <= k < out@.len() implies leq(
                    c,
                    #[trigger] out@[k],
                ) by {
                    if k > j {
                        assert(leq(out@[j as int], out@[k]));
                    }
                }
            }
            assert(sorted_by(out@.insert(j as int, c), leq)) by {
                let ins = out@.insert(j as int, c);
                assert forall|p: int, q: int| 0 <= p < q < ins.len() implies leq(
                    ins[p],
                    ins[q],
                ) by {
                    if p < j && q < j {
                    } else if p < j && q == j {
                    } else if p == j {
                        if q > j {
                            assert(ins[q] == out@[q - 1]);
                        }
                    } else {
                    }
                }
            }
        }
        out.insert(j, c);
        i = i + 1;
    }
    proof {
        assert(cards@.take(cards@.len() as int) =~= cards@);
        lemma_canon_le_total();
        cards@.lemma_sort_by_ensures(canon_leq_fn());
        lemma_sorted_unique(out@, sort_cards_spec(cards@), canon_leq_fn());
    }
    out
}

/// Whether `a` sorts at or below `b` in the canonical order.
fn canon_le_exec(a: PlayedCard, b: PlayedCard) -> (r: bool)
    ensures
        r == canon_le(a, b),
{
    let ca = chain_num_of(a.rank);
    let cb = chain_num_of(b.rank);
    if ca != cb {
        ca < cb
    } else {
        let sa = suit_num_of(a.suit);
        let sb = suit_num_of(b.suit);
        if sa != sb {
            sa < sb
        } else {
            !a.joker || b.joker
        }
    }
}

/// Whether all the cards share one rank.
fn ranks_all_equal(cards: &Vec<PlayedCard>) -> (r: bool)
    ensures
        r == all_same_rank(cards@),
{
    let mut i: usize = 0;
    while i < cards.len()
        invariant
            i <= cards@.len(),
            forall|j: int| 0 <= j < i ==> #[trigger] cards@[j].rank == cards@[0].rank,
        decreases cards@.len() - i,
    {
        if !(cards[i].rank == cards[0].rank) {
            return false;
        }
        i = i + 1;
    }
    true
}

/// Whether exactly two distinct ranks occur: the first and last cards differ
/// in rank and every card carries one of those two ranks.
fn ranks_exactly_two(cards: &Vec<PlayedCard>) -> (r: bool)
    requires
        cards@.len() > 0,
    ensures
        r == two_ranks(cards@),
{
    let last = cards.len() - 1;
    if cards[0].rank == cards[last].rank {
        return false;
    }
    let mut i: usize = 0;
    while i < cards.len()
        invariant
            i <= cards@.len(),
            cards@.len() > 0,
            cards@[0].rank != cards@[cards@.len() - 1].rank,
            last == cards@.len() - 1,
            forall|j: int|
                0 <= j < i ==> #[trigger] cards@[j].rank == cards@[0].rank || cards@[j].rank
                    == cards@[cards@.len() - 1].rank,
        decreases cards@.len() - i,
    {
        if !(cards[i].rank == cards[0].rank) && !(cards[i].rank == cards[last].rank) {
            return false;
        }
        i = i + 1;
    }
    true
}

/// Exec mirror of `chain_num`.
fn chain_num_of(r: Rank) -> (n: u8)
    ensures
        n as int == chain_num(r),
{
    match r {
        Rank::Three => 0,
        Rank::Four => 1,
        Rank::Five => 2,
        Rank::Six => 3,
        Rank::Seven => 4,
        Rank::Eight => 5,
        Rank::Nine => 6,
        Rank::Ten => 7,
        Rank::Jack => 8,
        Rank::Queen => 9,
        Rank::King => 10,
        Rank::Ace => 11,
        Rank::Two => 12,
    }
}

/// Exec mirror of `suit_num`.
fn suit_num_of(s: Suit) -> (n: u8)
    ensures
        n as int == suit_num(s),
{
    match s {
        Suit::Clubs => 0,
        Suit::Hearts => 1,
        Suit::Diamonds => 2,
        Suit::Spades => 3,
    }
}

/// Whether two hands have the same shape (the same variant).
pub open spec fn same_shape(a: Hand, b: Hand) -> bool {
    match (a, b) {
        (Hand::Pass, Hand::Pass) => true,
        (Hand::Single(_), Hand::Single(_)) => true,
        (Hand::Pair(_, _), Hand::Pair(_, _)) => true,
        (Hand::Prial(_, _, _), Hand::Prial(_, _, _)) => true,
        (Hand::FiveCardTrick(_), Hand::FiveCardTrick(_)) => true,
        _ => false,
    }
}

/// Sharing one rank is a property of the multiset of cards, not of their
/// order.
proof fn lemma_all_same_rank_multiset(c1: Seq<PlayedCard>, c2: Seq<PlayedCard>)
    requires
        c1.to_multiset() == c2.to_multiset(),
        all_same_rank(c1),
        c1.len() > 0,
    ensures
        all_same_rank(c2),
{
    vstd::seq_lib::to_multiset_len(c1);
    vstd::seq_lib::to_multiset_len(c2);
    assert(c2.len() == c1.len());
    assert forall|i: int| 0 <= i < c2.len() implies #[trigger] c2[i].rank == c2[0].rank by {
        assert(c2.to_multiset().contains(c2[i]));
        assert(c1.contains(c2[i]));
        let j = choose|j: int| 0 <= j < c1.len() && c1[j] == c2[i];
        assert(c1[j].rank == c1[0].rank);
        assert(c2.to_multiset().contains(c2[0]));
        assert(c1.contains(c2[0]));
        let j0 = choose|j: int| 0 <= j < c1.len() && c1[j] == c2[0];
        assert(c1[j0].rank == c1[0].rank);
    }
}

/// Classification is order-insensitive: two submissions of one multiset of
/// cards are classified alike — both rejected, or both accepted with the same
/// shape; a single is identical, and a five-card trick is identical (its
/// cards come out sorted canonically, whatever order they went in).
pub proof fn lemma_build_order_insensitive(c1: Seq<PlayedCard>, c2: Seq<PlayedCard>)
    requires
        c1.to_multiset() == c2.to_multiset(),
    ensures
        build_spec(c1) is Some <==> build_spec(c2) is Some,
        build_spec(c1) matches Some(h1) ==> (build_spec(c2) matches Some(h2) && same_shape(
            h1,
            h2,
        )),
        build_spec(c1) matches Some(Hand::Single(a)) ==> (build_spec(c2) matches Some(
            Hand::Single(b),
        ) && a == b),
        build_spec(c1) matches Some(Hand::FiveCardTrick(t1)) ==> (build_spec(c2) matches Some(
            Hand::FiveCardTrick(t2),
        ) && t1 == t2),
{
    vstd::seq_lib::to_multiset_len(c1);
    vstd::seq_lib::to_multiset_len(c2);
    assert(c1.len() == c2.len());
    let n = c1.len();
    if n == 1 {
        assert(c2.to_multiset().contains(c2[0]));
        assert(c1.contains(c2[0]));
        assert(c1[0] == c2[0]);
    } else if n == 2 || n == 3 {
        if all_same_rank(c1) {
            lemma_all_same_rank_multiset(c1, c2);
        }
        if all_same_rank(c2) {
            lemma_all_same_rank_multiset(c2, c1);
        }
        assert(all_same_rank(c1) ==> (c1[0].rank == c1[1].rank && (n == 2 || c1[1].rank
            == c1[2].rank)));
        assert(all_same_rank(c2) ==> (c2[0].rank == c2[1].rank && (n == 2 || c2[1].rank
            == c2[2].rank)));
        if n == 2 && c1[0].rank == c1[1].rank {
            assert(all_same_rank(c1)) by {
                assert forall|i: int| 0 <= i < 2 implies #[trigger] c1[i].rank == c1[0].rank by {}
            }
        }
        if n == 2 && c2[0].rank == c2[1].rank {
            assert(all_same_rank(c2)) by {
                assert forall|i: int| 0 <= i < 2 implies #[trigger] c2[i].rank == c2[0].rank by {}
            }
        }
        if n == 3 && c1[0].rank == c1[1].rank && c1[1].rank == c1[2].rank {
            assert(all_same_rank(c1)) by {
                assert forall|i: int| 0 <= i < 3 implies #[trigger] c1[i].rank == c1[0].rank by {}
            }
        }
        if n == 3 && c2[0].rank == c2[1].rank && c2[1].rank == c2[2].rank {
            assert(all_same_rank(c2)) by {
                assert forall|i: int| 0 <= i < 3 implies #[trigger] c2[i].rank == c2[0].rank by {}
            }
        }
    } else if n == 5 {
        lemma_canon_le_total();
        c1.lemma_sort_by_ensures(canon_leq_fn());
        c2.lemma_sort_by_ensures(canon_leq_fn());
        lemma_sorted_unique(sort_cards_spec(c1), sort_cards_spec(c2), canon_leq_fn());
        assert(sort_cards_spec(c1) == sort_cards_spec(c2));
    }
}

} // verus!
