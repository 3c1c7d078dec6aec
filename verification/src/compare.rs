//! The hand comparator: whether a candidate hand beats the table's standing
//! hand under the active ordering context.
//!
//! Policy, documented here because the round delegates every "is this high
//! enough" decision to this one function:
//!
//! - A pass never beats anything, and any non-pass hand beats a pass.
//! - Hands of different shapes are never comparable: the candidate does not
//!   beat the reference. (The round itself never forbids submitting a
//!   different shape; such a submission simply loses the comparison.)
//! - Singles, pairs and prials compare by their contextually highest card.
//! - Five-card tricks compare by trick strength (Straight < Flush <
//!   FullHouse < FourOfAKind < StraightFlush < FiveOfAKind), ties broken by
//!   the contextually highest card.
//! - `FlushPrecedence::Suit` changes flush-against-flush comparison only:
//!   the flushes' suits are compared first (by suit precedence), and the
//!   highest card decides only between flushes of one suit. Under
//!   `FlushPrecedence::Rank` flushes compare by highest card like any other
//!   equal-strength tricks.
//!
//! The comparator is irreflexive: no hand beats itself
//! (`lemma_compare_hands_irreflexive`).

use crate::cards::{card_lt, suit_index, PlayedCard, Rank, Suit};
use crate::hands::{Hand, TrickType};
use vstd::prelude::*;

verus! {

broadcast use vstd::array::group_array_axioms;

/// Which precedence governs flush-against-flush comparison.
#[derive(Clone, Copy, Debug, PartialEq, Eq, Structural)]
pub enum FlushPrecedence {
    /// flushes compare by their contextually highest card
    Rank,
    /// flushes compare by their suit first, highest card second
    Suit,
}

/// Fixed relative strength of the six trick shapes, weakest first.
pub open spec fn trick_strength(t: TrickType) -> int {
    match t {
        TrickType::Straight => 0,
        TrickType::Flush => 1,
        TrickType::FullHouse => 2,
        TrickType::FourOfAKind => 3,
        TrickType::StraightFlush => 4,
        TrickType::FiveOfAKind => 5,
    }
}

/// The higher of two cards under the ordering context (the first on a tie).
pub open spec fn higher_card(
    a: PlayedCard,
    b: PlayedCard,
    suit_order: Seq<Suit>,
    rank_order: Seq<Rank>,
) -> PlayedCard {
    if card_lt(a, b, suit_order, rank_order) {
        b
    } else {
        a
    }
}

/// The contextually highest of a non-empty sequence of cards.
pub open spec fn max_card(
    s: Seq<PlayedCard>,
    suit_order: Seq<Suit>,
    rank_order: Seq<Rank>,
) -> PlayedCard
    decreases s.len(),
{
    if s.len() <= 1 {
        s[0]
    } else {
        higher_card(max_card(s.drop_last(), suit_order, rank_order), s.last(), suit_order, rank_order)
    }
}

/// Whether the candidate hand beats the reference hand. See the module
/// documentation for the policy.
pub open spec fn spec_compare_hands(
    reference: Hand,
    candidate: Hand,
    fp: FlushPrecedence,
    suit_order: Seq<Suit>,
    rank_order: Seq<Rank>,
) -> bool {
    match (reference, candidate) {
        (Hand::Pass, Hand::Pass) => false,
        (Hand::Pass, _) => true,
        (Hand::Single(a), Hand::Single(b)) => card_lt(a, b, suit_order, rank_order),
        (Hand::Pair(a1, a2), Hand::Pair(b1, b2)) => card_lt(
            higher_card(a1, a2, suit_order, rank_order),
            higher_card(b1, b2, suit_order, rank_order),
            suit_order,
            rank_order,
        ),
        (Hand::Prial(a1, a2, a3), Hand::Prial(b1, b2, b3)) => card_lt(
            higher_card(higher_card(a1, a2, suit_order, rank_order), a3, suit_order, rank_order),
            higher_card(higher_card(b1, b2, suit_order, rank_order), b3, suit_order, rank_order),
            suit_order,
            rank_order,
        ),
        (Hand::FiveCardTrick(t), Hand::FiveCardTrick(u)) => {
            if t.trick_type == TrickType::Flush && u.trick_type == TrickType::Flush
                && fp == FlushPrecedence::Suit {
                let st = suit_index(suit_order, t.cards@[0].suit);
                let su = suit_index(suit_order, u.cards@[0].suit);
                if st != su {
                    st < su
                } else {
                    card_lt(
                        max_card(t.cards@, suit_order, rank_order),
                        max_card(u.cards@, suit_order, rank_order),
                        suit_order,
                        rank_order,
                    )
                }
            } else if trick_strength(t.trick_type) != trick_strength(u.trick_type) {
                trick_strength(t.trick_type) < trick_strength(u.trick_type)
            } else {
                card_lt(
                    max_card(t.cards@, suit_order, rank_order),
                    max_card(u.cards@, suit_order, rank_order),
                    suit_order,
                    rank_order,
                )
            }
        },
        _ => false,
    }
}

/// No hand beats itself: submitting a hand equal to the standing one is
/// never "high enough".
pub proof fn lemma_compare_hands_irreflexive(
    h: Hand,
    fp: FlushPrecedence,
    suit_order: Seq<Suit>,
    rank_order: Seq<Rank>,
)
    ensures
        !spec_compare_hands(h, h, fp, suit_order, rank_order),
{
}

/// The higher of two cards under the ordering context (the first on a tie).
fn higher_card_of(
    a: PlayedCard,
    b: PlayedCard,
    suit_order: &[Suit; 4],
    rank_order: &[Rank; 13],
) -> (r: PlayedCard)
    ensures
        r == higher_card(a, b, suit_order@, rank_order@),
{
    if crate::cards::compare_cards(a, b, suit_order, rank_order) {
        b
    } else {
        a
    }
}

/// The contextually highest of a trick's five cards.
fn max_card_of_five(
    cards: &[PlayedCard; 5],
    suit_order: &[Suit; 4],
    rank_order: &[Rank; 13],
) -> (r: PlayedCard)
    ensures
        r == max_card(cards@, suit_order@, rank_order@),
{
    let mut m = cards[0];
    proof {
        assert(cards@.take(1).len() == 1);
        assert(cards@.take(1)[0] == cards@[0]);
    }
    let mut i: usize = 1;
    while i < 5
        invariant
            1 <= i <= 5,
            m == max_card(cards@.take(i as int), suit_order@, rank_order@),
        decreases 5 - i,
    {
        proof {
            assert(cards@.take(i + 1).drop_last() =~= cards@.take(i as int));
            assert(cards@.take(i + 1).last() == cards@[i as int]);
        }
        m = higher_card_of(m, cards[i], suit_order, rank_order);
        i = i + 1;
    }
    proof {
        assert(cards@.take(5) =~= cards@);
    }
    m
}

/// Whether the candidate hand beats the reference hand under the ordering
/// context. See the module documentation for the policy.
pub fn compare_hands(
    reference: Hand,
    candidate: Hand,
    fp: FlushPrecedence,
    suit_order: [Suit; 4],
    rank_order: [Rank; 13],
) -> (r: bool)
    ensures
        r == spec_compare_hands(reference, candidate, fp, suit_order@, rank_order@),
{
    match (reference, candidate) {
        (Hand::Pass, Hand::Pass) => false,
        (Hand::Pass, _) => true,
        (Hand::Single(a), Hand::Single(b)) => crate::cards::compare_cards(
            a,
            b,
            &suit_order,
            &rank_order,
        ),
        (Hand::Pair(a1, a2), Hand::Pair(b1, b2)) => {
            let ma = higher_card_of(a1, a2, &suit_order, &rank_order);
            let mb = higher_card_of(b1, b2, &suit_order, &rank_order);
            crate::cards::compare_cards(ma, mb, &suit_order, &rank_order)
        },
        (Hand::Prial(a1, a2, a3), Hand::Prial(b1, b2, b3)) => {
            let ma = higher_card_of(
                higher_card_of(a1, a2, &suit_order, &rank_order),
                a3,
                &suit_order,
                &rank_order,
            );
            let mb = higher_card_of(
                higher_card_of(b1, b2, &suit_order, &rank_order),
                b3,
                &suit_order,
                &rank_order,
            );
            crate::cards::compare_cards(ma, mb, &suit_order, &rank_order)
        },
        (Hand::FiveCardTrick(t), Hand::FiveCardTrick(u)) => {
            let both_flush = match (t.trick_type, u.trick_type) {
                (TrickType::Flush, TrickType::Flush) => true,
                _ => false,
            };
            let suit_rules = match fp {
                FlushPrecedence::Suit => true,
                FlushPrecedence::Rank => false,
            };
            if both_flush && suit_rules {
                let st = crate::cards::suit_value(&suit_order, t.cards[0].suit);
                let su = crate::cards::suit_value(&suit_order, u.cards[0].suit);
                if st != su {
                    st < su
                } else {
                    let mt = max_card_of_five(&t.cards, &suit_order, &rank_order);
                    let mu = max_card_of_five(&u.cards, &suit_order, &rank_order);
                    crate::cards::compare_cards(mt, mu, &suit_order, &rank_order)
                }
            } else {
                let st = trick_strength_of(t.trick_type);
                let su = trick_strength_of(u.trick_type);
                if st != su {
                    st < su
                } else {
                    let mt = max_card_of_five(&t.cards, &suit_order, &rank_order);
                    let mu = max_card_of_five(&u.cards, &suit_order, &rank_order);
                    crate::cards::compare_cards(mt, mu, &suit_order, &rank_order)
                }
            }
        },
        _ => false,
    }
}

/// Exec mirror of `trick_strength`.
fn trick_strength_of(t: TrickType) -> (n: u8)
    ensures
        n as int == trick_strength(t),
{
    match t {
        TrickType::Straight => 0,
        TrickType::Flush => 1,
        TrickType::FullHouse => 2,
        TrickType::FourOfAKind => 3,
        TrickType::StraightFlush => 4,
        TrickType::FiveOfAKind => 5,
    }
}

} // verus!
