//! Cards: ranks, suits, physical cards and played cards.
//!
//! Ranks and suits carry no intrinsic precedence of their own; the precedence
//! that decides which card is "higher" is always supplied by the round's
//! ordering context (a `[Suit; 4]` and a `[Rank; 13]` permutation). The one
//! fixed structure is the successor chain Three -> Four -> ... -> Ace -> Two
//! that defines straights; it never changes, even when the ordering context
//! is reversed.

use vstd::prelude::*;

verus! {

broadcast use vstd::array::group_array_axioms;

/// The thirteen ranks. The declaration order is the fixed successor chain
/// used for straights (Three is lowest in the chain, Two is highest); it is
/// not a precedence — precedence comes from a round's `rank_order`.
#[derive(Clone, Copy, Debug, PartialEq, Eq, Structural)]
pub enum Rank {
    Three,
    Four,
    Five,
    Six,
    Seven,
    Eight,
    Nine,
    Ten,
    Jack,
    Queen,
    King,
    Ace,
    Two,
}

/// The four suits. Precedence comes from a round's `suit_order`.
#[derive(Clone, Copy, Debug, PartialEq, Eq, Structural)]
pub enum Suit {
    Clubs,
    Hearts,
    Diamonds,
    Spades,
}

/// Position of a rank in the fixed successor chain (Three = 0, ..., Two = 12).
pub open spec fn chain_num(r: Rank) -> int {
    match r {
        Rank::Three => 0,
        Rank::Four => 1,
        Rank::Five => 2,
        Rank::Six => 3,
        Rank::Seven => 4,
        Rank::Eight => 5,
        Rank::Nine => 6,
        Rank::Ten => 7,
        Rank::Jack => 8,
        Rank::Queen => 9,
        Rank::King => 10,
        Rank::Ace => 11,
        Rank::Two => 12,
    }
}

/// A fixed tie-break number for suits, used only to make the canonical sort
/// inside a classified trick deterministic (Clubs = 0, ..., Spades = 3).
pub open spec fn suit_num(s: Suit) -> int {
    match s {
        Suit::Clubs => 0,
        Suit::Hearts => 1,
        Suit::Diamonds => 2,
        Suit::Spades => 3,
    }
}

/// The predecessor of a rank in the fixed straight chain; Three has none.
/// The chain is not cyclic: Two -> Ace -> ... -> Four -> Three, full stop.
pub open spec fn spec_previous_rank(r: Rank) -> Option<Rank> {
    match r {
        Rank::Three => None,
        Rank::Four => Some(Rank::Three),
        Rank::Five => Some(Rank::Four),
        Rank::Six => Some(Rank::Five),
        Rank::Seven => Some(Rank::Six),
        Rank::Eight => Some(Rank::Seven),
        Rank::Nine => Some(Rank::Eight),
        Rank::Ten => Some(Rank::Nine),
        Rank::Jack => Some(Rank::Ten),
        Rank::Queen => Some(Rank::Jack),
        Rank::King => Some(Rank::Queen),
        Rank::Ace => Some(Rank::King),
        Rank::Two => Some(Rank::Ace),
    }
}

/// A physical card in some player's hand. `deck_id` distinguishes copies of
/// the same card when several decks are shuffled together; it never takes
/// part in matching a played card against a hand.
#[derive(Clone, Copy, Debug, PartialEq, Eq, Structural)]
pub enum Card {
    Standard { deck_id: u8, rank: Rank, suit: Suit },
    Joker { deck_id: u8 },
}

impl Card {
    /// A standard (non-joker) card.
    pub fn new(rank: Rank, suit: Suit, deck_id: u8) -> (c: Card)
        ensures
            c == (Card::Standard { deck_id, rank, suit }),
    {
        Card::Standard { deck_id, rank, suit }
    }

    /// The card's rank; a joker has none.
    pub fn get_rank(&self) -> (r: Option<Rank>)
        ensures
            r == (match *self {
                Card::Standard { rank, .. } => Some(rank),
                Card::Joker { .. } => None::<Rank>,
            }),
    {
        match *self {
            Card::Standard { rank, .. } => Some(rank),
            Card::Joker { .. } => None,
        }
    }

    /// The card's suit; a joker has none.
    pub fn get_suit(&self) -> (s: Option<Suit>)
        ensures
            s == (match *self {
                Card::Standard { suit, .. } => Some(suit),
                Card::Joker { .. } => None::<Suit>,
            }),
    {
        match *self {
            Card::Standard { suit, .. } => Some(suit),
            Card::Joker { .. } => None,
        }
    }
}

/// A card as it lies on the table: the rank and suit it is played as, and
/// whether a joker stands in for it. Matching against a player's hand goes by
/// rank and suit for an ordinary card, and by joker-ness for a joker; the
/// `deck_id` of the physical card is never consulted.
#[derive(Clone, Copy, Debug, PartialEq, Eq, Structural)]
pub struct PlayedCard {
    pub rank: Rank,
    pub suit: Suit,
    pub joker: bool,
}

impl PlayedCard {
    pub fn new(rank: Rank, suit: Suit, joker: bool) -> (c: PlayedCard)
        ensures
            c == (PlayedCard { rank, suit, joker }),
    {
        PlayedCard { rank, suit, joker }
    }

    pub fn get_rank(&self) -> (r: Rank)
        ensures
            r == self.rank,
    {
        self.rank
    }

    pub fn get_suit(&self) -> (s: Suit)
        ensures
            s == self.suit,
    {
        self.suit
    }

    /// The rank just below this card's rank in the fixed straight chain.
    pub fn previous_rank(&self) -> (r: Option<Rank>)
        ensures
            r == spec_previous_rank(self.rank),
    {
        match self.rank {
            Rank::Three => None,
            Rank::Four => Some(Rank::Three),
            Rank::Five => Some(Rank::Four),
            Rank::Six => Some(Rank::Five),
            Rank::Seven => Some(Rank::Six),
            Rank::Eight => Some(Rank::Seven),
            Rank::Nine => Some(Rank::Eight),
            Rank::Ten => Some(Rank::Nine),
            Rank::Jack => Some(Rank::Ten),
            Rank::Queen => Some(Rank::Jack),
            Rank::King => Some(Rank::Queen),
            Rank::Ace => Some(Rank::King),
            Rank::Two => Some(Rank::Ace),
        }
    }
}

/// First position of `r` in a rank ordering, or the ordering's length when it
/// does not occur. For a permutation of all thirteen ranks this is the rank's
/// precedence: index 0 is the lowest rank of the round.
pub open spec fn rank_index(order: Seq<Rank>, r: Rank) -> int
    decreases order.len(),
{
    if order.len() == 0 {
        0
    } else if order[0] == r {
        0
    } else {
        1 + rank_index(order.drop_first(), r)
    }
}

/// First position of `s` in a suit ordering, or the ordering's length when it
/// does not occur.
pub open spec fn suit_index(order: Seq<Suit>, s: Suit) -> int
    decreases order.len(),
{
    if order.len() == 0 {
        0
    } else if order[0] == s {
        0
    } else {
        1 + suit_index(order.drop_first(), s)
    }
}

/// `a` ranks strictly below `b` under the given ordering context: rank
/// precedence first, suit precedence on rank ties.
pub open spec fn card_lt(
    a: PlayedCard,
    b: PlayedCard,
    suit_order: Seq<Suit>,
    rank_order: Seq<Rank>,
) -> bool {
    ||| rank_index(rank_order, a.rank) < rank_index(rank_order, b.rank)
    ||| (rank_index(rank_order, a.rank) == rank_index(rank_order, b.rank)
        && suit_index(suit_order, a.suit) < suit_index(suit_order, b.suit))
}

/// `rank_index` is the first position of `r`, and `order.len()` when `r` is
/// absent.
pub proof fn lemma_rank_index(order: Seq<Rank>, r: Rank)
    ensures
        0 <= rank_index(order, r) <= order.len(),
        rank_index(order, r) < order.len() ==> order[rank_index(order, r)] == r,
        forall|j: int| 0 <= j < rank_index(order, r) && j < order.len() ==> order[j] != r,
    decreases order.len(),
{
    if order.len() > 0 && order[0] != r {
        let sub = order.drop_first();
        lemma_rank_index(sub, r);
        assert forall|j: int| 0 <= j < rank_index(order, r) && j < order.len() implies order[j]
            != r by {
            if j > 0 {
                assert(sub[j - 1] != r);
                assert(order[j] == sub[j - 1]);
            }
        }
    }
}

/// `suit_index` is the first position of `s`, and `order.len()` when `s` is
/// absent.
pub proof fn lemma_suit_index(order: Seq<Suit>, s: Suit)
    ensures
        0 <= suit_index(order, s) <= order.len(),
        suit_index(order, s) < order.len() ==> order[suit_index(order, s)] == s,
        forall|j: int| 0 <= j < suit_index(order, s) && j < order.len() ==> order[j] != s,
    decreases order.len(),
{
    if order.len() > 0 && order[0] != s {
        let sub = order.drop_first();
        lemma_suit_index(sub, s);
        assert forall|j: int| 0 <= j < suit_index(order, s) && j < order.len() implies order[j]
            != s by {
            if j > 0 {
                assert(sub[j - 1] != s);
                assert(order[j] == sub[j - 1]);
            }
        }
    }
}

/// Position of `r` in `order`, or `order.len()` when absent.
pub fn rank_value(order: &[Rank; 13], r: Rank) -> (i: usize)
    ensures
        i == rank_index(order@, r),
        i <= 13,
{
    let mut i: usize = 0;
    while i < 13
        invariant
            i <= 13,
            forall|j: int| 0 <= j < i ==> order@[j] != r,
        decreases 13 - i,
    {
        if order[i] == r {
            proof {
                lemma_rank_index(order@, r);
            }
            return i;
        }
        i = i + 1;
    }
    proof {
        lemma_rank_index(order@, r);
    }
    i
}

/// Position of `s` in `order`, or `order.len()` when absent.
pub fn suit_value(order: &[Suit; 4], s: Suit) -> (i: usize)
    ensures
        i == suit_index(order@, s),
        i <= 4,
{
    let mut i: usize = 0;
    while i < 4
        invariant
            i <= 4,
            forall|j: int| 0 <= j < i ==> order@[j] != s,
        decreases 4 - i,
    {
        if order[i] == s {
            proof {
                lemma_suit_index(order@, s);
            }
            return i;
        }
        i = i + 1;
    }
    proof {
        lemma_suit_index(order@, s);
    }
    i
}

/// Whether `a` ranks strictly below `b` under the ordering context.
pub fn compare_cards(
    a: PlayedCard,
    b: PlayedCard,
    suit_order: &[Suit; 4],
    rank_order: &[Rank; 13],
) -> (r: bool)
    ensures
        r == card_lt(a, b, suit_order@, rank_order@),
{
    let ra = rank_value(rank_order, a.rank);
    let rb = rank_value(rank_order, b.rank);
    if ra < rb {
        true
    } else if ra == rb {
        suit_value(suit_order, a.suit) < suit_value(suit_order, b.suit)
    } else {
        false
    }
}

} // verus!
