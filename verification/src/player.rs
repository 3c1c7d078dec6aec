//! Players: an id and the cards still held.
//!
//! A player value is immutable: playing a move returns a new `Player` whose
//! hand has shrunk by the played cards, and the original is left as it was.

use crate::cards::{Card, PlayedCard};
use vstd::prelude::*;

verus! {

/// Whether the held card `c` can be played as `pc`: a joker is played by
/// holding a joker, an ordinary played card by holding a standard card of the
/// same rank and suit. The held card's `deck_id` is never consulted.
pub open spec fn card_matches(c: Card, pc: PlayedCard) -> bool {
    if pc.joker {
        c is Joker
    } else {
        c matches Card::Standard { rank, suit, .. } && rank == pc.rank && suit == pc.suit
    }
}

/// Whether two physical cards stand for the same playing card: equal rank and
/// suit for standard cards, joker for joker; `deck_id` is ignored.
pub open spec fn cards_equivalent(a: Card, b: Card) -> bool {
    match a {
        Card::Standard { rank: ra, suit: sa, .. } => b matches Card::Standard {
            rank: rb,
            suit: sb,
            ..
        } && ra == rb && sa == sb,
        Card::Joker { .. } => b is Joker,
    }
}

/// First position in `hand` of a card that can be played as `pc`, or
/// `hand.len()` when none can.
pub open spec fn match_index(hand: Seq<Card>, pc: PlayedCard) -> int
    decreases hand.len(),
{
    if hand.len() == 0 {
        0
    } else if card_matches(hand[0], pc) {
        0
    } else {
        1 + match_index(hand.drop_first(), pc)
    }
}

/// `match_index` is the first matching position, and `hand.len()` when no
/// held card matches.
pub proof fn lemma_match_index(hand: Seq<Card>, pc: PlayedCard)
    ensures
        0 <= match_index(hand, pc) <= hand.len(),
        match_index(hand, pc) < hand.len() ==> card_matches(hand[match_index(hand, pc)], pc),
        forall|j: int| 0 <= j < match_index(hand, pc) && j < hand.len() ==> !card_matches(
            hand[j],
            pc,
        ),
    decreases hand.len(),
{
    if hand.len() > 0 && !card_matches(hand[0], pc) {
        let sub = hand.drop_first();
        lemma_match_index(sub, pc);
        assert forall|j: int|
            0 <= j < match_index(hand, pc) && j < hand.len() implies !card_matches(hand[j], pc) by {
            if j > 0 {
                assert(!card_matches(sub[j - 1], pc));
                assert(hand[j] == sub[j - 1]);
            }
        }
    }
}

/// The hand left after playing the given cards one for one: each played card
/// removes the first held card it matches. `None` when some played card finds
/// no match — including a duplicate request beyond what is actually held.
pub open spec fn play_spec(hand: Seq<Card>, cards: Seq<PlayedCard>) -> Option<Seq<Card>>
    decreases cards.len(),
{
    if cards.len() == 0 {
        Some(hand)
    } else {
        let i = match_index(hand, cards[0]);
        if i < hand.len() {
            play_spec(hand.remove(i), cards.drop_first())
        } else {
            None
        }
    }
}

/// A seated player: their id and the cards still in their hand.
#[derive(Clone, Debug)]
pub struct Player {
    pub id: String,
    pub hand: Vec<Card>,
}

/// The mathematical value of a `Player`.
#[verifier::ext_equal]
pub ghost struct PlayerV {
    pub id: Seq<char>,
    pub hand: Seq<Card>,
}

impl View for Player {
    type V = PlayerV;

    open spec fn view(&self) -> PlayerV {
        PlayerV { id: self.id@, hand: self.hand@ }
    }
}

impl Player {
    pub fn new(id: String, hand: Vec<Card>) -> (p: Player)
        ensures
            p@.id == id@,
            p@.hand == hand@,
    {
        Player { id, hand }
    }

    pub fn get_id(&self) -> (r: String)
        ensures
            r@ == self@.id,
    {
        self.id.clone()
    }

    pub fn get_hand(&self) -> (r: Vec<Card>)
        ensures
            r@ == self@.hand,
    {
        copy_cards(&self.hand)
    }

    /// Whether the player holds a card equivalent to `card` (same rank and
    /// suit, or a joker for a joker); `deck_id` is ignored.
    pub fn has_card(&self, card: Card) -> (r: bool)
        ensures
            r == exists|i: int|
                0 <= i < self@.hand.len() && cards_equivalent(#[trigger] self@.hand[i], card),
    {
        let mut i: usize = 0;
        while i < self.hand.len()
            invariant
                i <= self@.hand.len(),
                forall|j: int| 0 <= j < i ==> !cards_equivalent(#[trigger] self@.hand[j], card),
            decreases self@.hand.len() - i,
        {
            if cards_equivalent_exec(&self.hand[i], &card) {
                return true;
            }
            i = i + 1;
        }
        false
    }

    /// Play the given cards: returns the player with each played card's first
    /// matching held card removed, or `None` when some played card (or a
    /// duplicate request) is not covered by the hand.
    pub fn play_move(&self, cards: Vec<PlayedCard>) -> (r: Option<Player>)
        ensures
            r is Some <==> play_spec(self@.hand, cards@) is Some,
            r matches Some(p) ==> p@.id == self@.id && Some(p@.hand) == play_spec(
                self@.hand,
                cards@,
            ),
    {
        let mut hand = copy_cards(&self.hand);
        proof {
            assert(cards@.skip(0) =~= cards@);
        }
        let mut k: usize = 0;
        while k < cards.len()
            invariant
                k <= cards@.len(),
                play_spec(self@.hand, cards@) == play_spec(hand@, cards@.skip(k as int)),
            decreases cards@.len() - k,
        {
            let pc = cards[k];
            proof {
                assert(cards@.skip(k as int)[0] == cards@[k as int]);
                assert(cards@.skip(k as int).drop_first() =~= cards@.skip(k as int + 1));
                lemma_match_index(hand@, pc);
            }
            let mut j: usize = 0;
            let mut found: bool = false;
            while j < hand.len() && !found
                invariant
                    j <= hand@.len(),
                    !found ==> forall|t: int| 0 <= t < j ==> !card_matches(#[trigger] hand@[t], pc),
                    found ==> j < hand@.len() && card_matches(hand@[j as int], pc) && forall|t: int|
                        0 <= t < j ==> !card_matches(#[trigger] hand@[t], pc),
                decreases hand@.len() - j + if found {
                    0int
                } else {
                    1int
                },
            {
                if card_matches_exec(&hand[j], pc) {
                    found = true;
                } else {
                    j = j + 1;
                }
            }
            if !found {
                proof {
                    lemma_match_index(hand@, pc);
                }
                return None;
            }
            proof {
                lemma_match_index(hand@, pc);
            }
            hand.remove(j);
            k = k + 1;
        }
        proof {
            assert(cards@.skip(cards@.len() as int) =~= Seq::<PlayedCard>::empty());
        }
        Some(Player { id: self.id.clone(), hand })
    }
}

/// Whether the held card `c` can be played as `pc`.
fn card_matches_exec(c: &Card, pc: PlayedCard) -> (r: bool)
    ensures
        r == card_matches(*c, pc),
{
    if pc.joker {
        match c {
            Card::Joker { .. } => true,
            Card::Standard { .. } => false,
        }
    } else {
        match c {
            Card::Standard { rank, suit, .. } => *rank == pc.rank && *suit == pc.suit,
            Card::Joker { .. } => false,
        }
    }
}

/// Whether two physical cards stand for the same playing card.
fn cards_equivalent_exec(a: &Card, b: &Card) -> (r: bool)
    ensures
        r == cards_equivalent(*a, *b),
{
    match a {
        Card::Standard { rank: ra, suit: sa, .. } => {
            match b {
                Card::Standard { rank: rb, suit: sb, .. } => *ra == *rb && *sa == *sb,
                Card::Joker { .. } => false,
            }
        },
        Card::Joker { .. } => {
            match b {
                Card::Joker { .. } => true,
                Card::Standard { .. } => false,
            }
        },
    }
}

/// An element-for-element copy of a card vector.
pub fn copy_cards(cards: &Vec<Card>) -> (r: Vec<Card>)
    ensures
        r@ == cards@,
{
    let mut out: Vec<Card> = Vec::new();
    let mut i: usize = 0;
    while i < cards.len()
        invariant
            i <= cards@.len(),
            out@ =~= cards@.take(i as int),
        decreases cards@.len() - i,
    {
        out.push(cards[i]);
        i = i + 1;
    }
    proof {
        assert(cards@.take(cards@.len() as int) =~= cards@);
    }
    out
}

/// A hand only ever shrinks: an accepted play removes exactly one held card
/// for each played card, and a rejected play removes nothing (`play_spec`
/// returns `None` and the player is left as it was).
pub proof fn lemma_play_shrinks(hand: Seq<Card>, cards: Seq<PlayedCard>)
    ensures
        play_spec(hand, cards) matches Some(h) ==> h.len() + cards.len() == hand.len(),
    decreases cards.len(),
{
    if cards.len() > 0 {
        let i = match_index(hand, cards[0]);
        lemma_match_index(hand, cards[0]);
        if i < hand.len() {
            lemma_play_shrinks(hand.remove(i), cards.drop_first());
        }
    }
}

} // verus!
