//! The round state machine: legality checking, turn rotation, pass and win
//! bookkeeping, and the reversal rule.
//!
//! A `Round` is an immutable value. `submit_move` is its only transition: it
//! validates the submission, and either returns the exact error owed to it,
//! leaving the round untouched, or returns a fresh `Round` with the acting
//! player's hand reduced, the turn rotated past empty-handed players, the
//! table cleared when play has come back around to the last player, and the
//! ordering context reversed when a four-of-a-kind lands under a ruleset with
//! reversals enabled.
//!
//! The whole transition is pinned down by the spec function `submit_outcome`
//! over the round's mathematical view, so two submissions of the same move to
//! the same round always produce the same result — in particular, a rejected
//! submission is rejected the same way every time.

use crate::cards::{Card, PlayedCard, Rank, Suit};
use crate::compare::{compare_hands, spec_compare_hands, FlushPrecedence};
use crate::hands::{build_spec, Hand, TrickType};
use crate::player::{cards_equivalent, play_spec, Player, PlayerV};
use vstd::prelude::*;

verus! {

broadcast use vstd::array::group_array_axioms;

/// Why a submission was rejected. The round is left untouched in every case.
#[derive(Clone, Copy, Debug, PartialEq, Eq, Structural)]
pub enum SubmitError {
    /// the very first move of a round may not be a pass
    FirstRoundPass,
    /// the very first move must include the designated lowest card
    FirstHandMustContainLowestCard,
    /// the hand does not beat the table's standing hand
    HandNotHighEnough,
    /// the acting id is not the player whose turn it is
    NotCurrentPlayer,
    /// the submitted cards form no legal hand shape
    InvalidHand,
    /// the acting player does not hold all the submitted cards
    PlayerDoesntHaveCard,
}

/// Per-round configuration, copied unchanged into every successor round.
#[derive(Clone, Copy, Debug, PartialEq, Eq, Structural)]
pub struct Ruleset {
    /// whether a four-of-a-kind reverses the rank and suit precedence
    pub reversals_enabled: bool,
    /// which precedence governs flush-against-flush comparison
    pub flush_precedence: FlushPrecedence,
}

/// The aggregate turn state: the seated players, whose turn is next, the
/// standing last move and who made it, the active ordering context, and the
/// ruleset.
#[derive(Clone, Debug)]
pub struct Round {
    pub players: Vec<Player>,
    pub next_player: Option<String>,
    pub last_move: Option<Hand>,
    pub last_player: Option<String>,
    pub suit_order: [Suit; 4],
    pub rank_order: [Rank; 13],
    pub ruleset: Ruleset,
}

/// The mathematical value of a `Round`.
#[verifier::ext_equal]
pub ghost struct RoundV {
    pub players: Seq<PlayerV>,
    pub next_player: Option<Seq<char>>,
    pub last_move: Option<Hand>,
    pub last_player: Option<Seq<char>>,
    pub suit_order: Seq<Suit>,
    pub rank_order: Seq<Rank>,
    pub ruleset: Ruleset,
}

/// The players' mathematical values, seat by seat.
pub open spec fn players_view(players: Seq<Player>) -> Seq<PlayerV> {
    players.map_values(|p: Player| p@)
}

/// An optional id as an optional character sequence.
pub open spec fn opt_str_view(o: Option<String>) -> Option<Seq<char>> {
    match o {
        Option::None => None,
        Option::Some(s) => Some(s@),
    }
}

impl View for Round {
    type V = RoundV;

    open spec fn view(&self) -> RoundV {
        RoundV {
            players: players_view(self.players@),
            next_player: opt_str_view(self.next_player),
            last_move: self.last_move,
            last_player: opt_str_view(self.last_player),
            suit_order: self.suit_order@,
            rank_order: self.rank_order@,
            ruleset: self.ruleset,
        }
    }
}

/// First seat of the player with this id, or the seat count when no player
/// carries it.
pub open spec fn find_player(ps: Seq<PlayerV>, id: Seq<char>) -> int
    decreases ps.len(),
{
    if ps.len() == 0 {
        0
    } else if ps[0].id == id {
        0
    } else {
        1 + find_player(ps.drop_first(), id)
    }
}

/// Whether some seated player carries this id.
pub open spec fn has_player(ps: Seq<PlayerV>, id: Seq<char>) -> bool {
    find_player(ps, id) < ps.len()
}

/// `find_player` is the first seat carrying the id, and the seat count when
/// no seat does.
pub proof fn lemma_find_player(ps: Seq<PlayerV>, id: Seq<char>)
    ensures
        0 <= find_player(ps, id) <= ps.len(),
        find_player(ps, id) < ps.len() ==> ps[find_player(ps, id)].id == id,
        forall|j: int| 0 <= j < find_player(ps, id) && j < ps.len() ==> ps[j].id != id,
    decreases ps.len(),
{
    if ps.len() > 0 && ps[0].id != id {
        let sub = ps.drop_first();
        lemma_find_player(sub, id);
        assert forall|j: int| 0 <= j < find_player(ps, id) && j < ps.len() implies ps[j].id
            != id by {
            if j > 0 {
                assert(sub[j - 1].id != id);
                assert(ps[j] == sub[j - 1]);
            }
        }
    }
}

/// How many players still hold at least one card.
pub open spec fn alive_count(ps: Seq<PlayerV>) -> int
    decreases ps.len(),
{
    if ps.len() == 0 {
        0
    } else {
        alive_count(ps.drop_last()) + if ps.last().hand.len() > 0 {
            1int
        } else {
            0int
        }
    }
}

/// The designated lowest card of a round: the first suit and first rank of
/// the active ordering context.
pub open spec fn lowest_card(suit0: Suit, rank0: Rank) -> Card {
    Card::Standard { deck_id: 0, rank: rank0, suit: suit0 }
}

/// Whether the player holds the designated lowest card (any deck copy).
pub open spec fn holds_lowest_card(p: PlayerV, suit0: Suit, rank0: Rank) -> bool {
    exists|i: int|
        0 <= i < p.hand.len() && cards_equivalent(#[trigger] p.hand[i], lowest_card(suit0, rank0))
}

/// The first seated player holding the designated lowest card.
pub open spec fn starting_player(ps: Seq<PlayerV>, suit0: Suit, rank0: Rank) -> Option<Seq<char>>
    decreases ps.len(),
{
    if ps.len() == 0 {
        None
    } else if holds_lowest_card(ps[0], suit0, rank0) {
        Some(ps[0].id)
    } else {
        starting_player(ps.drop_first(), suit0, rank0)
    }
}

/// Who acts next: the recorded next player if one is set; before the first
/// move (nothing recorded), the holder of the designated lowest card — but
/// only while more than one player still holds cards.
pub open spec fn next_player_spec(rv: RoundV) -> Option<Seq<char>> {
    match rv.next_player {
        Option::Some(x) => Some(x),
        Option::None => if alive_count(rv.players) > 1 {
            starting_player(rv.players, rv.suit_order[0], rv.rank_order[0])
        } else {
            None
        },
    }
}

/// The seat `k` steps past seat `start`, wrapping past the last seat back to
/// the first. Meaningful for `0 <= start < n` and `0 <= k <= n`.
pub open spec fn seat(start: int, k: int, n: int) -> int {
    if start + k < n {
        start + k
    } else {
        start + k - n
    }
}

/// The first offset (from 1 up to the seat count) at which the rotation walk
/// from `start` stands on a player who still holds cards. The walk never runs
/// past a full circle: offset `n` is `start` itself.
pub open spec fn alive_offset(ps: Seq<PlayerV>, start: int, k: int) -> int
    decreases ps.len() - k,
    when 1 <= k <= ps.len()
{
    if k >= ps.len() {
        k
    } else if ps[seat(start, k, ps.len() as int)].hand.len() > 0 {
        k
    } else {
        alive_offset(ps, start, k + 1)
    }
}

/// Whether the rotation walk from `start`, over offsets 1 through `upto`
/// inclusive, stands at some point on the seat carrying `id`.
pub open spec fn walk_hits(ps: Seq<PlayerV>, start: int, id: Seq<char>, upto: int) -> bool {
    exists|k: int| 1 <= k <= upto && #[trigger] ps[seat(start, k, ps.len() as int)].id == id
}

/// Whether the submitted cards include the designated lowest card.
pub open spec fn contains_lowest(cards: Seq<PlayedCard>, suit0: Suit, rank0: Rank) -> bool {
    exists|i: int| 0 <= i < cards.len() && #[trigger] cards[i].rank == rank0 && cards[i].suit == suit0
}

/// The error owed to a submission, or `None` when it must be accepted. The
/// checks run in a fixed order: acting player, hand shape, then the
/// first-move rules (or the comparison against the standing hand), and last
/// whether the player actually holds the cards.
pub open spec fn submit_err(rv: RoundV, uid: Seq<char>, cards: Seq<PlayedCard>) -> Option<
    SubmitError,
> {
    let hand_opt = build_spec(cards);
    if next_player_spec(rv) != Some(uid) {
        Some(SubmitError::NotCurrentPlayer)
    } else if hand_opt is None {
        Some(SubmitError::InvalidHand)
    } else if rv.last_move is None && cards.len() == 0 {
        Some(SubmitError::FirstRoundPass)
    } else if rv.last_move is None && !contains_lowest(cards, rv.suit_order[0], rv.rank_order[0]) {
        Some(SubmitError::FirstHandMustContainLowestCard)
    } else if rv.last_move matches Some(lm) && hand_opt matches Some(h) && !(lm is Pass) && !(h
        is Pass) && !spec_compare_hands(
        lm,
        h,
        rv.ruleset.flush_precedence,
        rv.suit_order,
        rv.rank_order,
    ) {
        Some(SubmitError::HandNotHighEnough)
    } else if play_spec(rv.players[find_player(rv.players, uid)].hand, cards) is None {
        Some(SubmitError::PlayerDoesntHaveCard)
    } else {
        None
    }
}

/// The round produced by an accepted submission. Only meaningful when
/// `submit_err` is `None` (so the hand builds, the acting player is seated,
/// and the played cards are covered by their hand).
pub open spec fn submit_result(rv: RoundV, uid: Seq<char>, cards: Seq<PlayedCard>) -> RoundV {
    let n = rv.players.len() as int;
    let hand = build_spec(cards).unwrap();
    let iu = find_player(rv.players, uid);
    let acting = rv.players[iu];
    let reduced = PlayerV { id: acting.id, hand: play_spec(acting.hand, cards).unwrap() };
    let new_players = rv.players.update(iu, reduced);
    let new_last_player = if hand is Pass {
        rv.last_player
    } else {
        Some(uid)
    };
    let off = alive_offset(rv.players, iu, 1);
    let next_id = rv.players[seat(iu, off, n)].id;
    let cleared = new_last_player matches Some(l) && walk_hits(rv.players, iu, l, off);
    let new_last_move = if cleared {
        Some(Hand::Pass)
    } else if hand is Pass {
        rv.last_move
    } else {
        Some(hand)
    };
    let new_next_player = if alive_count(new_players) > 1 {
        Some(next_id)
    } else {
        None
    };
    let reversal = rv.ruleset.reversals_enabled && (hand matches Hand::FiveCardTrick(t)
        && t.trick_type == TrickType::FourOfAKind);
    let new_suit_order = if reversal {
        rv.suit_order.reverse()
    } else {
        rv.suit_order
    };
    let new_rank_order = if reversal {
        rv.rank_order.reverse()
    } else {
        rv.rank_order
    };
    RoundV {
        players: new_players,
        next_player: new_next_player,
        last_move: new_last_move,
        last_player: new_last_player,
        suit_order: new_suit_order,
        rank_order: new_rank_order,
        ruleset: rv.ruleset,
    }
}

/// The complete outcome of a submission: the exact error owed to it, or the
/// exact round it produces.
pub open spec fn submit_outcome(rv: RoundV, uid: Seq<char>, cards: Seq<PlayedCard>) -> Result<
    RoundV,
    SubmitError,
> {
    match submit_err(rv, uid, cards) {
        Option::Some(e) => Err(e),
        Option::None => Ok(submit_result(rv, uid, cards)),
    }
}

/// A submission's result as a mathematical value.
pub open spec fn result_view(r: Result<Round, SubmitError>) -> Result<RoundV, SubmitError> {
    match r {
        Result::Ok(nr) => Ok(nr@),
        Result::Err(e) => Err(e),
    }
}

/// The states `submit_move` accepts: every id is seated at most once, some
/// player still holds cards, and the computed next player exists and is
/// seated. A round that leaves this set (no acting player remains) is
/// terminal: the game is over and no further move may be submitted.
pub open spec fn can_submit(rv: RoundV) -> bool {
    &&& forall|i: int, j: int|
        0 <= i < j < rv.players.len() ==> #[trigger] rv.players[i].id != #[trigger] rv.players[j].id
    &&& exists|i: int| 0 <= i < rv.players.len() && #[trigger] rv.players[i].hand.len() > 0
    &&& next_player_spec(rv) is Some
    &&& has_player(rv.players, next_player_spec(rv).unwrap())
}

impl Round {
    pub fn new(
        players: Vec<Player>,
        next_player: Option<String>,
        last_move: Option<Hand>,
        last_player: Option<String>,
        suit_order: [Suit; 4],
        rank_order: [Rank; 13],
        ruleset: Ruleset,
    ) -> (r: Round)
        ensures
            r@.players == players_view(players@),
            r@.next_player == opt_str_view(next_player),
            r@.last_move == last_move,
            r@.last_player == opt_str_view(last_player),
            r@.suit_order == suit_order@,
            r@.rank_order == rank_order@,
            r@.ruleset == ruleset,
    {
        Round { players, next_player, last_move, last_player, suit_order, rank_order, ruleset }
    }

    pub fn get_last_move(&self) -> (r: Option<Hand>)
        ensures
            r == self@.last_move,
    {
        self.last_move
    }

    pub fn get_last_player(&self) -> (r: Option<String>)
        ensures
            opt_str_view(r) == self@.last_player,
    {
        match &self.last_player {
            None => None,
            Some(x) => Some(x.clone()),
        }
    }

    pub fn get_suit_order(&self) -> (r: [Suit; 4])
        ensures
            r@ == self@.suit_order,
    {
        self.suit_order
    }

    pub fn get_rank_order(&self) -> (r: [Rank; 13])
        ensures
            r@ == self@.rank_order,
    {
        self.rank_order
    }

    /// The seated player with this id, if any.
    pub fn get_player(&self, user_id: &str) -> (r: Option<Player>)
        ensures
            r is Some <==> has_player(self@.players, user_id@),
            r matches Some(p) ==> p@ == self@.players[find_player(self@.players, user_id@)],
    {
        proof {
            lemma_find_player(self@.players, user_id@);
        }
        let uid: String = user_id.to_owned();
        let mut i: usize = 0;
        while i < self.players.len()
            invariant
                i <= self@.players.len(),
                self@.players.len() == self.players@.len(),
                uid@ == user_id@,
                forall|j: int| 0 <= j < i ==> #[trigger] self@.players[j].id != user_id@,
            decreases self@.players.len() - i,
        {
            proof {
                assert(self@.players[i as int] == self.players@[i as int]@);
            }
            if self.players[i].id == uid {
                proof {
                    lemma_find_player(self@.players, user_id@);
                }
                let p = &self.players[i];
                return Some(Player::new(p.get_id(), p.get_hand()));
            }
            i = i + 1;
        }
        proof {
            lemma_find_player(self@.players, user_id@);
        }
        None
    }

    /// Who acts next: the recorded next player, or — before the first move —
    /// the holder of the designated lowest card, while more than one player
    /// still holds cards.
    pub fn get_next_player(&self) -> (r: Option<String>)
        ensures
            opt_str_view(r) == next_player_spec(self@),
    {
        match &self.next_player {
            Some(x) => Some(x.clone()),
            None => {
                if count_alive(&self.players) > 1 {
                    self.get_starting_player()
                } else {
                    None
                }
            },
        }
    }

    /// The first seated player holding the designated lowest card.
    fn get_starting_player(&self) -> (r: Option<String>)
        ensures
            opt_str_view(r) == starting_player(
                self@.players,
                self@.suit_order[0],
                self@.rank_order[0],
            ),
    {
        let low = Card::Standard { deck_id: 0, rank: self.rank_order[0], suit: self.suit_order[0] };
        proof {
            assert(self@.players.skip(0) =~= self@.players);
        }
        let mut i: usize = 0;
        while i < self.players.len()
            invariant
                i <= self@.players.len(),
                self@.players.len() == self.players@.len(),
                low == lowest_card(self@.suit_order[0], self@.rank_order[0]),
                starting_player(self@.players, self@.suit_order[0], self@.rank_order[0])
                    == starting_player(
                    self@.players.skip(i as int),
                    self@.suit_order[0],
                    self@.rank_order[0],
                ),
            decreases self@.players.len() - i,
        {
            proof {
                assert(self@.players[i as int] == self.players@[i as int]@);
                assert(self@.players.skip(i as int)[0] == self@.players[i as int]);
                assert(self@.players.skip(i as int).drop_first() =~= self@.players.skip(i + 1));
            }
            if self.players[i].has_card(low) {
                return Some(self.players[i].get_id());
            }
            i = i + 1;
        }
        proof {
            assert(self@.players.skip(self@.players.len() as int)
                =~= Seq::<PlayerV>::empty());
        }
        None
    }

    /// The seat of the player carrying this id.
    fn find_player_index(&self, uid: &String) -> (i: usize)
        requires
            has_player(self@.players, uid@),
        ensures
            i as int == find_player(self@.players, uid@),
            (i as int) < self@.players.len(),
    {
        proof {
            lemma_find_player(self@.players, uid@);
        }
        let mut i: usize = 0;
        while i < self.players.len()
            invariant
                i <= self@.players.len(),
                self@.players.len() == self.players@.len(),
                forall|j: int| 0 <= j < i ==> #[trigger] self@.players[j].id != uid@,
            decreases self@.players.len() - i,
        {
            proof {
                assert(self@.players[i as int] == self.players@[i as int]@);
            }
            if self.players[i].id == *uid {
                proof {
                    lemma_find_player(self@.players, uid@);
                }
                return i;
            }
            i = i + 1;
        }
        proof {
            lemma_find_player(self@.players, uid@);
        }
        i
    }

    /// The one transition of the state machine. Validates the submission and
    /// either returns the exact error owed to it (the round is untouched) or
    /// the exact successor round, as pinned down by `submit_outcome` over the
    /// round's mathematical view.
    ///
    /// The round must still have an acting player (`can_submit`): once the
    /// game is over (`get_next_player` returns nothing) no further move may
    /// be submitted.
    pub fn submit_move(&self, user_id: &str, cards: Vec<PlayedCard>) -> (r: Result<
        Round,
        SubmitError,
    >)
        requires
            can_submit(self@),
        ensures
            result_view(r) == submit_outcome(self@, user_id@, cards@),
    {
        let ghost rv = self@;
        let uid: String = user_id.to_owned();

        let next = self.get_next_player();
        let next_s = next.unwrap();
        if !(uid == next_s) {
            return Err(SubmitError::NotCurrentPlayer);
        }
        assert(next_player_spec(rv) == Some(user_id@));

        let hand_opt = Hand::build(copy_played(&cards));
        let hand = match hand_opt {
            None => {
                return Err(SubmitError::InvalidHand);
            },
            Some(h) => h,
        };

        match self.last_move {
            None => {
                if cards.len() == 0 {
                    return Err(SubmitError::FirstRoundPass);
                }
                if !contains_lowest_card(&cards, self.suit_order[0], self.rank_order[0]) {
                    return Err(SubmitError::FirstHandMustContainLowestCard);
                }
            },
            Some(lm) => {
                if !is_pass(&lm) && !is_pass(&hand) && !compare_hands(
                    lm,
                    hand,
                    self.ruleset.flush_precedence,
                    self.suit_order,
                    self.rank_order,
                ) {
                    return Err(SubmitError::HandNotHighEnough);
                }
            },
        }

        let iu = self.find_player_index(&uid);
        proof {
            lemma_find_player(rv.players, user_id@);
            assert(rv.players[iu as int] == self.players@[iu as int]@);
        }
        let reduced = match self.players[iu].play_move(cards) {
            None => {
                return Err(SubmitError::PlayerDoesntHaveCard);
            },
            Some(p) => p,
        };
        assert(submit_err(rv, user_id@, cards@) is None);

        let new_players = replace_player(&self.players, iu, &reduced);

        let hand_is_pass = is_pass(&hand);
        let new_last_player: Option<String> = if hand_is_pass {
            match &self.last_player {
                None => None,
                Some(x) => Some(x.clone()),
            }
        } else {
            Some(uid.clone())
        };
        assert(opt_str_view(new_last_player) == (if hand is Pass {
            rv.last_player
        } else {
            Some(user_id@)
        }));

        let n = self.players.len();
        let ghost ao = alive_offset(rv.players, iu as int, 1);
        proof {
            lemma_alive_offset(rv.players, iu as int);
        }
        let mut off: usize = 1;
        let mut idx: usize = if iu + 1 < n {
            iu + 1
        } else {
            0
        };
        let mut cleared = match &new_last_player {
            Some(l) => self.players[idx].id == *l,
            None => false,
        };
        proof {
            assert(rv.players[idx as int] == self.players@[idx as int]@);
            assert(cleared == (opt_str_view(new_last_player) matches Some(l) && walk_hits(
                rv.players,
                iu as int,
                l,
                1,
            ))) by {
                match opt_str_view(new_last_player) {
                    Option::Some(l) => {
                        if cleared {
                            assert(rv.players[seat(iu as int, 1, n as int)].id == l);
                            assert(walk_hits(rv.players, iu as int, l, 1));
                        }
                        if walk_hits(rv.players, iu as int, l, 1) {
                            let k = choose|k: int|
                                1 <= k <= 1 && #[trigger] rv.players[seat(
                                    iu as int,
                                    k,
                                    rv.players.len() as int,
                                )].id == l;
                            assert(k == 1);
                        }
                    },
                    Option::None => {},
                }
            }
        }
        while self.players[idx].hand.len() == 0
            invariant
                rv == self@,
                n == self.players@.len(),
                n as int == rv.players.len(),
                0 < n,
                (iu as int) < n as int,
                1 <= off <= ao,
                ao <= n,
                idx as int == seat(iu as int, off as int, n as int),
                idx < n,
                alive_offset(rv.players, iu as int, off as int) == ao,
                rv.players[seat(iu as int, ao, n as int)].hand.len() > 0,
                cleared == (opt_str_view(new_last_player) matches Some(l) && walk_hits(
                    rv.players,
                    iu as int,
                    l,
                    off as int,
                )),
            decreases ao - off,
        {
            proof {
                assert(rv.players[idx as int] == self.players@[idx as int]@);
                assert(rv.players[seat(iu as int, off as int, n as int)].hand.len() == 0);
                if off as int == ao {
                    assert(false);
                }
                assert((off as int) < ao);
                if off as int == n as int {
                    assert(alive_offset(rv.players, iu as int, off as int) == off as int);
                    assert(false);
                }
            }
            off = off + 1;
            idx = if idx + 1 < n {
                idx + 1
            } else {
                0
            };
            let hit = match &new_last_player {
                Some(l) => self.players[idx].id == *l,
                None => false,
            };
            proof {
                assert(rv.players[idx as int] == self.players@[idx as int]@);
                assert(idx as int == seat(iu as int, off as int, n as int));
                match opt_str_view(new_last_player) {
                    Option::Some(l) => {
                        if cleared || hit {
                            assert(walk_hits(rv.players, iu as int, l, off as int)) by {
                                if hit {
                                    assert(rv.players[seat(iu as int, off as int, n as int)].id
                                        == l);
                                }
                            }
                        } else {
                            assert(!walk_hits(rv.players, iu as int, l, off as int)) by {
                                if walk_hits(rv.players, iu as int, l, off as int) {
                                    let k = choose|k: int|
                                        1 <= k <= off as int && #[trigger] rv.players[seat(
                                            iu as int,
                                            k,
                                            rv.players.len() as int,
                                        )].id == l;
                                    if k < off as int {
                                        assert(walk_hits(rv.players, iu as int, l, off - 1));
                                    }
                                }
                            }
                        }
                    },
                    Option::None => {},
                }
            }
            if hit {
                cleared = true;
            }
        }
        proof {
            assert(rv.players[idx as int] == self.players@[idx as int]@);
            assert(alive_offset(rv.players, iu as int, off as int) == off as int);
            assert(off as int == ao);
        }
        let next_id: String = self.players[idx].get_id();

        let alive_after = count_alive(&new_players);
        let new_next_player: Option<String> = if alive_after > 1 {
            Some(next_id)
        } else {
            None
        };

        let new_last_move: Option<Hand> = if cleared {
            Some(Hand::Pass)
        } else if hand_is_pass {
            self.last_move
        } else {
            Some(hand)
        };

        let reversal = self.ruleset.reversals_enabled && is_four_of_a_kind(&hand);
        let new_suit_order = if reversal {
            reverse_suits(&self.suit_order)
        } else {
            self.suit_order
        };
        let new_rank_order = if reversal {
            reverse_ranks(&self.rank_order)
        } else {
            self.rank_order
        };

        let result = Round {
            players: new_players,
            next_player: new_next_player,
            last_move: new_last_move,
            last_player: new_last_player,
            suit_order: new_suit_order,
            rank_order: new_rank_order,
            ruleset: self.ruleset,
        };
        proof {
            let expected = submit_result(rv, user_id@, cards@);
            assert(result@.players =~~= expected.players);
            assert(result@ =~~= expected);
        }
        Ok(result)
    }
}

/// How many of the seated players still hold at least one card.
fn count_alive(players: &Vec<Player>) -> (n: usize)
    ensures
        n == alive_count(players_view(players@)),
        n <= players@.len(),
{
    let ghost ps = players_view(players@);
    let mut n: usize = 0;
    let mut i: usize = 0;
    while i < players.len()
        invariant
            i <= players@.len(),
            ps == players_view(players@),
            ps.len() == players@.len(),
            n == alive_count(ps.take(i as int)),
            n <= i,
        decreases players@.len() - i,
    {
        proof {
            assert(ps.take(i + 1).drop_last() =~= ps.take(i as int));
            assert(ps.take(i + 1).last() == ps[i as int]);
        }
        if players[i].hand.len() > 0 {
            n = n + 1;
        }
        i = i + 1;
    }
    proof {
        assert(ps.take(ps.len() as int) =~= ps);
    }
    n
}

/// The rotation walk from a seated, still-alive context finds a player who
/// still holds cards: the walk's stop is `alive_offset`, the player standing
/// there holds cards, and every seat strictly before the stop is empty-handed.
pub proof fn lemma_alive_offset(ps: Seq<PlayerV>, start: int)
    requires
        ps.len() > 0,
        0 <= start < ps.len(),
        exists|i: int| 0 <= i < ps.len() && #[trigger] ps[i].hand.len() > 0,
    ensures
        1 <= alive_offset(ps, start, 1) <= ps.len(),
        ps[seat(start, alive_offset(ps, start, 1), ps.len() as int)].hand.len() > 0,
        forall|m: int| 1 <= m < alive_offset(ps, start, 1) ==> ps[seat(
            start,
            m,
            ps.len() as int,
        )].hand.len() == 0,
{
    let n = ps.len() as int;
    lemma_alive_offset_rec(ps, start, 1);
    let ao = alive_offset(ps, start, 1);
    if ao == n {
        let i = choose|i: int| 0 <= i < ps.len() && #[trigger] ps[i].hand.len() > 0;
        if i != start {
            let m = if i > start {
                i - start
            } else {
                n + i - start
            };
            assert(seat(start, m, n) == i);
            assert(ps[seat(start, m, n)].hand.len() == 0);
            assert(false);
        }
        assert(seat(start, n, n) == start);
    }
}

/// Range, first-stop and all-empty-before facts about `alive_offset`,
/// generalized over the walk's starting offset.
proof fn lemma_alive_offset_rec(ps: Seq<PlayerV>, start: int, k: int)
    requires
        ps.len() > 0,
        1 <= k <= ps.len(),
    ensures
        k <= alive_offset(ps, start, k) <= ps.len(),
        alive_offset(ps, start, k) < ps.len() ==> ps[seat(
            start,
            alive_offset(ps, start, k),
            ps.len() as int,
        )].hand.len() > 0,
        forall|m: int| k <= m < alive_offset(ps, start, k) ==> ps[seat(
            start,
            m,
            ps.len() as int,
        )].hand.len() == 0,
    decreases ps.len() - k,
{
    let n = ps.len() as int;
    if k < n && ps[seat(start, k, n)].hand.len() == 0 {
        lemma_alive_offset_rec(ps, start, k + 1);
    }
}

/// Whether the hand is a pass.
fn is_pass(h: &Hand) -> (r: bool)
    ensures
        r == (*h is Pass),
{
    match h {
        Hand::Pass => true,
        _ => false,
    }
}

/// Whether the hand is a four-of-a-kind trick, the one shape that triggers
/// the reversal rule.
fn is_four_of_a_kind(h: &Hand) -> (r: bool)
    ensures
        r == (*h matches Hand::FiveCardTrick(t) && t.trick_type == TrickType::FourOfAKind),
{
    match h {
        Hand::FiveCardTrick(t) => match t.trick_type {
            TrickType::FourOfAKind => true,
            _ => false,
        },
        _ => false,
    }
}

/// Whether the submitted cards include the designated lowest card.
fn contains_lowest_card(cards: &Vec<PlayedCard>, suit0: Suit, rank0: Rank) -> (r: bool)
    ensures
        r == contains_lowest(cards@, suit0, rank0),
{
    let mut i: usize = 0;
    while i < cards.len()
        invariant
            i <= cards@.len(),
            forall|j: int|
                0 <= j < i ==> !(#[trigger] cards@[j].rank == rank0 && cards@[j].suit == suit0),
        decreases cards@.len() - i,
    {
        if cards[i].rank == rank0 && cards[i].suit == suit0 {
            return true;
        }
        i = i + 1;
    }
    false
}

/// An element-for-element copy of a played-card vector.
fn copy_played(cards: &Vec<PlayedCard>) -> (r: Vec<PlayedCard>)
    ensures
        r@ == cards@,
{
    let mut out: Vec<PlayedCard> = Vec::new();
    let mut i: usize = 0;
    while i < cards.len()
        invariant
            i <= cards@.len(),
            out@ =~= cards@.take(i as int),
        decreases cards@.len() - i,
    {
        out.push(cards[i]);
        i = i + 1;
    }
    proof {
        assert(cards@.take(cards@.len() as int) =~= cards@);
    }
    out
}

/// The player list with seat `iu` replaced.
fn replace_player(players: &Vec<Player>, iu: usize, p: &Player) -> (r: Vec<Player>)
    requires
        (iu as int) < players@.len(),
    ensures
        players_view(r@) == players_view(players@).update(iu as int, p@),
{
    let mut out: Vec<Player> = Vec::new();
    let mut i: usize = 0;
    while i < players.len()
        invariant
            i <= players@.len(),
            (iu as int) < players@.len(),
            out@.len() == i,
            forall|j: int|
                0 <= j < i && j != iu ==> #[trigger] out@[j]@ == players@[j]@,
            (iu as int) < i ==> out@[iu as int]@ == p@,
        decreases players@.len() - i,
    {
        if i == iu {
            out.push(Player::new(p.get_id(), p.get_hand()));
        } else {
            let q = &players[i];
            out.push(Player::new(q.get_id(), q.get_hand()));
        }
        i = i + 1;
    }
    proof {
        assert(players_view(out@) =~= players_view(players@).update(iu as int, p@));
    }
    out
}

/// The suit ordering reversed end-to-end.
fn reverse_suits(a: &[Suit; 4]) -> (r: [Suit; 4])
    ensures
        r@ == a@.reverse(),
{
    let r = [a[3], a[2], a[1], a[0]];
    proof {
        assert(r@ =~= a@.reverse());
    }
    r
}

/// The rank ordering reversed end-to-end.
fn reverse_ranks(a: &[Rank; 13]) -> (r: [Rank; 13])
    ensures
        r@ == a@.reverse(),
{
    let r = [
        a[12],
        a[11],
        a[10],
        a[9],
        a[8],
        a[7],
        a[6],
        a[5],
        a[4],
        a[3],
        a[2],
        a[1],
        a[0],
    ];
    proof {
        assert(r@ =~= a@.reverse());
    }
    r
}

/// Turn rotation skips empty-handed players and wraps past the last seat to
/// the first: an accepted submission hands the turn to the player found by
/// walking one seat at a time from the acting seat (wrapping around), past
/// exactly the players whose hands were empty, stopping on the first who
/// still held cards — and to nobody when the round is over.
pub proof fn lemma_turn_rotation(rv: RoundV, uid: Seq<char>, cards: Seq<PlayedCard>)
    requires
        can_submit(rv),
        submit_err(rv, uid, cards) is None,
    ensures
        ({
            let n = rv.players.len() as int;
            let iu = find_player(rv.players, uid);
            let off = alive_offset(rv.players, iu, 1);
            &&& 1 <= off <= n
            &&& rv.players[seat(iu, off, n)].hand.len() > 0
            &&& forall|m: int| 1 <= m < off ==> rv.players[seat(iu, m, n)].hand.len() == 0
            &&& (submit_result(rv, uid, cards).next_player matches Some(id) ==> id
                == rv.players[seat(iu, off, n)].id)
        }),
{
    assert(next_player_spec(rv) == Some(uid));
    assert(has_player(rv.players, uid));
    lemma_find_player(rv.players, uid);
    lemma_alive_offset(rv.players, find_player(rv.players, uid));
}

/// Round trip: an accepted submission records exactly the documented
/// transition, with no hidden state drift. The produced round's last player
/// is the acting player (unless the move was a pass, which never claims the
/// table), its last move is the submitted hand — carried over on a pass, and
/// overridden by a pass whenever the rotation walk has come back around to
/// the last player — and its next player is the player the walk stops on,
/// or nobody once fewer than two players still hold cards.
pub proof fn lemma_accepted_move_round_trip(rv: RoundV, uid: Seq<char>, cards: Seq<PlayedCard>)
    requires
        submit_err(rv, uid, cards) is None,
    ensures
        ({
            let nr = submit_result(rv, uid, cards);
            let hand = build_spec(cards).unwrap();
            let iu = find_player(rv.players, uid);
            let off = alive_offset(rv.players, iu, 1);
            let cleared = nr.last_player matches Some(l) && walk_hits(rv.players, iu, l, off);
            &&& nr.last_player == (if hand is Pass {
                rv.last_player
            } else {
                Some(uid)
            })
            &&& nr.last_move == (if cleared {
                Some(Hand::Pass)
            } else if hand is Pass {
                rv.last_move
            } else {
                Some(hand)
            })
            &&& (alive_count(nr.players) > 1 ==> nr.next_player == Some(
                rv.players[seat(iu, off, rv.players.len() as int)].id,
            ))
            &&& (alive_count(nr.players) <= 1 ==> nr.next_player is None)
            &&& nr.ruleset == rv.ruleset
        }),
{
}

/// A submission's outcome is a function of the round's value and the
/// submitted move alone: the same move submitted twice to the same round
/// yields the same outcome both times — in particular, an invalid submission
/// is rejected with the same error each time. And since `submit_move` takes
/// the round by shared reference, a rejected (or any) submission leaves the
/// round itself untouched.
pub proof fn lemma_submission_deterministic(
    rv: RoundV,
    uid: Seq<char>,
    cards: Seq<PlayedCard>,
    r1: Result<RoundV, SubmitError>,
    r2: Result<RoundV, SubmitError>,
)
    requires
        r1 == submit_outcome(rv, uid, cards),
        r2 == submit_outcome(rv, uid, cards),
    ensures
        r1 == r2,
        r1 is Err ==> r2 == r1,
{
}

/// A positive count of players with cards exhibits one.
proof fn lemma_alive_count_exists(ps: Seq<PlayerV>)
    ensures
        alive_count(ps) > 0 ==> exists|i: int| 0 <= i < ps.len() && #[trigger] ps[i].hand.len()
            > 0,
    decreases ps.len(),
{
    if ps.len() > 0 {
        lemma_alive_count_exists(ps.drop_last());
        if alive_count(ps) > 0 && ps.last().hand.len() == 0 {
            let j = choose|j: int|
                0 <= j < ps.drop_last().len() && #[trigger] ps.drop_last()[j].hand.len() > 0;
            assert(ps[j].hand.len() > 0);
        }
    }
}

/// The game can go on: when an accepted submission hands the turn to
/// somebody, the round it produces is itself ready for a submission — the
/// ids are still distinct (playing changes no id), somebody still holds
/// cards, and the recorded next player is seated.
pub proof fn lemma_game_continues(rv: RoundV, uid: Seq<char>, cards: Seq<PlayedCard>)
    requires
        can_submit(rv),
        submit_err(rv, uid, cards) is None,
        submit_result(rv, uid, cards).next_player is Some,
    ensures
        can_submit(submit_result(rv, uid, cards)),
{
    let nr = submit_result(rv, uid, cards);
    let n = rv.players.len() as int;
    let iu = find_player(rv.players, uid);
    lemma_find_player(rv.players, uid);
    assert(forall|i: int| 0 <= i < n ==> #[trigger] nr.players[i].id == rv.players[i].id);
    lemma_alive_count_exists(nr.players);
    let off = alive_offset(rv.players, iu, 1);
    let s0 = seat(iu, off, n);
    lemma_alive_offset(rv.players, iu);
    assert(0 <= s0 < n);
    let next_id = rv.players[s0].id;
    assert(next_player_spec(nr) == Some(next_id));
    lemma_find_player(nr.players, next_id);
    if find_player(nr.players, next_id) >= n {
        assert(nr.players[s0].id != next_id);
        assert(false);
    }
}

} // verus!
