//! Rules engine for a Big-Two-family ("Pusoy Dos") shedding card game.
//!
//! The engine classifies a submitted set of played cards into a typed hand,
//! decides whether a submission is a legal move against the table's standing
//! play, and advances the round's turn state: rotating past empty-handed
//! players, recording the last accepted move, clearing the table when play
//! has passed back around to the last player, and reversing the active
//! rank/suit precedence when the ruleset calls for it.
//!
//! Every state transition is a pure function: `Round::submit_move` takes the
//! round by reference and returns a fresh `Round` value, so earlier snapshots
//! are never disturbed.

pub mod cards;
pub mod compare;
pub mod hands;
pub mod player;
pub mod round;
