//! Rules engine for Linot, a shedding card game of the Whot family.
//!
//! The engine is a pure function from a match state, an operation and its
//! caller to a new state or an error that leaves the state untouched.

pub mod card;
pub mod contract;
pub mod deck;
pub mod game_engine;
pub mod laws;
pub mod moves;
pub mod service;
pub mod state;

use vstd::prelude::*;

use crate::card::{Card, CardSuit};
use crate::state::Owner;

verus! {

/// Why an operation was refused.
#[derive(Debug, Clone, Copy, PartialEq, Eq, Structural)]
pub enum LinotError {
    MatchAlreadyStarted,
    MatchNotStarted,
    MatchFull(u8),
    PlayerAlreadyJoined,
    OnlyHostCanStart,
    NotEnoughPlayers(usize),
    NotYourTurn,
    InvalidCardIndex(usize),
    InvalidCardPlay,
    InvalidPlayerIndex(usize),
    MatchNotInProgress,
    NoCardInDiscardPile,
    BettingNotImplemented,
    CallerRequired,
}

/// Marker for the application's interface: operations in, unit out.
pub struct LinotAbi;

/// The operations a caller can submit against one match.
#[derive(Debug)]
pub enum Operation {
    JoinMatch { nickname: String },
    StartMatch,
    PlayCard { card_index: usize, chosen_suit: Option<CardSuit> },
    DrawCard,
    CallLastCard,
    ChallengeLastCard { player_index: usize },
    LeaveMatch,
    PlaceBet { player_index: usize, amount: u64 },
}

/// Messages between chains.
#[derive(Debug)]
pub enum Message {
    InvitePlayer { inviter: Owner, match_id: String },
    PlayerJoined { player: Owner, nickname: String },
    StateUpdate { current_player: Owner, top_card: Card },
}

} // verus!
