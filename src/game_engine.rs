use vstd::prelude::*;

use crate::card::{Card, CardSuit, CardValue};
use crate::state::{MatchData, MatchStatus, MatchView, PlayerView};

verus! {

/// The rules of the game, as functions over cards and match states.
pub struct GameEngine;

/// What a card does when it is played.
#[derive(Debug, Clone, Copy, PartialEq, Eq, Structural)]
pub enum SpecialEffect {
    Plain,
    ChooseShape,
    PlayAgain,
    DrawTwo,
    DrawThree,
    SkipNext,
    AllDrawOne,
}

/// How a match ended.
#[derive(Debug, Clone, Copy, PartialEq, Eq, Structural)]
pub enum GameResult {
    Winner(usize),
    Draw,
}

/// Whether `card` may be played on `top`, given the suit demanded by an
/// earlier wild card and the penalty that is still owed.
pub open spec fn valid_play(card: Card, top: Card, demand: Option<CardSuit>, penalty: u8) -> bool {
    if card.value == CardValue::Whot {
        true
    } else if penalty > 0 {
        ||| top.value == CardValue::PickTwo && card.value == CardValue::PickTwo
        ||| top.value == CardValue::PickThree && card.value == CardValue::PickThree
    } else {
        match demand {
            Some(s) => card.suit == s,
            None => card.suit == top.suit || card.value == top.value,
        }
    }
}

/// The effect of a card of value `v`.
pub open spec fn effect_of(v: CardValue) -> SpecialEffect {
    match v {
        CardValue::Whot => SpecialEffect::ChooseShape,
        CardValue::HoldOn => SpecialEffect::PlayAgain,
        CardValue::PickTwo => SpecialEffect::DrawTwo,
        CardValue::PickThree => SpecialEffect::DrawThree,
        CardValue::Suspension => SpecialEffect::SkipNext,
        CardValue::GeneralMarket => SpecialEffect::AllDrawOne,
        _ => SpecialEffect::Plain,
    }
}

/// `m` with the turn passed to the next player in join order, wrapping
/// around after the last one; an empty roster keeps its index.
pub open spec fn advanced(m: MatchView) -> MatchView {
    if m.players.len() > 0 {
        MatchView {
            current_player_index: ((m.current_player_index + 1) % (m.players.len() as int)) as usize,
            ..m
        }
    } else {
        m
    }
}

/// `m` after the state change that `e` makes by itself.
pub open spec fn effect_applied(m: MatchView, e: SpecialEffect, chosen: Option<CardSuit>) -> MatchView {
    match e {
        SpecialEffect::ChooseShape => match chosen {
            Some(s) => MatchView { active_shape_demand: Some(s), ..m },
            None => m,
        },
        SpecialEffect::DrawTwo => MatchView { pending_penalty: 2, ..m },
        SpecialEffect::DrawThree => MatchView { pending_penalty: 3, ..m },
        SpecialEffect::SkipNext => advanced(m),
        SpecialEffect::Plain => MatchView { active_shape_demand: None, ..m },
        SpecialEffect::PlayAgain => m,
        SpecialEffect::AllDrawOne => m,
    }
}

/// The first index from `i` on of an active player holding `c` cards.
pub open spec fn first_active_with(ps: Seq<PlayerView>, c: nat, i: int) -> Option<usize>
    decreases ps.len() - i,
{
    if i < 0 || i >= ps.len() {
        None
    } else if ps[i].is_active && ps[i].card_count == c {
        Some(i as usize)
    } else {
        first_active_with(ps, c, i + 1)
    }
}

/// The smaller of two optional counts, `None` standing for no count.
pub open spec fn min_count(a: Option<nat>, b: Option<nat>) -> Option<nat> {
    match (a, b) {
        (Some(x), Some(y)) => Some(if x <= y { x } else { y }),
        (Some(x), None) => Some(x),
        (None, _) => b,
    }
}

/// The fewest cards held by an active player from index `i` on.
pub open spec fn fewest_active_from(ps: Seq<PlayerView>, i: int) -> Option<nat>
    decreases ps.len() - i,
{
    if i < 0 || i >= ps.len() {
        None
    } else if ps[i].is_active {
        min_count(Some(ps[i].card_count), fewest_active_from(ps, i + 1))
    } else {
        fewest_active_from(ps, i + 1)
    }
}

/// The end-of-match verdict on `m`: the first active player with an empty
/// hand wins; failing that, once the deck is empty during play, the first
/// active player with the fewest cards wins.
pub open spec fn game_end(m: MatchView) -> Option<GameResult> {
    match first_active_with(m.players, 0, 0) {
        Some(i) => Some(GameResult::Winner(i)),
        None => if m.deck.len() == 0 && m.status == MatchStatus::InProgress {
            match fewest_active_from(m.players, 0) {
                Some(c) => match first_active_with(m.players, c, 0) {
                    Some(i) => Some(GameResult::Winner(i)),
                    None => None,
                },
                None => None,
            }
        } else {
            None
        },
    }
}

/// A winner named by `first_active_with` is an active player with that count.
pub proof fn lemma_first_active_with(ps: Seq<PlayerView>, c: nat, i: int)
    requires
        0 <= i,
        ps.len() <= usize::MAX,
    ensures
        first_active_with(ps, c, i) matches Some(w) ==> {
            &&& i <= w < ps.len()
            &&& ps[w as int].is_active
            &&& ps[w as int].card_count == c
            &&& forall|j: int| i <= j < w ==> !(#[trigger] ps[j].is_active && ps[j].card_count == c)
        },
        first_active_with(ps, c, i) is None ==> forall|j: int|
            i <= j < ps.len() ==> !(#[trigger] ps[j].is_active && ps[j].card_count == c),
    decreases ps.len() - i,
{
    if i < ps.len() {
        lemma_first_active_with(ps, c, i + 1);
    }
}

impl GameEngine {
    /// Whether `card` may be played on `top_card`.
    pub fn is_valid_play(
        card: &Card,
        top_card: &Card,
        active_demand: Option<CardSuit>,
        pending_penalty: u8,
    ) -> (r: bool)
        ensures
            r == valid_play(*card, *top_card, active_demand, pending_penalty),
    {
        if card.value == CardValue::Whot {
            return true;
        }
        if pending_penalty > 0 {
            return match top_card.value {
                CardValue::PickTwo => card.value == CardValue::PickTwo,
                CardValue::PickThree => card.value == CardValue::PickThree,
                _ => false,
            };
        }
        if let Some(demanded_suit) = active_demand {
            return card.suit == demanded_suit;
        }
        card.suit == top_card.suit || card.value == top_card.value
    }

    /// The effect of playing `card`.
    pub fn get_card_effect(card: &Card) -> (r: SpecialEffect)
        ensures
            r == effect_of(card.value),
    {
        match card.value {
            CardValue::Whot => SpecialEffect::ChooseShape,
            CardValue::HoldOn => SpecialEffect::PlayAgain,
            CardValue::PickTwo => SpecialEffect::DrawTwo,
            CardValue::PickThree => SpecialEffect::DrawThree,
            CardValue::Suspension => SpecialEffect::SkipNext,
            CardValue::GeneralMarket => SpecialEffect::AllDrawOne,
            _ => SpecialEffect::Plain,
        }
    }

    /// Makes the state change that `effect` makes by itself. A wild card
    /// sets the demanded suit when one is chosen; a penalty card sets the
    /// penalty, replacing the one owed; a suspension passes the turn once; an
    /// ordinary card clears the demanded suit.
    pub fn apply_effect(state: &mut MatchData, effect: SpecialEffect, chosen_suit: Option<CardSuit>)
        ensures
            final(state)@ == effect_applied(old(state)@, effect, chosen_suit),
    {
        match effect {
            SpecialEffect::ChooseShape => {
                if let Some(suit) = chosen_suit {
                    state.active_shape_demand = Some(suit);
                }
            },
            SpecialEffect::PlayAgain => {},
            SpecialEffect::DrawTwo => {
                state.pending_penalty = 2;
            },
            SpecialEffect::DrawThree => {
                state.pending_penalty = 3;
            },
            SpecialEffect::SkipNext => {
                Self::advance_turn(state);
            },
            SpecialEffect::AllDrawOne => {},
            SpecialEffect::Plain => {
                state.active_shape_demand = None;
            },
        }
    }

    /// Passes the turn to the next player.
    pub fn advance_turn(state: &mut MatchData)
        ensures
            final(state)@ == advanced(old(state)@),
    {
        let n = state.players.len();
        if n > 0 {
            let next = state.current_player_index % n + 1;
            proof {
                let c = state.current_player_index as int;
                vstd::arithmetic::div_mod::lemma_add_mod_noop(c, 1, n as int);
                vstd::arithmetic::div_mod::lemma_mod_bound(c, n as int);
                if n > 1 {
                    vstd::arithmetic::div_mod::lemma_small_mod(1, n as nat);
                } else {
                    assert((c % 1) == 0);
                    assert((c + 1) % 1 == 0);
                }
            }
            state.current_player_index = next % n;
        }
    }

    /// The first active player holding `c` cards, if any.
    fn first_active_holding(state: &MatchData, c: usize) -> (r: Option<usize>)
        ensures
            r == first_active_with(state@.players, c as nat, 0),
    {
        let n = state.players.len();
        let mut i: usize = 0;
        while i < n
            invariant
                n == state@.players.len(),
                i <= n,
                first_active_with(state@.players, c as nat, 0) == first_active_with(state@.players, c as nat, i as int),
            decreases n - i,
        {
            if state.players[i].is_active && state.players[i].card_count == c {
                return Some(i);
            }
            i = i + 1;
        }
        None
    }

    /// The end-of-match verdict on `state`, if the match has ended.
    pub fn check_game_end(state: &MatchData) -> (r: Option<GameResult>)
        ensures
            r == game_end(state@),
    {
        if let Some(i) = Self::first_active_holding(state, 0) {
            return Some(GameResult::Winner(i));
        }
        if state.deck.len() == 0 && state.status == MatchStatus::InProgress {
            let n = state.players.len();
            let ghost ps = state@.players;
            let mut found = false;
            let mut best: usize = 0;
            let mut i: usize = 0;
            while i < n
                invariant
                    n == ps.len(),
                    ps == state@.players,
                    i <= n,
                    min_count(if found { Some(best as nat) } else { None }, fewest_active_from(ps, i as int))
                        == fewest_active_from(ps, 0),
                decreases n - i,
            {
                let p = &state.players[i];
                if p.is_active && (!found || p.card_count < best) {
                    found = true;
                    best = p.card_count;
                }
                i = i + 1;
            }
            if found {
                if let Some(w) = Self::first_active_holding(state, best) {
                    return Some(GameResult::Winner(w));
                }
            }
        }
        None
    }
}

} // verus!
