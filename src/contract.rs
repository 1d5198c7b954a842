use vstd::prelude::*;

use crate::card::{standard_deck, Card, CardSuit, DECK_SIZE};
use crate::deck::{cards_in, dealt_total, is_dealt, lemma_shuffled_len, shuffled};
use crate::game_engine::{
    advanced, effect_applied, effect_of, fewest_active_from, game_end, lemma_first_active_with,
    valid_play, GameEngine, GameResult, SpecialEffect,
};
use crate::moves::{
    draw_into, keeps, lemma_draw_into, lemma_market_from, lemma_pop_into, market_from, pop_into,
    round_seed,
};
use crate::state::{
    counts_match, hand_total, lemma_hand_total_push, lemma_hand_total_update, lemma_hand_total_zero,
    without_card, LinotState, MatchConfig, MatchData, MatchStatus, MatchView, Owner, Player,
    PlayerView,
};
use crate::{LinotError, Message, Operation};

verus! {

/// Smallest roster with which a match can start.
pub const MIN_PLAYERS: usize = 2;

/// One match together with the identifier of the chain it lives on, whose
/// bytes seed every shuffle.
pub struct LinotContract {
    pub state: LinotState,
    pub chain_id: Vec<u8>,
}

/// The first index from `i` on of a player owned by `o`.
pub open spec fn owner_index(ps: Seq<PlayerView>, o: Seq<u8>, i: int) -> Option<usize>
    decreases ps.len() - i,
{
    if i < 0 || i >= ps.len() {
        None
    } else if ps[i].owner == o {
        Some(i as usize)
    } else {
        owner_index(ps, o, i + 1)
    }
}

/// The first index from `i` on of an active player.
pub open spec fn first_active(ps: Seq<PlayerView>, i: int) -> Option<usize>
    decreases ps.len() - i,
{
    if i < 0 || i >= ps.len() {
        None
    } else if ps[i].is_active {
        Some(i as usize)
    } else {
        first_active(ps, i + 1)
    }
}

/// The number of active players from index `i` on.
pub open spec fn active_count(ps: Seq<PlayerView>, i: int) -> nat
    decreases ps.len() - i,
{
    if i < 0 || i >= ps.len() {
        0
    } else {
        (if ps[i].is_active { 1nat } else { 0nat }) + active_count(ps, i + 1)
    }
}

/// The host's bytes, if a host is configured.
pub open spec fn host_of(cfg: MatchConfig) -> Option<Seq<u8>> {
    match cfg.host {
        Some(h) => Some(h@),
        None => None,
    }
}

pub open spec fn join_outcome(m: MatchView, max_players: u8, caller: Seq<u8>) -> Result<(), LinotError> {
    if m.status != MatchStatus::Waiting {
        Err(LinotError::MatchAlreadyStarted)
    } else if m.players.len() >= max_players {
        Err(LinotError::MatchFull(max_players))
    } else if owner_index(m.players, caller, 0) is Some {
        Err(LinotError::PlayerAlreadyJoined)
    } else {
        Ok(())
    }
}

/// `m` with a new active player, holding no cards, at the end of the roster.
pub open spec fn joined(m: MatchView, caller: Seq<u8>, nickname: Seq<char>) -> MatchView {
    MatchView {
        players: m.players.push(
            PlayerView {
                owner: caller,
                nickname,
                cards: Seq::empty(),
                is_active: true,
                card_count: 0,
                called_last_card: false,
            },
        ),
        ..m
    }
}

pub open spec fn start_outcome(m: MatchView, host: Option<Seq<u8>>, caller: Seq<u8>) -> Result<(), LinotError> {
    if host != Some(caller) {
        Err(LinotError::OnlyHostCanStart)
    } else if m.players.len() < MIN_PLAYERS {
        Err(LinotError::NotEnoughPlayers(MIN_PLAYERS))
    } else if m.status != MatchStatus::Waiting {
        Err(LinotError::MatchAlreadyStarted)
    } else {
        Ok(())
    }
}

/// The deck left once a fresh deck, shuffled with `chain`, has been dealt
/// to `n` players.
pub open spec fn undealt(chain: Seq<u8>, n: int) -> Seq<Card> {
    let d = shuffled(standard_deck(), chain);
    d.take(d.len() - dealt_total(d.len() as int, n))
}

/// `m2` is `m` once started: the fresh deck is shuffled with the chain's
/// bytes, dealt round robin from its tail, its next card opens the discard
/// pile, and player 0 is to move.
pub open spec fn started(m: MatchView, m2: MatchView, chain: Seq<u8>) -> bool {
    let d = shuffled(standard_deck(), chain);
    let n = m.players.len() as int;
    let rest = undealt(chain, n);
    &&& d.len() == DECK_SIZE
    &&& m2.players.len() == n
    &&& forall|q: int|
        0 <= q < n ==> #[trigger] m2.players[q] == (PlayerView {
            cards: m2.players[q].cards,
            card_count: m2.players[q].cards.len(),
            ..m.players[q]
        })
    &&& forall|q: int, k: int|
        0 <= q < n && 0 <= k ==> (k < m2.players[q].cards.len() <==> is_dealt(DECK_SIZE as int, n, q, k))
    &&& forall|q: int, k: int|
        0 <= q < n && 0 <= k < m2.players[q].cards.len() ==> m2.players[q].cards[k] == d[DECK_SIZE - 1 - (k * n + q)]
    &&& rest.len() > 0 ==> m2.deck == rest.drop_last() && m2.discard_pile == m.discard_pile.push(rest.last())
    &&& rest.len() == 0 ==> m2.deck == rest && m2.discard_pile == m.discard_pile
    &&& m2.status == MatchStatus::InProgress
    &&& m2.current_player_index == 0
    &&& m2.winner_index == m.winner_index
    &&& m2.round_number == m.round_number
    &&& m2.created_at == m.created_at
    &&& m2.active_shape_demand == m.active_shape_demand
    &&& m2.pending_penalty == m.pending_penalty
}

pub open spec fn play_outcome(m: MatchView, caller: Seq<u8>, idx: usize) -> Result<(), LinotError> {
    if m.status != MatchStatus::InProgress {
        Err(LinotError::MatchNotInProgress)
    } else if m.current().owner != caller {
        Err(LinotError::NotYourTurn)
    } else if idx >= m.current().cards.len() {
        Err(LinotError::InvalidCardIndex(idx))
    } else if m.discard_pile.len() == 0 {
        Err(LinotError::NoCardInDiscardPile)
    } else if !valid_play(m.current().cards[idx as int], m.top_card(), m.active_shape_demand, m.pending_penalty) {
        Err(LinotError::InvalidCardPlay)
    } else {
        Ok(())
    }
}

/// `m` with the verdict of the end-of-match check recorded.
pub open spec fn with_verdict(m: MatchView) -> MatchView {
    match game_end(m) {
        Some(GameResult::Winner(w)) => MatchView { winner_index: Some(w), status: MatchStatus::Finished, ..m },
        Some(GameResult::Draw) => MatchView { status: MatchStatus::Finished, ..m },
        None => m,
    }
}

/// `m` after the current player plays the card at `idx` of its hand: the
/// card moves to the discard pile, a last card is declared automatically,
/// the card's effect is applied, the match may end, a general market deals
/// one card to each other player, and the turn passes (not at all after a
/// hold-on, twice more after a suspension).
pub open spec fn played(m: MatchView, idx: int, chosen: Option<CardSuit>) -> MatchView {
    let c = m.current_player_index as int;
    let card = m.players[c].cards[idx];
    let less = without_card(m.players[c], idx);
    let declared = if less.card_count == 1 && !less.called_last_card {
        PlayerView { called_last_card: true, ..less }
    } else {
        less
    };
    let m1 = MatchView {
        players: m.players.update(c, declared),
        discard_pile: m.discard_pile.push(card),
        ..m
    };
    let e = effect_of(card.value);
    let m3 = with_verdict(effect_applied(m1, e, chosen));
    let m4 = if e == SpecialEffect::AllDrawOne {
        market_from(m3, 0)
    } else {
        m3
    };
    if e == SpecialEffect::PlayAgain {
        m4
    } else if e == SpecialEffect::SkipNext {
        advanced(advanced(m4))
    } else {
        advanced(m4)
    }
}

pub open spec fn draw_outcome(m: MatchView, caller: Seq<u8>) -> Result<(), LinotError> {
    if m.status != MatchStatus::InProgress {
        Err(LinotError::MatchNotInProgress)
    } else if m.current().owner != caller {
        Err(LinotError::NotYourTurn)
    } else {
        Ok(())
    }
}

/// Cards the current player must draw: the whole penalty if one is owed,
/// else one.
pub open spec fn draw_count(m: MatchView) -> nat {
    if m.pending_penalty > 0 {
        m.pending_penalty as nat
    } else {
        1
    }
}

/// `m` after the current player draws: the penalty is cleared in full, the
/// cards are drawn, the demanded suit is cleared and the turn passes once.
pub open spec fn drawn(m: MatchView, chain: Seq<u8>) -> MatchView {
    let m1 = MatchView { pending_penalty: 0, ..m };
    let m2 = draw_into(m1, m.current_player_index as int, draw_count(m), chain);
    advanced(MatchView { active_shape_demand: None, ..m2 })
}

/// `m` with the last-card flag set on the first player owned by `caller`.
pub open spec fn called_last(m: MatchView, caller: Seq<u8>) -> MatchView {
    match owner_index(m.players, caller, 0) {
        Some(i) => MatchView {
            players: m.players.update(i as int, PlayerView { called_last_card: true, ..m.players[i as int] }),
            ..m
        },
        None => m,
    }
}

pub open spec fn challenge_outcome(m: MatchView, i: usize) -> Result<(), LinotError> {
    if i >= m.players.len() {
        Err(LinotError::InvalidPlayerIndex(i))
    } else {
        Ok(())
    }
}

/// `m` after a challenge of player `i`: one who holds a single card without
/// having declared it takes up to two cards from the deck.
pub open spec fn challenged(m: MatchView, i: int) -> MatchView {
    if m.players[i].card_count == 1 && !m.players[i].called_last_card {
        pop_into(m, i, 2)
    } else {
        m
    }
}

/// `m` after `caller` leaves: its first seat turns inactive, and if a single
/// active player is left, that player wins.
pub open spec fn left(m: MatchView, caller: Seq<u8>) -> MatchView {
    let m1 = match owner_index(m.players, caller, 0) {
        Some(i) => MatchView {
            players: m.players.update(i as int, PlayerView { is_active: false, ..m.players[i as int] }),
            ..m
        },
        None => m,
    };
    if active_count(m1.players, 0) == 1 {
        match first_active(m1.players, 0) {
            Some(w) => MatchView { winner_index: Some(w), status: MatchStatus::Finished, ..m1 },
            None => m1,
        }
    } else {
        m1
    }
}

/// Everything but the match data is the same in `a` and `b`.
pub open spec fn same_setting(a: LinotContract, b: LinotContract) -> bool {
    &&& a.state.config == b.state.config
    &&& a.state.betting_pool == b.state.betting_pool
    &&& a.chain_id == b.chain_id
}


/// Hands of the same sizes hold the same number of cards.
pub proof fn lemma_hand_total_matches(ps: Seq<PlayerView>, hs: Seq<Vec<Card>>)
    requires
        ps.len() == hs.len(),
        forall|q: int| 0 <= q < ps.len() ==> #[trigger] ps[q].cards.len() == hs[q]@.len(),
    ensures
        hand_total(ps) == cards_in(hs),
    decreases ps.len(),
{
    if ps.len() > 0 {
        lemma_hand_total_matches(ps.drop_last(), hs.drop_last());
    }
}

pub proof fn lemma_advanced_keeps(m: MatchView)
    requires
        m.wf(),
    ensures
        keeps(m, advanced(m)),
        advanced(m).players.len() == m.players.len(),
        advanced(m).status == m.status,
{
    if m.players.len() > 0 {
        let n = m.players.len() as int;
        vstd::arithmetic::div_mod::lemma_mod_bound(m.current_player_index + 1, n);
    }
}

pub proof fn lemma_effect_keeps(m: MatchView, e: SpecialEffect, chosen: Option<CardSuit>)
    requires
        m.wf(),
    ensures
        keeps(m, effect_applied(m, e, chosen)),
        effect_applied(m, e, chosen).players.len() == m.players.len(),
        effect_applied(m, e, chosen).status == m.status,
{
    lemma_advanced_keeps(m);
}

pub proof fn lemma_verdict_keeps(m: MatchView)
    requires
        m.wf(),
        m.status != MatchStatus::Waiting,
        m.players.len() <= usize::MAX,
    ensures
        keeps(m, with_verdict(m)),
        with_verdict(m).players.len() == m.players.len(),
        with_verdict(m).status != MatchStatus::Waiting,
{
    lemma_first_active_with(m.players, 0, 0);
    match fewest_active_from(m.players, 0) {
        Some(c) => lemma_first_active_with(m.players, c, 0),
        None => {},
    }
}

/// A legal play keeps the invariant and the number of cards.
pub proof fn lemma_played_keeps(m: MatchView, caller: Seq<u8>, idx: usize, chosen: Option<CardSuit>)
    requires
        m.wf(),
        m.players.len() <= usize::MAX,
        play_outcome(m, caller, idx) is Ok,
    ensures
        keeps(m, played(m, idx as int, chosen)),
{
    let c = m.current_player_index as int;
    let card = m.players[c].cards[idx as int];
    let less = without_card(m.players[c], idx as int);
    let declared = if less.card_count == 1 && !less.called_last_card {
        PlayerView { called_last_card: true, ..less }
    } else {
        less
    };
    let m1 = MatchView { players: m.players.update(c, declared), discard_pile: m.discard_pile.push(card), ..m };
    lemma_hand_total_update(m.players, c, declared);
    assert(counts_match(m1.players)) by {
        assert forall|j: int| 0 <= j < m1.players.len() implies #[trigger] m1.players[j].card_count
            == m1.players[j].cards.len() by {
            assert(m.players[j].card_count == m.players[j].cards.len());
        }
    }
    assert(keeps(m, m1));
    let e = effect_of(card.value);
    let m2 = effect_applied(m1, e, chosen);
    lemma_effect_keeps(m1, e, chosen);
    let m3 = with_verdict(m2);
    lemma_verdict_keeps(m2);
    let m4 = if e == SpecialEffect::AllDrawOne {
        market_from(m3, 0)
    } else {
        m3
    };
    lemma_market_from(m3, 0);
    lemma_advanced_keeps(m4);
    lemma_advanced_keeps(advanced(m4));
}

/// A draw keeps the invariant and the number of cards.
pub proof fn lemma_drawn_keeps(m: MatchView, caller: Seq<u8>, chain: Seq<u8>)
    requires
        m.wf(),
        m.discard_pile.len() <= usize::MAX,
        draw_outcome(m, caller) is Ok,
    ensures
        keeps(m, drawn(m, chain)),
{
    let m1 = MatchView { pending_penalty: 0, ..m };
    lemma_draw_into(m1, m.current_player_index as int, draw_count(m), chain);
    let m2 = draw_into(m1, m.current_player_index as int, draw_count(m), chain);
    lemma_advanced_keeps(MatchView { active_shape_demand: None, ..m2 });
}


/// `r` and `c2` are what operation `op` from `caller` makes of `c`.
pub open spec fn operation_done(
    c: LinotContract,
    c2: LinotContract,
    caller: Option<Owner>,
    op: Operation,
    r: Result<(), LinotError>,
) -> bool {
    let m = c.match_view();
    let m2 = c2.match_view();
    match caller {
        None => r == Err::<(), LinotError>(LinotError::CallerRequired) && m2 == m,
        Some(who) => {
            let w = who@;
            match op {
                Operation::JoinMatch { nickname } => {
                    &&& r == join_outcome(m, c.state.config.max_players, w)
                    &&& r is Ok ==> m2 == joined(m, w, nickname@)
                    &&& r is Err ==> m2 == m
                },
                Operation::StartMatch => {
                    &&& r == start_outcome(m, host_of(c.state.config), w)
                    &&& r is Ok ==> started(m, m2, c.chain_id@)
                    &&& r is Err ==> m2 == m
                },
                Operation::PlayCard { card_index, chosen_suit } => {
                    &&& r == play_outcome(m, w, card_index)
                    &&& r is Ok ==> m2 == played(m, card_index as int, chosen_suit)
                    &&& r is Err ==> m2 == m
                },
                Operation::DrawCard => {
                    &&& r == draw_outcome(m, w)
                    &&& r is Ok ==> m2 == drawn(m, c.chain_id@)
                    &&& r is Err ==> m2 == m
                },
                Operation::CallLastCard => r is Ok && m2 == called_last(m, w),
                Operation::ChallengeLastCard { player_index } => {
                    &&& r == challenge_outcome(m, player_index)
                    &&& r is Ok ==> m2 == challenged(m, player_index as int)
                    &&& r is Err ==> m2 == m
                },
                Operation::LeaveMatch => r is Ok && m2 == left(m, w),
                Operation::PlaceBet { .. } => r == Err::<(), LinotError>(LinotError::BettingNotImplemented) && m2 == m,
            }
        },
    }
}

/// `c2` is what message `msg` makes of `c`: only a remote join changes the
/// match, exactly as a local join would.
pub open spec fn message_done(c: LinotContract, c2: LinotContract, msg: Message) -> bool {
    let m = c.match_view();
    let m2 = c2.match_view();
    match msg {
        Message::PlayerJoined { player, nickname } => {
            &&& join_outcome(m, c.state.config.max_players, player@) is Ok ==> m2 == joined(m, player@, nickname@)
            &&& join_outcome(m, c.state.config.max_players, player@) is Err ==> m2 == m
        },
        _ => m2 == m,
    }
}

impl LinotContract {
    /// The match data as a mathematical value.
    pub open spec fn match_view(self) -> MatchView {
        self.state.match_data@
    }

    /// First index of a player owned by `o`, if any.
    fn find_owner(m: &MatchData, o: &Owner) -> (r: Option<usize>)
        ensures
            r == owner_index(m@.players, o@, 0),
            r matches Some(i) ==> i < m@.players.len(),
    {
        let n = m.players.len();
        let mut i: usize = 0;
        while i < n
            invariant
                n == m@.players.len(),
                i <= n,
                owner_index(m@.players, o@, 0) == owner_index(m@.players, o@, i as int),
            decreases n - i,
        {
            if m.players[i].owner.same_as(o) {
                return Some(i);
            }
            i = i + 1;
        }
        None
    }

    /// A new match in `Waiting`, with no players. Without a configured host,
    /// the signer of the creating call becomes the host.
    pub fn instantiate(config: MatchConfig, signer: Option<Owner>, created_at: u64, chain_id: Vec<u8>) -> (r: LinotContract)
        ensures
            r.state.config.max_players == config.max_players,
            r.state.config.is_ranked == config.is_ranked,
            r.state.config.strict_mode == config.strict_mode,
            config.host is Some ==> host_of(r.state.config) == host_of(config),
            config.host is None ==> host_of(r.state.config) == (match signer {
                Some(s) => Some(s@),
                None => None::<Seq<u8>>,
            }),
            r.match_view().players.len() == 0,
            r.match_view().status == MatchStatus::Waiting,
            r.match_view().created_at == created_at,
            r.match_view().deck.len() == 0,
            r.match_view().discard_pile.len() == 0,
            r.match_view().current_player_index == 0,
            r.match_view().winner_index is None,
            r.match_view().round_number == 0,
            r.match_view().active_shape_demand is None,
            r.match_view().pending_penalty == 0,
            r.match_view().wf(),
            r.state.betting_pool is None,
            r.chain_id@ == chain_id@,
    {
        let mut config = config;
        if config.host.is_none() {
            config.host = signer;
        }
        let mut match_data = MatchData::default();
        match_data.created_at = created_at;
        match_data.status = MatchStatus::Waiting;
        LinotContract {
            state: LinotState { config, match_data, betting_pool: None },
            chain_id,
        }
    }

    /// Adds `caller` to a waiting match that has room and that `caller` has
    /// not joined yet.
    pub fn handle_join_match(&mut self, caller: Owner, nickname: String) -> (r: Result<(), LinotError>)
        requires
            old(self).match_view().wf(),
        ensures
            r == join_outcome(old(self).match_view(), old(self).state.config.max_players, caller@),
            r is Ok ==> final(self).match_view() == joined(old(self).match_view(), caller@, nickname@),
            r is Err ==> final(self).match_view() == old(self).match_view(),
            same_setting(*old(self), *final(self)),
            keeps(old(self).match_view(), final(self).match_view()),
    {
        if self.state.match_data.status != MatchStatus::Waiting {
            return Err(LinotError::MatchAlreadyStarted);
        }
        let max_players = self.state.config.max_players;
        if self.state.match_data.players.len() >= max_players as usize {
            return Err(LinotError::MatchFull(max_players));
        }
        if Self::find_owner(&self.state.match_data, &caller).is_some() {
            return Err(LinotError::PlayerAlreadyJoined);
        }
        let ghost before = self.match_view();
        let ghost who = caller@;
        let ghost nick = nickname@;
        self.state.match_data.players.push(Player::new(caller, nickname));
        proof {
            let after = joined(before, who, nick);
            assert(self.match_view().players =~= after.players);
            lemma_hand_total_push(before.players, after.players.last());
        }
        Ok(())
    }

    /// Starts a waiting match on behalf of its host once enough players have
    /// joined: shuffles a fresh deck with the chain's bytes, deals the hands,
    /// opens the discard pile and gives the turn to player 0.
    pub fn handle_start_match(&mut self, caller: &Owner) -> (r: Result<(), LinotError>)
        requires
            old(self).match_view().wf(),
        ensures
            r == start_outcome(old(self).match_view(), host_of(old(self).state.config), caller@),
            r is Ok ==> started(old(self).match_view(), final(self).match_view(), old(self).chain_id@),
            r is Ok ==> final(self).match_view().total_cards() == DECK_SIZE,
            r is Err ==> final(self).match_view() == old(self).match_view(),
            same_setting(*old(self), *final(self)),
            final(self).match_view().wf(),
    {
        let is_host = match &self.state.config.host {
            Some(h) => h.same_as(caller),
            None => false,
        };
        if !is_host {
            return Err(LinotError::OnlyHostCanStart);
        }
        if self.state.match_data.players.len() < MIN_PLAYERS {
            return Err(LinotError::NotEnoughPlayers(MIN_PLAYERS));
        }
        if self.state.match_data.status != MatchStatus::Waiting {
            return Err(LinotError::MatchAlreadyStarted);
        }
        let ghost before = self.match_view();
        let mut deck = GameEngine::create_deck();
        GameEngine::shuffle_with_seed(&mut deck, self.chain_id.as_slice());
        proof {
            lemma_shuffled_len(standard_deck(), self.chain_id@);
        }
        let ghost d = deck@;
        let n = self.state.match_data.players.len();
        let mut hands = GameEngine::deal_initial_hands(&mut deck, n);
        let ghost dealt = hands@;
        let mut q: usize = 0;
        while q < n
            invariant
                n == before.players.len(),
                q <= n,
                hands@.len() == n,
                dealt.len() == n,
                self.match_view().players.len() == n,
                forall|p: int| q <= p < n ==> #[trigger] hands@[p] == dealt[p],
                forall|p: int|
                    0 <= p < q ==> #[trigger] self.match_view().players[p] == (PlayerView {
                        cards: dealt[p]@,
                        card_count: dealt[p]@.len(),
                        ..before.players[p]
                    }),
                forall|p: int| q <= p < n ==> #[trigger] self.match_view().players[p] == before.players[p],
                self.match_view() == (MatchView { players: self.match_view().players, ..before }),
                same_setting(*old(self), *self),
            decreases n - q,
        {
            let ghost prev = self.match_view().players;
            assert(prev[q as int] == before.players[q as int]);
            assert(hands@[q as int] == dealt[q as int]);
            let mut hand: Vec<Card> = Vec::new();
            hands.set_and_swap(q, &mut hand);
            let mut seat = Player::vacant();
            self.state.match_data.players.set_and_swap(q, &mut seat);
            seat.cards = hand;
            seat.update_card_count();
            assert(seat@ == PlayerView { cards: dealt[q as int]@, card_count: dealt[q as int]@.len(), ..before.players[q as int] });
            self.state.match_data.players.set_and_swap(q, &mut seat);
            proof {
                assert(self.match_view().players =~= prev.update(
                    q as int,
                    PlayerView { cards: dealt[q as int]@, card_count: dealt[q as int]@.len(), ..before.players[q as int] },
                ));
            }
            q = q + 1;
        }
        let ghost rest = deck@;
        if let Some(first_card) = deck.pop() {
            self.state.match_data.discard_pile.push(first_card);
        }
        self.state.match_data.deck = deck;
        self.state.match_data.status = MatchStatus::InProgress;
        self.state.match_data.current_player_index = 0;
        proof {
            assert(rest == undealt(self.chain_id@, n as int));
            if rest.len() == 0 {
                assert(self.match_view().deck =~= rest);
            }
            lemma_hand_total_matches(self.match_view().players, dealt);
        }
        Ok(())
    }

    /// Sets the last-card flag of the caller's seat, whatever its hand holds
    /// and whatever the match's status.
    pub fn handle_call_last_card(&mut self, caller: &Owner) -> (r: Result<(), LinotError>)
        requires
            old(self).match_view().wf(),
        ensures
            r is Ok,
            final(self).match_view() == called_last(old(self).match_view(), caller@),
            same_setting(*old(self), *final(self)),
            keeps(old(self).match_view(), final(self).match_view()),
    {
        let ghost before = self.match_view();
        if let Some(i) = Self::find_owner(&self.state.match_data, caller) {
            self.state.match_data.mark_called_last_card(i);
            proof {
                lemma_hand_total_update(before.players, i as int, self.match_view().players[i as int]);
                assert(counts_match(self.match_view().players)) by {
                    assert forall|j: int| 0 <= j < self.match_view().players.len() implies
                        #[trigger] self.match_view().players[j].card_count == self.match_view().players[j].cards.len() by {
                        assert(before.players[j].card_count == before.players[j].cards.len());
                    }
                }
            }
        }
        Ok(())
    }

    /// Penalises a player who holds a single card without having declared
    /// it: that player takes up to two cards from the deck, with no reshuffle.
    /// Anyone may challenge, at any time; the turn does not change.
    pub fn handle_challenge_last_card(&mut self, caller: &Owner, player_index: usize) -> (r: Result<(), LinotError>)
        requires
            old(self).match_view().wf(),
        ensures
            r == challenge_outcome(old(self).match_view(), player_index),
            r is Ok ==> final(self).match_view() == challenged(old(self).match_view(), player_index as int),
            r is Err ==> final(self).match_view() == old(self).match_view(),
            same_setting(*old(self), *final(self)),
            keeps(old(self).match_view(), final(self).match_view()),
    {
        if player_index >= self.state.match_data.players.len() {
            return Err(LinotError::InvalidPlayerIndex(player_index));
        }
        let ghost before = self.match_view();
        let p = &self.state.match_data.players[player_index];
        if p.card_count == 1 && !p.called_last_card {
            proof {
                if before.status == MatchStatus::Waiting {
                    lemma_hand_total_zero(before.players, player_index as int);
                }
                lemma_pop_into(before, player_index as int, 2);
            }
            let mut t: usize = 0;
            while t < 2
                invariant
                    t <= 2,
                    player_index < self.match_view().players.len(),
                    pop_into(before, player_index as int, 2) == pop_into(self.match_view(), player_index as int, (2 - t) as nat),
                    same_setting(*old(self), *self),
                decreases 2 - t,
            {
                self.state.match_data.give_top_card(player_index);
                t = t + 1;
            }
        }
        Ok(())
    }

    /// Turns the caller's seat inactive; if one active player is left, that
    /// player wins and the match is over.
    pub fn handle_leave_match(&mut self, caller: &Owner) -> (r: Result<(), LinotError>)
        requires
            old(self).match_view().wf(),
        ensures
            r is Ok,
            final(self).match_view() == left(old(self).match_view(), caller@),
            same_setting(*old(self), *final(self)),
            keeps(old(self).match_view(), final(self).match_view()),
    {
        let ghost before = self.match_view();
        if let Some(i) = Self::find_owner(&self.state.match_data, caller) {
            self.state.match_data.mark_inactive(i);
            proof {
                lemma_hand_total_update(before.players, i as int, self.match_view().players[i as int]);
                assert(counts_match(self.match_view().players)) by {
                    assert forall|j: int| 0 <= j < self.match_view().players.len() implies
                        #[trigger] self.match_view().players[j].card_count == self.match_view().players[j].cards.len() by {
                        assert(before.players[j].card_count == before.players[j].cards.len());
                    }
                }
            }
        }
        let ghost m1 = self.match_view();
        let n = self.state.match_data.players.len();
        let mut count: usize = 0;
        let mut first: usize = 0;
        let mut i: usize = 0;
        while i < n
            invariant
                n == m1.players.len(),
                m1 == self.match_view(),
                i <= n,
                count <= i,
                active_count(m1.players, 0) == count + active_count(m1.players, i as int),
                count > 0 ==> first_active(m1.players, 0) == Some(first) && first < n,
                count == 0 ==> first_active(m1.players, 0) == first_active(m1.players, i as int),
            decreases n - i,
        {
            if self.state.match_data.players[i].is_active {
                if count == 0 {
                    first = i;
                }
                count = count + 1;
            }
            i = i + 1;
        }
        if count == 1 {
            self.state.match_data.winner_index = Some(first);
            self.state.match_data.status = MatchStatus::Finished;
        }
        Ok(())
    }

    /// Every player but the current one takes one card from the deck while
    /// it lasts.
    pub fn apply_general_market(match_data: &mut MatchData)
        ensures
            final(match_data)@ == market_from(old(match_data)@, 0),
    {
        let n = match_data.players.len();
        let current_idx = match_data.current_player_index;
        let mut i: usize = 0;
        while i < n
            invariant
                i <= n,
                n == match_data@.players.len(),
                current_idx == match_data@.current_player_index,
                market_from(old(match_data)@, 0) == market_from(match_data@, i as int),
            decreases n - i,
        {
            if i != current_idx && match_data.deck.len() > 0 {
                match_data.give_top_card(i);
            }
            i = i + 1;
        }
    }

    /// Plays the card at `card_index` of the current player's hand, if the
    /// caller is that player and the card may go on the discard pile.
    ///
    /// A suspension passes the turn once as its own effect and twice more
    /// here, three places in all; on two players that lands on the next one.
    pub fn handle_play_card(&mut self, caller: &Owner, card_index: usize, chosen_suit: Option<CardSuit>) -> (r: Result<(), LinotError>)
        requires
            old(self).match_view().wf(),
        ensures
            r == play_outcome(old(self).match_view(), caller@, card_index),
            r is Ok ==> final(self).match_view() == played(old(self).match_view(), card_index as int, chosen_suit),
            r is Err ==> final(self).match_view() == old(self).match_view(),
            same_setting(*old(self), *final(self)),
            keeps(old(self).match_view(), final(self).match_view()),
    {
        if self.state.match_data.status != MatchStatus::InProgress {
            return Err(LinotError::MatchNotInProgress);
        }
        let c = self.state.match_data.current_player_index;
        if !self.state.match_data.players[c].owner.same_as(caller) {
            return Err(LinotError::NotYourTurn);
        }
        if card_index >= self.state.match_data.players[c].cards.len() {
            return Err(LinotError::InvalidCardIndex(card_index));
        }
        let dlen = self.state.match_data.discard_pile.len();
        if dlen == 0 {
            return Err(LinotError::NoCardInDiscardPile);
        }
        let candidate = self.state.match_data.players[c].cards[card_index];
        let top_card = self.state.match_data.discard_pile[dlen - 1];
        if !GameEngine::is_valid_play(
            &candidate,
            &top_card,
            self.state.match_data.active_shape_demand,
            self.state.match_data.pending_penalty,
        ) {
            return Err(LinotError::InvalidCardPlay);
        }
        let np = self.state.match_data.players.len();
        let ghost before = self.match_view();
        proof {
            lemma_played_keeps(before, caller@, card_index, chosen_suit);
        }
        let card = self.state.match_data.take_card(c, card_index);
        self.state.match_data.discard_pile.push(card);
        assert(before.players.len() == np);
        assert(self.match_view().players.len() == np);
        assert(self.state.match_data.players@.len() == np);
        let ghost less = self.match_view().players[c as int];
        if self.state.match_data.players[c].card_count == 1 && !self.state.match_data.players[c].called_last_card {
            self.state.match_data.mark_called_last_card(c);
        }
        proof {
            let declared = if less.card_count == 1 && !less.called_last_card {
                PlayerView { called_last_card: true, ..less }
            } else {
                less
            };
            assert(self.match_view().players =~= before.players.update(c as int, declared));
        }
        let effect = GameEngine::get_card_effect(&card);
        GameEngine::apply_effect(&mut self.state.match_data, effect, chosen_suit);
        if let Some(result) = GameEngine::check_game_end(&self.state.match_data) {
            match result {
                GameResult::Winner(idx) => {
                    self.state.match_data.winner_index = Some(idx);
                    self.state.match_data.status = MatchStatus::Finished;
                },
                GameResult::Draw => {
                    self.state.match_data.status = MatchStatus::Finished;
                },
            }
        }
        if effect == SpecialEffect::AllDrawOne {
            Self::apply_general_market(&mut self.state.match_data);
        }
        if effect == SpecialEffect::PlayAgain {
        } else if effect == SpecialEffect::SkipNext {
            GameEngine::advance_turn(&mut self.state.match_data);
            GameEngine::advance_turn(&mut self.state.match_data);
        } else {
            GameEngine::advance_turn(&mut self.state.match_data);
        }
        Ok(())
    }

    /// The current player draws: the whole penalty if one is owed, else one
    /// card; then the demanded suit is cleared and the turn passes.
    ///
    /// Drawing is a move, so it needs a match in play: a waiting match has
    /// no current player yet, and a finished one takes no more moves.
    pub fn handle_draw_card(&mut self, caller: &Owner) -> (r: Result<(), LinotError>)
        requires
            old(self).match_view().wf(),
        ensures
            r == draw_outcome(old(self).match_view(), caller@),
            r is Ok ==> final(self).match_view() == drawn(old(self).match_view(), old(self).chain_id@),
            r is Err ==> final(self).match_view() == old(self).match_view(),
            same_setting(*old(self), *final(self)),
            keeps(old(self).match_view(), final(self).match_view()),
    {
        if self.state.match_data.status != MatchStatus::InProgress {
            return Err(LinotError::MatchNotInProgress);
        }
        let c = self.state.match_data.current_player_index;
        if !self.state.match_data.players[c].owner.same_as(caller) {
            return Err(LinotError::NotYourTurn);
        }
        let dl = self.state.match_data.discard_pile.len();
        let ghost before = self.match_view();
        proof {
            lemma_drawn_keeps(before, caller@, self.chain_id@);
        }
        let cards_to_draw: u8 = if self.state.match_data.pending_penalty > 0 {
            let count = self.state.match_data.pending_penalty;
            self.state.match_data.pending_penalty = 0;
            count
        } else {
            1
        };
        let ghost m1 = self.match_view();
        let mut t: u8 = 0;
        let mut stop = false;
        while t < cards_to_draw && !stop
            invariant
                t <= cards_to_draw,
                cards_to_draw as nat == draw_count(before),
                c == self.match_view().current_player_index,
                c < self.match_view().players.len(),
                stop ==> self.match_view().deck.len() == 0 && self.match_view().discard_pile.len() <= 1,
                draw_into(m1, c as int, draw_count(before), old(self).chain_id@)
                    == draw_into(self.match_view(), c as int, (cards_to_draw - t) as nat, old(self).chain_id@),
                same_setting(*old(self), *self),
            decreases cards_to_draw - t + (if stop { 0int } else { 1int }),
        {
            if self.state.match_data.deck.len() == 0 {
                if self.state.match_data.discard_pile.len() > 1 {
                    let ghost round = vstd::wrapping::u32_specs::wrapping_add(self.match_view().round_number, 1);
                    proof {
                        lemma_shuffled_len(
                            self.match_view().discard_pile.drop_last(),
                            round_seed(self.chain_id@, round),
                        );
                    }
                    self.state.match_data.reshuffle_discards(&self.chain_id);
                } else {
                    stop = true;
                }
            }
            if !stop {
                self.state.match_data.give_top_card(c);
                t = t + 1;
            }
        }
        self.state.match_data.active_shape_demand = None;
        GameEngine::advance_turn(&mut self.state.match_data);
        Ok(())
    }

    /// Applies one operation from an authenticated `caller`; an operation
    /// without a caller is refused. A refused operation changes nothing.
    pub fn execute_operation(&mut self, caller: Option<Owner>, operation: Operation) -> (r: Result<(), LinotError>)
        requires
            old(self).match_view().wf(),
        ensures
            operation_done(*old(self), *final(self), caller, operation, r),
            same_setting(*old(self), *final(self)),
            final(self).match_view().wf(),
            !(operation is StartMatch && r is Ok) ==> final(self).match_view().total_cards()
                == old(self).match_view().total_cards(),
            operation is StartMatch && r is Ok ==> final(self).match_view().total_cards() == DECK_SIZE,
    {
        let caller = match caller {
            Some(c) => c,
            None => {
                return Err(LinotError::CallerRequired);
            },
        };
        match operation {
            Operation::JoinMatch { nickname } => self.handle_join_match(caller, nickname),
            Operation::StartMatch => self.handle_start_match(&caller),
            Operation::PlayCard { card_index, chosen_suit } => self.handle_play_card(&caller, card_index, chosen_suit),
            Operation::DrawCard => self.handle_draw_card(&caller),
            Operation::CallLastCard => self.handle_call_last_card(&caller),
            Operation::ChallengeLastCard { player_index } => self.handle_challenge_last_card(&caller, player_index),
            Operation::LeaveMatch => self.handle_leave_match(&caller),
            Operation::PlaceBet { player_index: _, amount: _ } => Err(LinotError::BettingNotImplemented),
        }
    }

    /// A join relayed from another chain, handled as a local join.
    pub fn handle_remote_join(&mut self, player: Owner, nickname: String) -> (r: Result<(), LinotError>)
        requires
            old(self).match_view().wf(),
        ensures
            r == join_outcome(old(self).match_view(), old(self).state.config.max_players, player@),
            r is Ok ==> final(self).match_view() == joined(old(self).match_view(), player@, nickname@),
            r is Err ==> final(self).match_view() == old(self).match_view(),
            same_setting(*old(self), *final(self)),
            keeps(old(self).match_view(), final(self).match_view()),
    {
        self.handle_join_match(player, nickname)
    }

    /// Handles a message from another chain; a refused join is dropped.
    pub fn execute_message(&mut self, message: Message)
        requires
            old(self).match_view().wf(),
        ensures
            message_done(*old(self), *final(self), message),
            same_setting(*old(self), *final(self)),
            keeps(old(self).match_view(), final(self).match_view()),
    {
        match message {
            Message::InvitePlayer { inviter: _, match_id: _ } => {},
            Message::PlayerJoined { player, nickname } => {
                let _ = self.handle_remote_join(player, nickname);
            },
            Message::StateUpdate { current_player: _, top_card: _ } => {},
        }
    }
}

} // verus!
