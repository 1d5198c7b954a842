use vstd::prelude::*;

use crate::card::{Card, CardSuit};

verus! {

/// An authenticated account, identified by its bytes.
#[derive(Debug, Clone)]
pub struct Owner {
    pub id: Vec<u8>,
}

impl View for Owner {
    type V = Seq<u8>;

    open spec fn view(&self) -> Seq<u8> {
        self.id@
    }
}

impl Owner {
    pub fn new(id: Vec<u8>) -> (r: Owner)
        ensures
            r@ == id@,
    {
        Owner { id }
    }

    /// Whether both values name the same account.
    pub fn same_as(&self, other: &Owner) -> (r: bool)
        ensures
            r == (self@ == other@),
    {
        if self.id.len() != other.id.len() {
            return false;
        }
        let mut i: usize = 0;
        while i < self.id.len()
            invariant
                self.id@.len() == other.id@.len(),
                i <= self.id@.len(),
                forall|k: int| 0 <= k < i ==> self.id@[k] == other.id@[k],
            decreases self.id@.len() - i,
        {
            if self.id[i] != other.id[i] {
                return false;
            }
            i = i + 1;
        }
        assert(self.id@ =~= other.id@);
        true
    }
}

/// Configuration fixed when a match is created.
#[derive(Debug, Clone)]
pub struct MatchConfig {
    pub max_players: u8,
    pub host: Option<Owner>,
    pub is_ranked: bool,
    pub strict_mode: bool,
}

impl Default for MatchConfig {
    fn default() -> (r: MatchConfig)
        ensures
            r.max_players == 2,
            r.host is None,
            !r.is_ranked,
            !r.strict_mode,
    {
        MatchConfig { max_players: 2, host: None, is_ranked: false, strict_mode: false }
    }
}

/// Lifecycle of a match: `Waiting` then `InProgress` then `Finished`.
#[derive(Debug, Clone, Copy, PartialEq, Eq, Structural)]
pub enum MatchStatus {
    Waiting,
    InProgress,
    Finished,
}

#[derive(Debug)]
pub struct Player {
    pub owner: Owner,
    pub nickname: String,
    pub cards: Vec<Card>,
    pub is_active: bool,
    pub card_count: usize,
    pub called_last_card: bool,
}

/// A player as a mathematical value.
pub struct PlayerView {
    pub owner: Seq<u8>,
    pub nickname: Seq<char>,
    pub cards: Seq<Card>,
    pub is_active: bool,
    pub card_count: nat,
    pub called_last_card: bool,
}

impl View for Player {
    type V = PlayerView;

    open spec fn view(&self) -> PlayerView {
        PlayerView {
            owner: self.owner@,
            nickname: self.nickname@,
            cards: self.cards@,
            is_active: self.is_active,
            card_count: self.card_count as nat,
            called_last_card: self.called_last_card,
        }
    }
}

/// `p` after receiving card `c` on top of its hand.
pub open spec fn with_card(p: PlayerView, c: Card) -> PlayerView {
    PlayerView { cards: p.cards.push(c), card_count: p.cards.len() + 1, ..p }
}

/// `p` after giving up the card at `idx` of its hand.
pub open spec fn without_card(p: PlayerView, idx: int) -> PlayerView {
    PlayerView { cards: p.cards.remove(idx), card_count: (p.cards.len() - 1) as nat, ..p }
}

impl Player {
    pub fn new(owner: Owner, nickname: String) -> (r: Player)
        ensures
            r@ == (PlayerView {
                owner: owner@,
                nickname: nickname@,
                cards: Seq::empty(),
                is_active: true,
                card_count: 0,
                called_last_card: false,
            }),
    {
        Player {
            owner,
            nickname,
            cards: Vec::new(),
            is_active: true,
            card_count: 0,
            called_last_card: false,
        }
    }

    /// Makes `card_count` the length of the hand again.
    pub fn update_card_count(&mut self)
        ensures
            final(self)@ == (PlayerView { card_count: old(self)@.cards.len(), ..old(self)@ }),
    {
        self.card_count = self.cards.len();
    }

    /// A seat holder used while a player is taken out of the roster.
    pub(crate) fn vacant() -> Player {
        Player {
            owner: Owner { id: Vec::new() },
            nickname: String::new(),
            cards: Vec::new(),
            is_active: false,
            card_count: 0,
            called_last_card: false,
        }
    }
}

/// The whole state of one match.
#[derive(Debug)]
pub struct MatchData {
    pub players: Vec<Player>,
    pub current_player_index: usize,
    pub deck: Vec<Card>,
    pub discard_pile: Vec<Card>,
    pub status: MatchStatus,
    pub winner_index: Option<usize>,
    pub round_number: u32,
    pub created_at: u64,
    pub active_shape_demand: Option<CardSuit>,
    pub pending_penalty: u8,
}

/// A match as a mathematical value.
pub struct MatchView {
    pub players: Seq<PlayerView>,
    pub current_player_index: usize,
    pub deck: Seq<Card>,
    pub discard_pile: Seq<Card>,
    pub status: MatchStatus,
    pub winner_index: Option<usize>,
    pub round_number: u32,
    pub created_at: u64,
    pub active_shape_demand: Option<CardSuit>,
    pub pending_penalty: u8,
}

impl View for MatchData {
    type V = MatchView;

    open spec fn view(&self) -> MatchView {
        MatchView {
            players: self.players@.map_values(|p: Player| p@),
            current_player_index: self.current_player_index,
            deck: self.deck@,
            discard_pile: self.discard_pile@,
            status: self.status,
            winner_index: self.winner_index,
            round_number: self.round_number,
            created_at: self.created_at,
            active_shape_demand: self.active_shape_demand,
            pending_penalty: self.pending_penalty,
        }
    }
}

/// Number of cards held in all the hands of `ps`.
pub open spec fn hand_total(ps: Seq<PlayerView>) -> nat
    decreases ps.len(),
{
    if ps.len() == 0 {
        0
    } else {
        hand_total(ps.drop_last()) + ps.last().cards.len()
    }
}

/// Every player's `card_count` is the length of its hand.
pub open spec fn counts_match(ps: Seq<PlayerView>) -> bool {
    forall|i: int| 0 <= i < ps.len() ==> #[trigger] ps[i].card_count == ps[i].cards.len()
}

impl MatchView {
    /// Number of cards in the deck, the discard pile and all hands together.
    pub open spec fn total_cards(self) -> nat {
        self.deck.len() + self.discard_pile.len() + hand_total(self.players)
    }

    /// The invariant of every reachable match.
    pub open spec fn wf(self) -> bool {
        &&& counts_match(self.players)
        &&& self.current_player_index < self.players.len() || self.current_player_index == 0
        &&& self.status == MatchStatus::InProgress ==> self.current_player_index < self.players.len()
        &&& self.status == MatchStatus::Waiting ==> {
            &&& self.deck.len() == 0
            &&& self.discard_pile.len() == 0
            &&& hand_total(self.players) == 0
        }
        &&& self.winner_index matches Some(w) ==> w < self.players.len()
    }

    /// The player whose turn it is.
    pub open spec fn current(self) -> PlayerView {
        self.players[self.current_player_index as int]
    }

    /// The top card of the discard pile.
    pub open spec fn top_card(self) -> Card {
        self.discard_pile.last()
    }
}

/// Changing one hand changes the total by the difference of the two hands.
pub proof fn lemma_hand_total_update(ps: Seq<PlayerView>, i: int, p: PlayerView)
    requires
        0 <= i < ps.len(),
    ensures
        hand_total(ps.update(i, p)) + ps[i].cards.len() == hand_total(ps) + p.cards.len(),
    decreases ps.len(),
{
    if i < ps.len() - 1 {
        lemma_hand_total_update(ps.drop_last(), i, p);
        assert(ps.update(i, p).drop_last() =~= ps.drop_last().update(i, p));
    } else {
        assert(ps.update(i, p).drop_last() =~= ps.drop_last());
    }
}

/// Appending a player adds its hand to the total.
pub proof fn lemma_hand_total_push(ps: Seq<PlayerView>, p: PlayerView)
    ensures
        hand_total(ps.push(p)) == hand_total(ps) + p.cards.len(),
{
    assert(ps.push(p).drop_last() =~= ps);
}

/// The total is zero only if every hand is empty.
pub proof fn lemma_hand_total_zero(ps: Seq<PlayerView>, i: int)
    requires
        hand_total(ps) == 0,
        0 <= i < ps.len(),
    ensures
        ps[i].cards.len() == 0,
    decreases ps.len(),
{
    if i < ps.len() - 1 {
        lemma_hand_total_zero(ps.drop_last(), i);
    }
}

impl Default for MatchData {
    fn default() -> (r: MatchData)
        ensures
            r@.players.len() == 0,
            r@.current_player_index == 0,
            r@.deck.len() == 0,
            r@.discard_pile.len() == 0,
            r@.status == MatchStatus::Waiting,
            r@.winner_index is None,
            r@.round_number == 0,
            r@.created_at == 0,
            r@.active_shape_demand is None,
            r@.pending_penalty == 0,
            r@.wf(),
    {
        let r = MatchData {
            players: Vec::new(),
            current_player_index: 0,
            deck: Vec::new(),
            discard_pile: Vec::new(),
            status: MatchStatus::Waiting,
            winner_index: None,
            round_number: 0,
            created_at: 0,
            active_shape_demand: None,
            pending_penalty: 0,
        };
        assert(r@.players =~= Seq::<PlayerView>::empty());
        r
    }
}

impl MatchData {
    /// Player `i` receives `card` on top of its hand; nothing else changes.
    pub fn give_card(&mut self, i: usize, card: Card)
        requires
            i < old(self).players.len(),
        ensures
            final(self)@ == (MatchView {
                players: old(self)@.players.update(i as int, with_card(old(self)@.players[i as int], card)),
                ..old(self)@
            }),
    {
        let ghost before = self@;
        let mut seat = Player::vacant();
        self.players.set_and_swap(i, &mut seat);
        seat.cards.push(card);
        seat.update_card_count();
        self.players.set_and_swap(i, &mut seat);
        assert(self@.players =~= before.players.update(i as int, with_card(before.players[i as int], card)));
    }

    /// Player `i` gives up the card at `idx` of its hand, which is returned.
    pub fn take_card(&mut self, i: usize, idx: usize) -> (c: Card)
        requires
            i < old(self).players.len(),
            idx < old(self)@.players[i as int].cards.len(),
        ensures
            c == old(self)@.players[i as int].cards[idx as int],
            final(self)@ == (MatchView {
                players: old(self)@.players.update(i as int, without_card(old(self)@.players[i as int], idx as int)),
                ..old(self)@
            }),
    {
        let ghost before = self@;
        let mut seat = Player::vacant();
        self.players.set_and_swap(i, &mut seat);
        let c = seat.cards.remove(idx);
        seat.update_card_count();
        self.players.set_and_swap(i, &mut seat);
        assert(self@.players =~= before.players.update(i as int, without_card(before.players[i as int], idx as int)));
        c
    }

    /// Sets player `i`'s `called_last_card` flag.
    pub fn mark_called_last_card(&mut self, i: usize)
        requires
            i < old(self).players.len(),
        ensures
            final(self)@ == (MatchView {
                players: old(self)@.players.update(
                    i as int,
                    PlayerView { called_last_card: true, ..old(self)@.players[i as int] },
                ),
                ..old(self)@
            }),
    {
        let ghost before = self@;
        let mut seat = Player::vacant();
        self.players.set_and_swap(i, &mut seat);
        seat.called_last_card = true;
        self.players.set_and_swap(i, &mut seat);
        assert(self@.players =~= before.players.update(
            i as int,
            PlayerView { called_last_card: true, ..before.players[i as int] },
        ));
    }

    /// Clears player `i`'s `is_active` flag.
    pub fn mark_inactive(&mut self, i: usize)
        requires
            i < old(self).players.len(),
        ensures
            final(self)@ == (MatchView {
                players: old(self)@.players.update(
                    i as int,
                    PlayerView { is_active: false, ..old(self)@.players[i as int] },
                ),
                ..old(self)@
            }),
    {
        let ghost before = self@;
        let mut seat = Player::vacant();
        self.players.set_and_swap(i, &mut seat);
        seat.is_active = false;
        self.players.set_and_swap(i, &mut seat);
        assert(self@.players =~= before.players.update(
            i as int,
            PlayerView { is_active: false, ..before.players[i as int] },
        ));
    }
}

/// A stake placed on a player.
#[derive(Debug, Clone)]
pub struct Bet {
    pub player: Owner,
    pub amount: u64,
    pub placed_at: u64,
}

/// Stakes placed on a match.
#[derive(Debug, Clone)]
pub struct BettingPool {
    pub total_pool: u64,
    pub bets: Vec<Bet>,
}

/// Everything stored for one match.
#[derive(Debug)]
pub struct LinotState {
    pub config: MatchConfig,
    pub match_data: MatchData,
    pub betting_pool: Option<BettingPool>,
}

} // verus!
