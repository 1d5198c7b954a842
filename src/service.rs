use vstd::prelude::*;

use crate::card::{Card, CardSuit};
use crate::state::{LinotState, MatchConfig, MatchData, MatchStatus, Owner, Player};

verus! {

/// Read access to a stored match: what the host shows to clients.
pub struct LinotService {
    pub state: LinotState,
}

/// What everyone may see of a player: no cards, only their number.
pub struct PublicPlayer {
    pub owner: Owner,
    pub nickname: String,
    pub card_count: usize,
    pub is_active: bool,
    pub called_last_card: bool,
}

/// What one player may see of a match: its own hand, and the public part
/// of everything else.
pub struct OwnView {
    pub my_cards: Vec<Card>,
    pub my_card_count: usize,
    pub called_last_card: bool,
    pub opponents: Vec<PublicPlayer>,
    pub top_card: Option<Card>,
    pub deck_size: usize,
    pub current_player_index: usize,
    pub status: MatchStatus,
    pub active_shape_demand: Option<CardSuit>,
    pub pending_penalty: u8,
    pub winner_index: Option<usize>,
}

/// `p` shows `q` in public: same account, name, count and flags.
pub open spec fn shows(p: PublicPlayer, q: Player) -> bool {
    &&& p.owner@ == q.owner@
    &&& p.nickname@ == q.nickname@
    &&& p.card_count == q.card_count
    &&& p.is_active == q.is_active
    &&& p.called_last_card == q.called_last_card
}

/// The players of `ps` that `o` does not own, in roster order.
pub open spec fn others(ps: Seq<Player>, o: Seq<u8>) -> Seq<Player> {
    ps.filter(|p: Player| p.owner@ != o)
}

/// The first player of `ps` from index `i` on that `o` owns.
pub open spec fn seat_of(ps: Seq<Player>, o: Seq<u8>, i: int) -> Option<int>
    decreases ps.len() - i,
{
    if i < 0 || i >= ps.len() {
        None
    } else if ps[i].owner@ == o {
        Some(i)
    } else {
        seat_of(ps, o, i + 1)
    }
}

/// The last card of `s`, if any.
pub open spec fn last_of(s: Seq<Card>) -> Option<Card> {
    if s.len() == 0 {
        None
    } else {
        Some(s.last())
    }
}

impl Owner {
    /// A second value naming the same account.
    pub fn copied(&self) -> (r: Owner)
        ensures
            r@ == self@,
    {
        let mut id: Vec<u8> = Vec::new();
        let mut i: usize = 0;
        while i < self.id.len()
            invariant
                i <= self.id@.len(),
                id@ == self.id@.take(i as int),
            decreases self.id@.len() - i,
        {
            id.push(self.id[i]);
            assert(id@ =~= self.id@.take(i + 1));
            i = i + 1;
        }
        assert(self.id@.take(i as int) =~= self.id@);
        Owner { id }
    }
}

/// The public part of `p`.
pub fn public_of(p: &Player) -> (r: PublicPlayer)
    ensures
        shows(r, *p),
{
    PublicPlayer {
        owner: p.owner.copied(),
        nickname: p.nickname.clone(),
        card_count: p.card_count,
        is_active: p.is_active,
        called_last_card: p.called_last_card,
    }
}

/// The top card of the discard pile, if any.
pub fn top_of(m: &MatchData) -> (r: Option<Card>)
    ensures
        r == last_of(m.discard_pile@),
{
    let n = m.discard_pile.len();
    if n == 0 {
        None
    } else {
        Some(m.discard_pile[n - 1])
    }
}

impl LinotService {
    pub fn new(state: LinotState) -> (r: LinotService)
        ensures
            r.state == state,
    {
        LinotService { state }
    }

    pub fn config(&self) -> (r: &MatchConfig)
        ensures
            *r == self.state.config,
    {
        &self.state.config
    }

    /// The whole match, every hand included: for trusted tools only.
    pub fn match_state(&self) -> (r: &MatchData)
        ensures
            *r == self.state.match_data,
    {
        &self.state.match_data
    }

    pub fn status(&self) -> (r: MatchStatus)
        ensures
            r == self.state.match_data.status,
    {
        self.state.match_data.status
    }

    pub fn current_player_index(&self) -> (r: usize)
        ensures
            r == self.state.match_data.current_player_index,
    {
        self.state.match_data.current_player_index
    }

    /// The account whose turn it is, if the index names a seat.
    pub fn current_player(&self) -> (r: Option<Owner>)
        ensures
            ({
                let m = self.state.match_data;
                match r {
                    Some(o) => m.current_player_index < m.players@.len()
                        && o@ == m.players@[m.current_player_index as int].owner@,
                    None => m.current_player_index >= m.players@.len(),
                }
            }),
    {
        let m = &self.state.match_data;
        if m.current_player_index < m.players.len() {
            Some(m.players[m.current_player_index].owner.copied())
        } else {
            None
        }
    }

    pub fn top_card(&self) -> (r: Option<Card>)
        ensures
            r == last_of(self.state.match_data.discard_pile@),
    {
        top_of(&self.state.match_data)
    }

    pub fn deck_size(&self) -> (r: usize)
        ensures
            r == self.state.match_data.deck@.len(),
    {
        self.state.match_data.deck.len()
    }

    pub fn active_shape_demand(&self) -> (r: Option<CardSuit>)
        ensures
            r == self.state.match_data.active_shape_demand,
    {
        self.state.match_data.active_shape_demand
    }

    pub fn pending_penalty(&self) -> (r: u8)
        ensures
            r == self.state.match_data.pending_penalty,
    {
        self.state.match_data.pending_penalty
    }

    /// Every player, in roster order, without their cards.
    pub fn players(&self) -> (r: Vec<PublicPlayer>)
        ensures
            r@.len() == self.state.match_data.players@.len(),
            forall|i: int| 0 <= i < r@.len() ==> shows(#[trigger] r@[i], self.state.match_data.players@[i]),
    {
        let ps = &self.state.match_data.players;
        let mut out: Vec<PublicPlayer> = Vec::new();
        let mut i: usize = 0;
        while i < ps.len()
            invariant
                i <= ps@.len(),
                out@.len() == i,
                forall|k: int| 0 <= k < i ==> shows(#[trigger] out@[k], ps@[k]),
            decreases ps@.len() - i,
        {
            out.push(public_of(&ps[i]));
            i = i + 1;
        }
        out
    }

    /// The match as `player` may see it: its own hand in full, every other
    /// player without cards, and the public state. `None` if `player` has
    /// no seat.
    pub fn player_view(&self, player: &Owner) -> (r: Option<OwnView>)
        ensures
            ({
                let m = self.state.match_data;
                match seat_of(m.players@, player@, 0) {
                    None => r is None,
                    Some(s) => r matches Some(v) && {
                        &&& v.my_cards@ == m.players@[s].cards@
                        &&& v.my_card_count == m.players@[s].card_count
                        &&& v.called_last_card == m.players@[s].called_last_card
                        &&& v.opponents@.len() == others(m.players@, player@).len()
                        &&& forall|k: int| 0 <= k < v.opponents@.len()
                            ==> shows(#[trigger] v.opponents@[k], others(m.players@, player@)[k])
                        &&& v.top_card == last_of(m.discard_pile@)
                        &&& v.deck_size == m.deck@.len()
                        &&& v.current_player_index == m.current_player_index
                        &&& v.status == m.status
                        &&& v.active_shape_demand == m.active_shape_demand
                        &&& v.pending_penalty == m.pending_penalty
                        &&& v.winner_index == m.winner_index
                    },
                }
            }),
    {
        let m = &self.state.match_data;
        let ps = &m.players;
        let n = ps.len();
        let mut seat: usize = 0;
        let mut found = false;
        while seat < n && !found
            invariant
                n == ps@.len(),
                seat <= n,
                found ==> seat < n && seat_of(ps@, player@, 0) == Some(seat as int),
                !found ==> seat_of(ps@, player@, 0) == seat_of(ps@, player@, seat as int),
            decreases n - seat + (if found { 0int } else { 1int }),
        {
            if ps[seat].owner.same_as(player) {
                found = true;
            } else {
                seat = seat + 1;
            }
        }
        if !found {
            return None;
        }
        let me = &ps[seat];
        let mut my_cards: Vec<Card> = Vec::new();
        let mut k: usize = 0;
        while k < me.cards.len()
            invariant
                k <= me.cards@.len(),
                my_cards@ == me.cards@.take(k as int),
            decreases me.cards@.len() - k,
        {
            my_cards.push(me.cards[k]);
            assert(my_cards@ =~= me.cards@.take(k + 1));
            k = k + 1;
        }
        assert(me.cards@.take(k as int) =~= me.cards@);
        let mut opponents: Vec<PublicPlayer> = Vec::new();
        let mut i: usize = 0;
        while i < n
            invariant
                n == ps@.len(),
                i <= n,
                opponents@.len() == others(ps@.take(i as int), player@).len(),
                forall|j: int| 0 <= j < opponents@.len()
                    ==> shows(#[trigger] opponents@[j], others(ps@.take(i as int), player@)[j]),
            decreases n - i,
        {
            let ghost before = ps@.take(i as int);
            assert(ps@.take(i + 1) =~= before.push(ps@[i as int]));
            proof {
                reveal(Seq::filter);
                assert(before.push(ps@[i as int]).drop_last() =~= before);
            }
            if !ps[i].owner.same_as(player) {
                opponents.push(public_of(&ps[i]));
            }
            i = i + 1;
        }
        assert(ps@.take(n as int) =~= ps@);
        Some(OwnView {
            my_cards,
            my_card_count: me.card_count,
            called_last_card: me.called_last_card,
            opponents,
            top_card: top_of(m),
            deck_size: m.deck.len(),
            current_player_index: m.current_player_index,
            status: m.status,
            active_shape_demand: m.active_shape_demand,
            pending_penalty: m.pending_penalty,
            winner_index: m.winner_index,
        })
    }

    /// The winner's account, once there is a winner with a seat.
    pub fn winner(&self) -> (r: Option<Owner>)
        ensures
            ({
                let m = self.state.match_data;
                match m.winner_index {
                    Some(w) if w < m.players@.len() => r matches Some(o) && o@ == m.players@[w as int].owner@,
                    _ => r is None,
                }
            }),
    {
        let m = &self.state.match_data;
        match m.winner_index {
            Some(w) => {
                if w < m.players.len() {
                    Some(m.players[w].owner.copied())
                } else {
                    None
                }
            },
            None => None,
        }
    }

    /// Total staked on the match; zero when nothing is staked.
    pub fn betting_pool_total(&self) -> (r: u64)
        ensures
            r == match self.state.betting_pool {
                Some(pool) => pool.total_pool,
                None => 0,
            },
    {
        match &self.state.betting_pool {
            Some(pool) => pool.total_pool,
            None => 0,
        }
    }
}

} // verus!
