use vstd::prelude::*;
use vstd::wrapping::u32_specs;

use crate::card::Card;
use crate::deck::{lemma_shuffled_len, shuffled};
use crate::game_engine::GameEngine;
use crate::state::{
    counts_match, hand_total, lemma_hand_total_update, with_card, MatchData, MatchView, PlayerView,
};

verus! {

/// The decimal digits of `n`, as ASCII bytes, without leading zeros.
pub open spec fn decimal(n: nat) -> Seq<u8>
    decreases n,
{
    if n < 10 {
        seq![(48 + n) as u8]
    } else {
        decimal(n / 10).push((48 + n % 10) as u8)
    }
}

/// Seed bytes of reshuffle number `round`: the chain identifier followed by
/// the round in decimal.
pub open spec fn round_seed(chain: Seq<u8>, round: u32) -> Seq<u8> {
    chain + decimal(round as nat)
}

/// `m` after player `i` takes the top card of the deck.
pub open spec fn give_top(m: MatchView, i: int) -> MatchView {
    MatchView {
        players: m.players.update(i, with_card(m.players[i], m.deck.last())),
        deck: m.deck.drop_last(),
        ..m
    }
}

/// `m` after every player from index `i` on, other than the current one,
/// takes one card from the deck while it lasts.
pub open spec fn market_from(m: MatchView, i: int) -> MatchView
    decreases m.players.len() - i,
{
    if i < 0 || i >= m.players.len() {
        m
    } else if i != m.current_player_index && m.deck.len() > 0 {
        market_from(give_top(m, i), i + 1)
    } else {
        market_from(m, i + 1)
    }
}

/// `m` after player `i` takes up to `k` cards from the deck, with no reshuffle.
pub open spec fn pop_into(m: MatchView, i: int, k: nat) -> MatchView
    decreases k,
{
    if k == 0 || m.deck.len() == 0 {
        m
    } else {
        pop_into(give_top(m, i), i, (k - 1) as nat)
    }
}

/// `m` with all discards but the top one shuffled back into the deck,
/// seeded from the chain identifier and the new round number. The round
/// number counts reshuffles and wraps around after `u32::MAX`.
pub open spec fn reshuffled(m: MatchView, chain: Seq<u8>) -> MatchView {
    let round = u32_specs::wrapping_add(m.round_number, 1);
    MatchView {
        deck: shuffled(m.discard_pile.drop_last(), round_seed(chain, round)),
        discard_pile: seq![m.discard_pile.last()],
        round_number: round,
        ..m
    }
}

/// `m` after player `i` draws up to `k` cards, reshuffling the discard pile
/// into the deck whenever the deck is empty and the pile holds more than
/// its top card; drawing stops when neither holds a card to give.
pub open spec fn draw_into(m: MatchView, i: int, k: nat, chain: Seq<u8>) -> MatchView
    decreases k,
{
    if k == 0 || (m.deck.len() == 0 && m.discard_pile.len() <= 1) {
        m
    } else {
        let m1 = if m.deck.len() == 0 {
            reshuffled(m, chain)
        } else {
            m
        };
        draw_into(give_top(m1, i), i, (k - 1) as nat, chain)
    }
}

/// What a state change keeps: the invariant and the number of cards.
pub open spec fn keeps(m: MatchView, m2: MatchView) -> bool {
    &&& m2.wf()
    &&& m2.total_cards() == m.total_cards()
}

pub proof fn lemma_give_top(m: MatchView, i: int)
    requires
        m.wf(),
        m.status != crate::state::MatchStatus::Waiting,
        0 <= i < m.players.len(),
        m.deck.len() > 0,
    ensures
        keeps(m, give_top(m, i)),
        give_top(m, i).players.len() == m.players.len(),
{
    let m2 = give_top(m, i);
    lemma_hand_total_update(m.players, i, with_card(m.players[i], m.deck.last()));
    assert(counts_match(m2.players)) by {
        assert forall|j: int| 0 <= j < m2.players.len() implies #[trigger] m2.players[j].card_count
            == m2.players[j].cards.len() by {
            if j != i {
                assert(m.players[j].card_count == m.players[j].cards.len());
            }
        }
    }
}

pub proof fn lemma_market_from(m: MatchView, i: int)
    requires
        m.wf(),
        m.status != crate::state::MatchStatus::Waiting,
        0 <= i,
    ensures
        keeps(m, market_from(m, i)),
        market_from(m, i).players.len() == m.players.len(),
        market_from(m, i).current_player_index == m.current_player_index,
        market_from(m, i).status == m.status,
    decreases m.players.len() - i,
{
    if i < m.players.len() {
        if i != m.current_player_index && m.deck.len() > 0 {
            lemma_give_top(m, i);
            lemma_market_from(give_top(m, i), i + 1);
        } else {
            lemma_market_from(m, i + 1);
        }
    }
}

pub proof fn lemma_pop_into(m: MatchView, i: int, k: nat)
    requires
        m.wf(),
        m.status != crate::state::MatchStatus::Waiting,
        0 <= i < m.players.len(),
    ensures
        keeps(m, pop_into(m, i, k)),
        pop_into(m, i, k).players.len() == m.players.len(),
        pop_into(m, i, k).status == m.status,
    decreases k,
{
    if k > 0 && m.deck.len() > 0 {
        lemma_give_top(m, i);
        lemma_pop_into(give_top(m, i), i, (k - 1) as nat);
    }
}

pub proof fn lemma_draw_into(m: MatchView, i: int, k: nat, chain: Seq<u8>)
    requires
        m.wf(),
        m.status != crate::state::MatchStatus::Waiting,
        0 <= i < m.players.len(),
        m.discard_pile.len() <= usize::MAX,
    ensures
        keeps(m, draw_into(m, i, k, chain)),
        draw_into(m, i, k, chain).players.len() == m.players.len(),
        draw_into(m, i, k, chain).status == m.status,
        draw_into(m, i, k, chain).discard_pile.len() <= m.discard_pile.len(),
    decreases k,
{
    if k > 0 && !(m.deck.len() == 0 && m.discard_pile.len() <= 1) {
        let m1 = if m.deck.len() == 0 {
            reshuffled(m, chain)
        } else {
            m
        };
        if m.deck.len() == 0 {
            let round = u32_specs::wrapping_add(m.round_number, 1);
            lemma_shuffled_len(m.discard_pile.drop_last(), round_seed(chain, round));
        }
        lemma_give_top(m1, i);
        lemma_draw_into(give_top(m1, i), i, (k - 1) as nat, chain);
    }
}

/// Appends the decimal digits of `n` to `out`.
pub fn push_decimal(out: &mut Vec<u8>, n: u32)
    ensures
        final(out)@ == old(out)@ + decimal(n as nat),
    decreases n,
{
    if n >= 10 {
        push_decimal(out, n / 10);
    }
    out.push(48u8 + (n % 10) as u8);
    assert(out@ =~= old(out)@ + decimal(n as nat));
}

impl MatchData {
    /// Player `i` takes the top card of the deck, if there is one.
    pub fn give_top_card(&mut self, i: usize)
        requires
            i < old(self).players.len(),
        ensures
            old(self)@.deck.len() > 0 ==> final(self)@ == give_top(old(self)@, i as int),
            old(self)@.deck.len() == 0 ==> final(self)@ == old(self)@,
    {
        match self.deck.pop() {
            Some(card) => {
                self.give_card(i, card);
            },
            None => {},
        }
    }

    /// Moves every discard but the top one back into the deck, which must be
    /// empty, and shuffles it with the seed of the next round.
    pub fn reshuffle_discards(&mut self, chain: &Vec<u8>)
        requires
            old(self)@.deck.len() == 0,
            old(self)@.discard_pile.len() > 1,
        ensures
            final(self)@ == reshuffled(old(self)@, chain@),
    {
        let ghost before = self@;
        let top: Card = self.discard_pile[self.discard_pile.len() - 1];
        self.discard_pile.pop();
        let mut rest: Vec<Card> = Vec::new();
        std::mem::swap(&mut rest, &mut self.discard_pile);
        self.discard_pile.push(top);
        self.round_number = self.round_number.wrapping_add(1);
        let mut seed: Vec<u8> = Vec::new();
        let mut k: usize = 0;
        while k < chain.len()
            invariant
                k <= chain@.len(),
                seed@ == chain@.take(k as int),
            decreases chain@.len() - k,
        {
            seed.push(chain[k]);
            assert(seed@ =~= chain@.take(k + 1));
            k = k + 1;
        }
        assert(chain@.take(k as int) =~= chain@);
        push_decimal(&mut seed, self.round_number);
        GameEngine::shuffle_with_seed(&mut rest, seed.as_slice());
        self.deck = rest;
        assert(self@.discard_pile =~= seq![before.discard_pile.last()]);
        assert(self@.players =~= before.players);
    }
}

} // verus!
