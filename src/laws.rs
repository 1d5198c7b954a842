use vstd::prelude::*;

use crate::card::{standard_deck, Card, DECK_SIZE};
use crate::deck::{fisher_yates, lcg_next, seed_state, shuffled, swap_cards};
use crate::game_engine::advanced;
use crate::state::MatchView;

verus! {

/// `m` after the turn has passed `k` times.
pub open spec fn advanced_times(m: MatchView, k: nat) -> MatchView
    decreases k,
{
    if k == 0 {
        m
    } else {
        advanced(advanced_times(m, (k - 1) as nat))
    }
}

/// Shuffling is reproducible: the same cards shuffled with the same seed
/// bytes always come out in the same order.
pub proof fn lemma_shuffle_deterministic(d1: Seq<Card>, d2: Seq<Card>, seed1: Seq<u8>, seed2: Seq<u8>)
    requires
        d1 == d2,
        seed1 == seed2,
    ensures
        shuffled(d1, seed1) == shuffled(d2, seed2),
{
}

proof fn lemma_swap_keeps_cards(d: Seq<Card>, i: int, j: int)
    requires
        0 <= i < d.len(),
        0 <= j < d.len(),
    ensures
        swap_cards(d, i, j).to_multiset() == d.to_multiset(),
{
    broadcast use vstd::seq_lib::group_to_multiset_ensures;
    let d1 = d.update(i, d[j]);
    vstd::seq_lib::to_multiset_update(d, i, d[j]);
    vstd::seq_lib::to_multiset_update(d1, j, d[i]);
    assert(d1[j] == d[j]);
    assert(d.to_multiset().contains(d[i]));
    assert(d1.to_multiset().contains(d1[j]));
    assert(swap_cards(d, i, j).to_multiset() =~= d.to_multiset());
}

proof fn lemma_fisher_yates_keeps_cards(d: Seq<Card>, state: u64, i: int)
    requires
        i < d.len(),
        d.len() <= u64::MAX,
    ensures
        fisher_yates(d, state, i).to_multiset() == d.to_multiset(),
    decreases i,
{
    if i > 0 {
        let s = lcg_next(state);
        let m = (i + 1) as u64;
        let j = (s % m) as int;
        lemma_swap_keeps_cards(d, i, j);
        assert(swap_cards(d, i, j).len() == d.len());
        lemma_fisher_yates_keeps_cards(swap_cards(d, i, j), s, i - 1);
    }
}

/// A shuffle only reorders: the shuffled deck holds exactly the cards it
/// was given, each as many times.
pub proof fn lemma_shuffle_keeps_cards(d: Seq<Card>, seed: Seq<u8>)
    requires
        d.len() <= usize::MAX,
    ensures
        shuffled(d, seed).to_multiset() == d.to_multiset(),
{
    if d.len() > 0 {
        lemma_fisher_yates_keeps_cards(d, seed_state(seed), d.len() - 1);
    }
}

/// Every fresh deck is the same deck: any two hold the same multiset of
/// cards, and there are `DECK_SIZE` of them.
pub proof fn lemma_fresh_deck_fixed(a: Seq<Card>, b: Seq<Card>)
    requires
        a == standard_deck(),
        b == standard_deck(),
    ensures
        a.to_multiset() == b.to_multiset(),
        a.len() == DECK_SIZE,
{
}

/// Passing the turn `k` times moves the index `k` places round the roster.
pub proof fn lemma_advance_steps(m: MatchView, k: nat)
    requires
        0 < m.players.len() <= usize::MAX,
        m.current_player_index < m.players.len(),
    ensures
        advanced_times(m, k) == (MatchView {
            current_player_index: ((m.current_player_index + k) % (m.players.len() as int)) as usize,
            ..m
        }),
    decreases k,
{
    let n = m.players.len() as int;
    let c = m.current_player_index as int;
    if k == 0 {
        vstd::arithmetic::div_mod::lemma_small_mod(c as nat, n as nat);
        assert(advanced_times(m, k) == (MatchView { current_player_index: ((c + k) % n) as usize, ..m }));
    } else {
        lemma_advance_steps(m, (k - 1) as nat);
        let prev = (c + k - 1) % n;
        vstd::arithmetic::div_mod::lemma_mod_bound(c + k - 1, n);
        if n > 1 {
            vstd::arithmetic::div_mod::lemma_add_mod_noop(c + k - 1, 1, n);
            vstd::arithmetic::div_mod::lemma_small_mod(1, n as nat);
        } else {
            vstd::arithmetic::div_mod::lemma_mod_bound(prev + 1, n);
            vstd::arithmetic::div_mod::lemma_mod_bound(c + k, n);
        }
        assert((prev + 1) % n == (c + k) % n);
        let mid = advanced_times(m, (k - 1) as nat);
        assert(mid.current_player_index as int == prev);
        assert(mid.players.len() == n);
        assert(advanced(mid) == (MatchView { current_player_index: ((c + k) % n) as usize, ..m }));
    }
}

/// On a roster of `n` players, passing the turn `n` times comes back to
/// the player who started.
pub proof fn lemma_advance_full_cycle(m: MatchView)
    requires
        0 < m.players.len() <= usize::MAX,
        m.current_player_index < m.players.len(),
    ensures
        advanced_times(m, m.players.len()) == m,
{
    let n = m.players.len() as int;
    let c = m.current_player_index as int;
    lemma_advance_steps(m, m.players.len());
    vstd::arithmetic::div_mod::lemma_mod_add_multiples_vanish(c, n);
    vstd::arithmetic::div_mod::lemma_small_mod(c as nat, n as nat);
    assert(advanced_times(m, m.players.len()) == (MatchView { current_player_index: c as usize, ..m }));
}

} // verus!
