use vstd::prelude::*;
use vstd::wrapping::u64_specs;

use crate::game_engine::GameEngine;
use crate::card::{
    rank_at, rank_from_index, standard_card, standard_deck, suit_at, suit_from_index, Card,
    CardSuit, CardValue, DECK_SIZE, RANK_COUNT, SUIT_COUNT, WILD_COUNT,
};

verus! {

/// Offset basis of the 64-bit FNV-1a hash that turns seed bytes into a
/// generator state. FNV-1a is fixed by its definition, so a seed gives the
/// same shuffle on every machine and with every compiler.
pub const FNV_OFFSET: u64 = 0xcbf29ce484222325;

/// Prime of the 64-bit FNV-1a hash.
pub const FNV_PRIME: u64 = 0x100000001b3;

/// Multiplier of the linear-congruential generator that drives the shuffle.
pub const LCG_MUL: u64 = 6364136223846793005;

/// Increment of the linear-congruential generator that drives the shuffle.
pub const LCG_INC: u64 = 1;

/// Number of cards dealt to each player when a match starts.
pub const HAND_SIZE: usize = 6;

/// One FNV-1a step: xor the byte in, then multiply (mod 2^64).
#[verifier::opaque]
pub open spec fn fnv_step(h: u64, b: u8) -> u64 {
    u64_specs::wrapping_mul(h ^ (b as u64), FNV_PRIME)
}

/// The 64-bit FNV-1a hash of the seed bytes: the generator's initial state.
pub open spec fn seed_state(seed: Seq<u8>) -> u64
    decreases seed.len(),
{
    if seed.len() == 0 {
        FNV_OFFSET
    } else {
        fnv_step(seed_state(seed.drop_last()), seed.last())
    }
}

/// One step of the generator: `state * LCG_MUL + LCG_INC`, wrapping at 2^64.
#[verifier::opaque]
pub open spec fn lcg_next(state: u64) -> u64 {
    u64_specs::wrapping_add(u64_specs::wrapping_mul(state, LCG_MUL), LCG_INC)
}

/// `d` with the cards at `i` and `j` exchanged.
pub open spec fn swap_cards(d: Seq<Card>, i: int, j: int) -> Seq<Card> {
    d.update(i, d[j]).update(j, d[i])
}

/// Fisher-Yates from index `i` down to 1: at each step the generator
/// advances once and the card at `i` is exchanged with the one at
/// `state mod (i + 1)`.
pub open spec fn fisher_yates(d: Seq<Card>, state: u64, i: int) -> Seq<Card>
    decreases i,
{
    if i <= 0 {
        d
    } else {
        let s = lcg_next(state);
        let j = (s % ((i + 1) as u64)) as int;
        fisher_yates(swap_cards(d, i, j), s, i - 1)
    }
}

/// The deck `d` shuffled with the seed bytes `seed`.
pub open spec fn shuffled(d: Seq<Card>, seed: Seq<u8>) -> Seq<Card> {
    fisher_yates(d, seed_state(seed), d.len() - 1)
}

/// How many cards a deal to `n` players takes from a deck of `len` cards.
pub open spec fn dealt_total(len: int, n: int) -> int {
    if len < HAND_SIZE * n {
        len
    } else {
        HAND_SIZE * n
    }
}

/// Whether the `k`-th card of player `q`'s hand is dealt, for `n` players
/// and a deck of `len` cards: it is pop number `k * n + q` of the round robin.
pub open spec fn is_dealt(len: int, n: int, q: int, k: int) -> bool {
    k < HAND_SIZE && k * n + q < len
}


/// How many pops out of `attempts` find a card, on a deck of `len` cards.
pub open spec fn taken(len: int, attempts: int) -> int {
    if attempts < len {
        attempts
    } else {
        len
    }
}

/// Number of cards in all the hands of `hs`.
pub open spec fn cards_in(hs: Seq<Vec<Card>>) -> nat
    decreases hs.len(),
{
    if hs.len() == 0 {
        0
    } else {
        cards_in(hs.drop_last()) + hs.last()@.len()
    }
}

/// How many of the first `rounds` round-robin passes reach player `q`, for
/// `n` players and a deck of `len` cards.
pub open spec fn dealt_count(len: int, n: int, q: int, rounds: int) -> nat
    decreases rounds,
{
    if rounds <= 0 {
        0
    } else {
        dealt_count(len, n, q, rounds - 1) + (if (rounds - 1) * n + q < len { 1nat } else { 0nat })
    }
}

/// While the deck lasts, every pass reaches player `q`.
pub proof fn lemma_dealt_full(len: int, n: int, q: int, rounds: int)
    requires
        0 <= rounds,
        n > 0,
        rounds * n + q < len,
    ensures
        dealt_count(len, n, q, rounds) == rounds,
    decreases rounds,
{
    if rounds > 0 {
        lemma_earlier_slot(rounds - 1, rounds, n, q);
        lemma_dealt_full(len, n, q, rounds - 1);
    }
}

/// The `k`-th card of player `q` is dealt within `rounds` passes exactly
/// when pass `k` happens and reaches `q`.
pub proof fn lemma_dealt_count(len: int, n: int, q: int, rounds: int, k: int)
    requires
        0 <= rounds,
        n > 0,
        0 <= q,
        0 <= k,
    ensures
        dealt_count(len, n, q, rounds) <= rounds,
        k < dealt_count(len, n, q, rounds) <==> k < rounds && k * n + q < len,
    decreases rounds,
{
    if rounds > 0 {
        lemma_dealt_count(len, n, q, rounds - 1, k);
        if (rounds - 1) * n + q < len {
            if rounds - 1 > 0 {
                lemma_dealt_full(len, n, q, rounds - 1);
            }
            if k < rounds {
                if k < rounds - 1 {
                    lemma_earlier_slot(k, rounds - 1, n, q);
                }
            }
        } else {
            if k >= rounds - 1 && k < rounds {
                assert(k == rounds - 1);
            }
        }
    }
}

/// An earlier round deals an earlier card to the same player.
pub proof fn lemma_earlier_slot(k: int, r: int, n: int, p: int)
    requires
        0 <= k < r,
        n > 0,
    ensures
        k * n + p < r * n + p,
{
    assert(k * n < r * n) by (nonlinear_arith)
        requires
            k < r,
            n > 0,
    ;
}

pub proof fn lemma_cards_in_push(hs: Seq<Vec<Card>>, h: Vec<Card>)
    ensures
        cards_in(hs.push(h)) == cards_in(hs) + h@.len(),
{
    assert(hs.push(h).drop_last() =~= hs);
}

pub proof fn lemma_cards_in_update(hs: Seq<Vec<Card>>, i: int, h: Vec<Card>)
    requires
        0 <= i < hs.len(),
    ensures
        cards_in(hs.update(i, h)) + hs[i]@.len() == cards_in(hs) + h@.len(),
    decreases hs.len(),
{
    if i < hs.len() - 1 {
        lemma_cards_in_update(hs.drop_last(), i, h);
        assert(hs.update(i, h).drop_last() =~= hs.drop_last().update(i, h));
    } else {
        assert(hs.update(i, h).drop_last() =~= hs.drop_last());
    }
}

pub proof fn lemma_fisher_yates_len(d: Seq<Card>, state: u64, i: int)
    requires
        i < d.len(),
        d.len() <= u64::MAX,
    ensures
        fisher_yates(d, state, i).len() == d.len(),
    decreases i,
{
    if i > 0 {
        let s = lcg_next(state);
        let m = (i + 1) as u64;
        let j = (s % m) as int;
        assert(0 <= j < i + 1);
        assert(swap_cards(d, i, j).len() == d.len());
        lemma_fisher_yates_len(swap_cards(d, i, j), s, i - 1);
    }
}

/// A shuffle keeps the number of cards.
pub proof fn lemma_shuffled_len(d: Seq<Card>, seed: Seq<u8>)
    requires
        d.len() <= usize::MAX,
    ensures
        shuffled(d, seed).len() == d.len(),
{
    if d.len() > 0 {
        lemma_fisher_yates_len(d, seed_state(seed), d.len() - 1);
    }
}

/// The generator's initial state for the given seed bytes (64-bit FNV-1a).
pub fn seed_hash(seed: &[u8]) -> (r: u64)
    ensures
        r == seed_state(seed@),
{
    let mut h: u64 = FNV_OFFSET;
    let mut i: usize = 0;
    while i < seed.len()
        invariant
            i <= seed@.len(),
            h == seed_state(seed@.take(i as int)),
        decreases seed@.len() - i,
    {
        assert(seed@.take(i + 1).drop_last() =~= seed@.take(i as int));
        h = (h ^ (seed[i] as u64)).wrapping_mul(FNV_PRIME);
        proof {
            reveal(fnv_step);
        }
        i = i + 1;
    }
    assert(seed@.take(i as int) =~= seed@);
    h
}

impl GameEngine {
    /// Builds the fresh deck: every suit with every numbered rank, suit by
    /// suit, then the wild cards.
    pub fn create_deck() -> (r: Vec<Card>)
        ensures
            r@ == standard_deck(),
    {
        let mut deck: Vec<Card> = Vec::with_capacity(DECK_SIZE);
        let mut s: usize = 0;
        while s < SUIT_COUNT
            invariant
                s <= SUIT_COUNT,
                deck@.len() == s * RANK_COUNT,
                forall|k: int| 0 <= k < deck@.len() ==> deck@[k] == standard_card(k),
            decreases SUIT_COUNT - s,
        {
            let suit = suit_from_index(s);
            let mut v: usize = 0;
            while v < RANK_COUNT
                invariant
                    s < SUIT_COUNT,
                    v <= RANK_COUNT,
                    suit == suit_at(s as int),
                    deck@.len() == s * RANK_COUNT + v,
                    forall|k: int| 0 <= k < deck@.len() ==> deck@[k] == standard_card(k),
                decreases RANK_COUNT - v,
            {
                let ghost pos: int = (s * RANK_COUNT + v) as int;
                proof {
                    vstd::arithmetic::div_mod::lemma_fundamental_div_mod_converse(
                        pos,
                        RANK_COUNT as int,
                        s as int,
                        v as int,
                    );
                    assert(pos < (SUIT_COUNT * RANK_COUNT) as int) by (nonlinear_arith)
                        requires
                            pos == s * 14 + v,
                            s < 5,
                            v < 14,
                    ;
                }
                deck.push(Card { suit, value: rank_from_index(v) });
                v = v + 1;
            }
            s = s + 1;
        }
        let mut w: usize = 0;
        while w < WILD_COUNT
            invariant
                w <= WILD_COUNT,
                deck@.len() == SUIT_COUNT * RANK_COUNT + w,
                forall|k: int| 0 <= k < deck@.len() ==> deck@[k] == standard_card(k),
            decreases WILD_COUNT - w,
        {
            deck.push(Card { suit: CardSuit::Star, value: CardValue::Whot });
            w = w + 1;
        }
        assert(deck@ =~= standard_deck());
        deck
    }

    /// Shuffles `deck` in place, reproducibly: the result depends only on the
    /// cards and the seed bytes.
    pub fn shuffle_with_seed(deck: &mut Vec<Card>, seed: &[u8])
        ensures
            final(deck)@ == shuffled(old(deck)@, seed@),
    {
        let n = deck.len();
        if n <= 1 {
            return;
        }
        let ghost orig = deck@;
        let mut state = seed_hash(seed);
        let mut i: usize = n - 1;
        while i > 0
            invariant
                deck@.len() == n,
                i < n,
                fisher_yates(deck@, state, i as int) == shuffled(orig, seed@),
            decreases i,
        {
            let ghost prev = state;
            state = state.wrapping_mul(LCG_MUL).wrapping_add(LCG_INC);
            proof {
                reveal(lcg_next);
                assert(state == lcg_next(prev));
            }
            let m: u64 = (i + 1) as u64;
            let j = (state % m) as usize;
            let a = deck[i];
            let b = deck[j];
            deck.set(i, b);
            deck.set(j, a);
            i = i - 1;
        }
    }

    /// Deals up to `HAND_SIZE` cards to each of `n` players, popping from the
    /// tail of `deck` in round-robin order: player 0, 1, ..., n - 1, then player
    /// 0 again. Once the deck runs out, the remaining players get nothing more.
    pub fn deal_initial_hands(deck: &mut Vec<Card>, n: usize) -> (hands: Vec<Vec<Card>>)
        ensures
            hands@.len() == n,
            final(deck)@ == old(deck)@.take(old(deck)@.len() - dealt_total(old(deck)@.len() as int, n as int)),
            forall|q: int, k: int|
                0 <= q < n && 0 <= k ==> (k < hands@[q]@.len() <==> is_dealt(old(deck)@.len() as int, n as int, q, k)),
            forall|q: int, k: int|
                0 <= q < n && 0 <= k < hands@[q]@.len() ==> hands@[q]@[k] == old(deck)@[old(deck)@.len() - 1 - (k * n + q)],
            final(deck)@.len() + cards_in(hands@) == old(deck)@.len(),
    {
        let len = deck.len();
        let ghost d = deck@;
        let mut hands: Vec<Vec<Card>> = Vec::new();
        let mut q: usize = 0;
        while q < n
            invariant
                q <= n,
                hands@.len() == q,
                forall|p: int| 0 <= p < q ==> (#[trigger] hands@[p])@.len() == 0,
                cards_in(hands@) == 0,
            decreases n - q,
        {
            let empty: Vec<Card> = Vec::new();
            proof {
                lemma_cards_in_push(hands@, empty);
            }
            hands.push(empty);
            q = q + 1;
        }
        let mut r: usize = 0;
        while r < HAND_SIZE
            invariant
                r <= HAND_SIZE,
                len == d.len(),
                hands@.len() == n,
                deck@ == d.take(len - taken(len as int, r * n)),
                deck@.len() + cards_in(hands@) == len,
                forall|p: int| 0 <= p < n ==> #[trigger] hands@[p]@.len() == dealt_count(len as int, n as int, p, r as int),
                forall|p: int, k: int|
                    0 <= p < n && 0 <= k < hands@[p]@.len() ==> hands@[p]@[k] == d[len - 1 - (k * n + p)],
            decreases HAND_SIZE - r,
        {
            let mut p: usize = 0;
            while p < n
                invariant
                    r < HAND_SIZE,
                    p <= n,
                    len == d.len(),
                    hands@.len() == n,
                    deck@ == d.take(len - taken(len as int, r * n + p)),
                    deck@.len() + cards_in(hands@) == len,
                    forall|q: int|
                        0 <= q < n ==> #[trigger] hands@[q]@.len() == dealt_count(
                            len as int,
                            n as int,
                            q,
                            if q < p { r + 1 } else { r as int },
                        ),
                    forall|q: int, k: int|
                        0 <= q < n && 0 <= k < hands@[q]@.len() ==> hands@[q]@[k] == d[len - 1 - (k * n + q)],
                decreases n - p,
            {
                let ghost t: int = r * n + p;
                let ghost before = hands@;
                if let Some(card) = deck.pop() {
                    proof {
                        assert(t < len);
                        if r > 0 {
                            lemma_earlier_slot(r - 1, r as int, n as int, p as int);
                            lemma_dealt_full(len as int, n as int, p as int, r as int);
                        }
                        assert(before[p as int]@.len() == r);
                    }
                    let mut hand: Vec<Card> = Vec::new();
                    hands.set_and_swap(p, &mut hand);
                    hand.push(card);
                    let ghost grown = hand;
                    hands.set_and_swap(p, &mut hand);
                    proof {
                        assert(hands@ =~= before.update(p as int, grown));
                        lemma_cards_in_update(before, p as int, grown);
                        assert(hands@[p as int]@.len() == r + 1);
                        assert(hands@[p as int]@[r as int] == d[len - 1 - t]);
                        assert(deck@ =~= d.take(len - taken(len as int, r * n + p + 1)));
                    }
                } else {
                    proof {
                        assert(t >= len);
                        assert(hands@ == before);
                    }
                }
                p = p + 1;
            }
            assert((r + 1) * n == r * n + n) by (nonlinear_arith);
            r = r + 1;
        }
        proof {
            assert forall|q: int, k: int| 0 <= q < n && 0 <= k implies (k < hands@[q]@.len()
                <==> is_dealt(len as int, n as int, q, k)) by {
                lemma_dealt_count(len as int, n as int, q, HAND_SIZE as int, k);
            }
        }
        hands
    }

}

} // verus!
