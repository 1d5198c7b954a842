use vstd::prelude::*;

verus! {

/// The five shapes a card can carry.
#[derive(Debug, Clone, Copy, PartialEq, Eq, Structural, Hash)]
pub enum CardSuit {
    Circle,
    Cross,
    Triangle,
    Square,
    Star,
}

/// The fourteen numbered ranks and the special kinds.
#[derive(Debug, Clone, Copy, PartialEq, Eq, Structural)]
pub enum CardValue {
    One,
    Two,
    Three,
    Four,
    Five,
    Six,
    Seven,
    Eight,
    Nine,
    Ten,
    Eleven,
    Twelve,
    Thirteen,
    Fourteen,
    Whot,
    PickTwo,
    PickThree,
    GeneralMarket,
    HoldOn,
    Suspension,
}

/// A card is a plain value: two cards with the same suit and value are equal.
#[derive(Debug, Clone, Copy, PartialEq, Eq, Structural)]
pub struct Card {
    pub suit: CardSuit,
    pub value: CardValue,
}

/// Number of suits.
pub const SUIT_COUNT: usize = 5;

/// Number of numbered ranks per suit.
pub const RANK_COUNT: usize = 14;

/// Number of wild cards appended after the numbered cards.
pub const WILD_COUNT: usize = 5;

/// Size of a freshly built deck.
pub const DECK_SIZE: usize = 75;

/// The suit at position `k` of the suit enumeration order.
pub open spec fn suit_at(k: int) -> CardSuit {
    if k == 0 {
        CardSuit::Circle
    } else if k == 1 {
        CardSuit::Cross
    } else if k == 2 {
        CardSuit::Triangle
    } else if k == 3 {
        CardSuit::Square
    } else {
        CardSuit::Star
    }
}

/// The numbered rank at position `k` (0 is `One`, 13 is `Fourteen`).
pub open spec fn rank_at(k: int) -> CardValue {
    if k == 0 {
        CardValue::One
    } else if k == 1 {
        CardValue::Two
    } else if k == 2 {
        CardValue::Three
    } else if k == 3 {
        CardValue::Four
    } else if k == 4 {
        CardValue::Five
    } else if k == 5 {
        CardValue::Six
    } else if k == 6 {
        CardValue::Seven
    } else if k == 7 {
        CardValue::Eight
    } else if k == 8 {
        CardValue::Nine
    } else if k == 9 {
        CardValue::Ten
    } else if k == 10 {
        CardValue::Eleven
    } else if k == 11 {
        CardValue::Twelve
    } else if k == 12 {
        CardValue::Thirteen
    } else {
        CardValue::Fourteen
    }
}

/// The wild card as it appears in a fresh deck.
pub open spec fn wild_card() -> Card {
    Card { suit: CardSuit::Star, value: CardValue::Whot }
}

/// Card `i` of a fresh deck: suit-major enumeration of the numbered cards,
/// followed by the wild cards.
pub open spec fn standard_card(i: int) -> Card {
    if i < (SUIT_COUNT * RANK_COUNT) as int {
        Card { suit: suit_at(i / RANK_COUNT as int), value: rank_at(i % RANK_COUNT as int) }
    } else {
        wild_card()
    }
}

/// The fresh deck, in the order in which it is built.
pub open spec fn standard_deck() -> Seq<Card> {
    Seq::new(DECK_SIZE as nat, |i: int| standard_card(i))
}

pub fn suit_from_index(k: usize) -> (r: CardSuit)
    requires
        k < SUIT_COUNT,
    ensures
        r == suit_at(k as int),
{
    if k == 0 {
        CardSuit::Circle
    } else if k == 1 {
        CardSuit::Cross
    } else if k == 2 {
        CardSuit::Triangle
    } else if k == 3 {
        CardSuit::Square
    } else {
        CardSuit::Star
    }
}

pub fn rank_from_index(k: usize) -> (r: CardValue)
    requires
        k < RANK_COUNT,
    ensures
        r == rank_at(k as int),
{
    if k == 0 {
        CardValue::One
    } else if k == 1 {
        CardValue::Two
    } else if k == 2 {
        CardValue::Three
    } else if k == 3 {
        CardValue::Four
    } else if k == 4 {
        CardValue::Five
    } else if k == 5 {
        CardValue::Six
    } else if k == 6 {
        CardValue::Seven
    } else if k == 7 {
        CardValue::Eight
    } else if k == 8 {
        CardValue::Nine
    } else if k == 9 {
        CardValue::Ten
    } else if k == 10 {
        CardValue::Eleven
    } else if k == 11 {
        CardValue::Twelve
    } else if k == 12 {
        CardValue::Thirteen
    } else {
        CardValue::Fourteen
    }
}

} // verus!
