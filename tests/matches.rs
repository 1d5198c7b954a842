use linot::card::{Card, CardSuit, CardValue};
use linot::contract::LinotContract;
use linot::state::{MatchConfig, MatchStatus, Owner, Player};
use linot::{LinotError, Message, Operation};

fn owner(b: u8) -> Owner {
    Owner::new(vec![b, 7, b])
}

fn card(suit: CardSuit, value: CardValue) -> Card {
    Card { suit, value }
}

fn config(max_players: u8) -> MatchConfig {
    MatchConfig { max_players, host: Some(owner(1)), is_ranked: false, strict_mode: false }
}

fn new_match(max_players: u8) -> LinotContract {
    LinotContract::instantiate(config(max_players), None, 42, b"chain-abc".to_vec())
}

fn join(c: &mut LinotContract, who: u8, name: &str) -> Result<(), LinotError> {
    c.execute_operation(Some(owner(who)), Operation::JoinMatch { nickname: name.to_string() })
}

fn total_cards(c: &LinotContract) -> usize {
    let m = &c.state.match_data;
    m.deck.len() + m.discard_pile.len() + m.players.iter().map(|p| p.cards.len()).sum::<usize>()
}

fn counts_consistent(c: &LinotContract) -> bool {
    c.state.match_data.players.iter().all(|p| p.card_count == p.cards.len())
}

fn seat(who: u8, cards: Vec<Card>) -> Player {
    let mut p = Player::new(owner(who), format!("p{}", who));
    p.cards = cards;
    p.update_card_count();
    p
}

/// A match in progress with the given hands, deck and discard pile; player
/// 0 is to move.
fn arranged(hands: Vec<Vec<Card>>, deck: Vec<Card>, discard: Vec<Card>) -> LinotContract {
    let mut c = new_match(hands.len() as u8);
    for (i, h) in hands.into_iter().enumerate() {
        c.state.match_data.players.push(seat(i as u8 + 1, h));
    }
    c.state.match_data.deck = deck;
    c.state.match_data.discard_pile = discard;
    c.state.match_data.status = MatchStatus::InProgress;
    c
}

fn started_pair() -> LinotContract {
    let mut c = new_match(2);
    assert_eq!(join(&mut c, 1, "host"), Ok(()));
    assert_eq!(join(&mut c, 2, "guest"), Ok(()));
    assert_eq!(c.execute_operation(Some(owner(1)), Operation::StartMatch), Ok(()));
    c
}

#[test]
fn instantiate_uses_signer_when_no_host() {
    let cfg = MatchConfig { max_players: 2, host: None, is_ranked: true, strict_mode: false };
    let c = LinotContract::instantiate(cfg, Some(owner(9)), 7, b"x".to_vec());
    assert!(c.state.config.host.as_ref().unwrap().same_as(&owner(9)));
    assert_eq!(c.state.match_data.status, MatchStatus::Waiting);
    assert_eq!(c.state.match_data.created_at, 7);
    assert!(c.state.match_data.players.is_empty());
    assert!(c.state.betting_pool.is_none());
    let kept = LinotContract::instantiate(config(2), Some(owner(9)), 7, b"x".to_vec());
    assert!(kept.state.config.host.as_ref().unwrap().same_as(&owner(1)));
}

#[test]
fn two_players_join_and_host_starts() {
    let c = started_pair();
    let m = &c.state.match_data;
    assert_eq!(m.status, MatchStatus::InProgress);
    assert_eq!(m.players.len(), 2);
    for p in m.players.iter() {
        assert_eq!(p.cards.len(), 6);
        assert_eq!(p.card_count, 6);
    }
    assert_eq!(m.discard_pile.len(), 1);
    assert_eq!(m.current_player_index, 0);
    assert_eq!(m.deck.len(), 75 - 12 - 1);
    assert_eq!(total_cards(&c), 75);
}

#[test]
fn start_deals_from_the_seeded_shuffle() {
    let c = started_pair();
    let mut d = linot::game_engine::GameEngine::create_deck();
    linot::game_engine::GameEngine::shuffle_with_seed(&mut d, b"chain-abc");
    let m = &c.state.match_data;
    assert_eq!(m.players[0].cards[0], d[74]);
    assert_eq!(m.players[1].cards[0], d[73]);
    assert_eq!(m.discard_pile[0], d[62]);
    assert_eq!(&m.deck[..], &d[..62]);
    let again = started_pair();
    assert_eq!(again.state.match_data.deck, m.deck);
}

#[test]
fn joining_beyond_capacity_is_refused() {
    let mut c = new_match(2);
    assert_eq!(join(&mut c, 1, "a"), Ok(()));
    assert_eq!(join(&mut c, 2, "b"), Ok(()));
    assert_eq!(join(&mut c, 3, "c"), Err(LinotError::MatchFull(2)));
    assert_eq!(c.state.match_data.players.len(), 2);
}

#[test]
fn joining_twice_is_refused() {
    let mut c = new_match(4);
    assert_eq!(join(&mut c, 1, "a"), Ok(()));
    assert_eq!(join(&mut c, 1, "again"), Err(LinotError::PlayerAlreadyJoined));
    assert_eq!(c.state.match_data.players.len(), 1);
}

#[test]
fn starting_with_one_player_is_refused() {
    let mut c = new_match(2);
    assert_eq!(join(&mut c, 1, "a"), Ok(()));
    assert_eq!(c.execute_operation(Some(owner(1)), Operation::StartMatch), Err(LinotError::NotEnoughPlayers(2)));
    assert_eq!(c.state.match_data.status, MatchStatus::Waiting);
}

#[test]
fn only_the_host_starts() {
    let mut c = new_match(2);
    join(&mut c, 1, "a").unwrap();
    join(&mut c, 2, "b").unwrap();
    assert_eq!(c.execute_operation(Some(owner(2)), Operation::StartMatch), Err(LinotError::OnlyHostCanStart));
    let cfg = MatchConfig { max_players: 2, host: None, is_ranked: false, strict_mode: false };
    let mut hostless = LinotContract::instantiate(cfg, None, 0, b"c".to_vec());
    join(&mut hostless, 1, "a").unwrap();
    join(&mut hostless, 2, "b").unwrap();
    assert_eq!(hostless.execute_operation(Some(owner(1)), Operation::StartMatch), Err(LinotError::OnlyHostCanStart));
}

#[test]
fn started_match_refuses_joins_and_restarts() {
    let mut c = started_pair();
    assert_eq!(join(&mut c, 3, "late"), Err(LinotError::MatchAlreadyStarted));
    assert_eq!(c.execute_operation(Some(owner(1)), Operation::StartMatch), Err(LinotError::MatchAlreadyStarted));
}

#[test]
fn missing_caller_and_betting_are_refused() {
    let mut c = new_match(2);
    assert_eq!(c.execute_operation(None, Operation::DrawCard), Err(LinotError::CallerRequired));
    assert_eq!(
        c.execute_operation(Some(owner(1)), Operation::PlaceBet { player_index: 0, amount: 5 }),
        Err(LinotError::BettingNotImplemented)
    );
}

#[test]
fn matching_suit_moves_card_and_passes_turn() {
    let top = card(CardSuit::Circle, CardValue::Three);
    let mine = card(CardSuit::Circle, CardValue::Nine);
    let mut c = arranged(
        vec![
            vec![card(CardSuit::Cross, CardValue::One), mine, card(CardSuit::Square, CardValue::Two)],
            vec![card(CardSuit::Star, CardValue::Five)],
        ],
        vec![card(CardSuit::Triangle, CardValue::Seven)],
        vec![top],
    );
    let r = c.execute_operation(Some(owner(1)), Operation::PlayCard { card_index: 1, chosen_suit: None });
    assert_eq!(r, Ok(()));
    let m = &c.state.match_data;
    assert_eq!(m.players[0].cards, vec![card(CardSuit::Cross, CardValue::One), card(CardSuit::Square, CardValue::Two)]);
    assert_eq!(m.players[0].card_count, 2);
    assert_eq!(m.discard_pile, vec![top, mine]);
    assert_eq!(m.current_player_index, 1);
    assert_eq!(m.pending_penalty, 0);
    assert_eq!(m.active_shape_demand, None);
    assert_eq!(m.status, MatchStatus::InProgress);
}

#[test]
fn pick_two_then_draw_discharges_penalty() {
    let mut c = arranged(
        vec![
            vec![card(CardSuit::Circle, CardValue::PickTwo), card(CardSuit::Cross, CardValue::One)],
            vec![card(CardSuit::Star, CardValue::Five)],
        ],
        vec![
            card(CardSuit::Triangle, CardValue::Seven),
            card(CardSuit::Triangle, CardValue::Eight),
            card(CardSuit::Triangle, CardValue::Nine),
        ],
        vec![card(CardSuit::Circle, CardValue::Three)],
    );
    let before = total_cards(&c);
    assert_eq!(c.execute_operation(Some(owner(1)), Operation::PlayCard { card_index: 0, chosen_suit: None }), Ok(()));
    assert_eq!(c.state.match_data.pending_penalty, 2);
    assert_eq!(c.state.match_data.current_player_index, 1);
    assert_eq!(c.execute_operation(Some(owner(2)), Operation::DrawCard), Ok(()));
    let m = &c.state.match_data;
    assert_eq!(m.players[1].cards.len(), 3);
    assert_eq!(m.players[1].card_count, 3);
    assert_eq!(m.players[1].cards[1], card(CardSuit::Triangle, CardValue::Nine));
    assert_eq!(m.players[1].cards[2], card(CardSuit::Triangle, CardValue::Eight));
    assert_eq!(m.pending_penalty, 0);
    assert_eq!(m.current_player_index, 0);
    assert_eq!(total_cards(&c), before);
}

#[test]
fn penalty_refuses_other_cards() {
    let mut c = arranged(
        vec![vec![card(CardSuit::Circle, CardValue::Four)], vec![card(CardSuit::Star, CardValue::Five)]],
        vec![],
        vec![card(CardSuit::Circle, CardValue::PickTwo)],
    );
    c.state.match_data.pending_penalty = 2;
    let r = c.execute_operation(Some(owner(1)), Operation::PlayCard { card_index: 0, chosen_suit: None });
    assert_eq!(r, Err(LinotError::InvalidCardPlay));
    assert_eq!(c.state.match_data.players[0].cards.len(), 1);
}

#[test]
fn emptying_a_hand_wins_and_ends_the_match() {
    let mut c = arranged(
        vec![vec![card(CardSuit::Circle, CardValue::Nine)], vec![card(CardSuit::Star, CardValue::Five)]],
        vec![card(CardSuit::Triangle, CardValue::Seven)],
        vec![card(CardSuit::Circle, CardValue::Three)],
    );
    assert_eq!(c.execute_operation(Some(owner(1)), Operation::PlayCard { card_index: 0, chosen_suit: None }), Ok(()));
    assert_eq!(c.state.match_data.status, MatchStatus::Finished);
    assert_eq!(c.state.match_data.winner_index, Some(0));
    for who in [1u8, 2u8] {
        let r = c.execute_operation(Some(owner(who)), Operation::PlayCard { card_index: 0, chosen_suit: None });
        assert_eq!(r, Err(LinotError::MatchNotInProgress));
    }
}

#[test]
fn all_but_one_leave_and_the_last_wins() {
    let mut c = new_match(3);
    join(&mut c, 1, "a").unwrap();
    join(&mut c, 2, "b").unwrap();
    join(&mut c, 3, "c").unwrap();
    c.execute_operation(Some(owner(1)), Operation::StartMatch).unwrap();
    assert_eq!(c.execute_operation(Some(owner(1)), Operation::LeaveMatch), Ok(()));
    assert_eq!(c.state.match_data.status, MatchStatus::InProgress);
    assert_eq!(c.execute_operation(Some(owner(3)), Operation::LeaveMatch), Ok(()));
    assert_eq!(c.state.match_data.status, MatchStatus::Finished);
    assert_eq!(c.state.match_data.winner_index, Some(1));
    assert_eq!(total_cards(&c), 75);
}

#[test]
fn leaving_while_waiting_can_finish() {
    let mut c = new_match(2);
    join(&mut c, 1, "a").unwrap();
    join(&mut c, 2, "b").unwrap();
    assert_eq!(c.execute_operation(Some(owner(2)), Operation::LeaveMatch), Ok(()));
    assert_eq!(c.state.match_data.status, MatchStatus::Finished);
    assert_eq!(c.state.match_data.winner_index, Some(0));
}

#[test]
fn wrong_turn_bad_index_and_empty_discard() {
    let mut c = arranged(
        vec![vec![card(CardSuit::Circle, CardValue::Nine)], vec![card(CardSuit::Star, CardValue::Five)]],
        vec![],
        vec![],
    );
    let play = |i| Operation::PlayCard { card_index: i, chosen_suit: None };
    assert_eq!(c.execute_operation(Some(owner(2)), play(0)), Err(LinotError::NotYourTurn));
    assert_eq!(c.execute_operation(Some(owner(2)), Operation::DrawCard), Err(LinotError::NotYourTurn));
    assert_eq!(c.execute_operation(Some(owner(1)), play(1)), Err(LinotError::InvalidCardIndex(1)));
    assert_eq!(c.execute_operation(Some(owner(1)), play(0)), Err(LinotError::NoCardInDiscardPile));
    assert_eq!(
        c.execute_operation(Some(owner(1)), Operation::ChallengeLastCard { player_index: 5 }),
        Err(LinotError::InvalidPlayerIndex(5))
    );
}

#[test]
fn waiting_match_refuses_play_and_draw() {
    let mut c = new_match(2);
    join(&mut c, 1, "a").unwrap();
    assert_eq!(
        c.execute_operation(Some(owner(1)), Operation::PlayCard { card_index: 0, chosen_suit: None }),
        Err(LinotError::MatchNotInProgress)
    );
    assert_eq!(c.execute_operation(Some(owner(1)), Operation::DrawCard), Err(LinotError::MatchNotInProgress));
}

#[test]
fn wild_sets_demand_and_drawing_clears_it() {
    let mut c = arranged(
        vec![
            vec![card(CardSuit::Star, CardValue::Whot), card(CardSuit::Cross, CardValue::One)],
            vec![card(CardSuit::Star, CardValue::Five)],
        ],
        vec![card(CardSuit::Triangle, CardValue::Seven)],
        vec![card(CardSuit::Circle, CardValue::Three)],
    );
    let r = c.execute_operation(Some(owner(1)), Operation::PlayCard { card_index: 0, chosen_suit: Some(CardSuit::Square) });
    assert_eq!(r, Ok(()));
    assert_eq!(c.state.match_data.active_shape_demand, Some(CardSuit::Square));
    assert_eq!(c.state.match_data.players[0].called_last_card, true);
    assert_eq!(c.execute_operation(Some(owner(2)), Operation::DrawCard), Ok(()));
    assert_eq!(c.state.match_data.active_shape_demand, None);
    assert_eq!(c.state.match_data.players[1].cards.len(), 2);
    assert_eq!(c.state.match_data.current_player_index, 0);
}

#[test]
fn hold_on_keeps_the_turn_and_suspension_skips() {
    let mut c = arranged(
        vec![
            vec![
                card(CardSuit::Circle, CardValue::HoldOn),
                card(CardSuit::Circle, CardValue::Suspension),
                card(CardSuit::Cross, CardValue::One),
            ],
            vec![card(CardSuit::Star, CardValue::Five)],
            vec![card(CardSuit::Star, CardValue::Six)],
            vec![card(CardSuit::Star, CardValue::Seven)],
        ],
        vec![card(CardSuit::Triangle, CardValue::Seven)],
        vec![card(CardSuit::Circle, CardValue::Three)],
    );
    let play = Operation::PlayCard { card_index: 0, chosen_suit: None };
    assert_eq!(c.execute_operation(Some(owner(1)), play), Ok(()));
    assert_eq!(c.state.match_data.current_player_index, 0);
    let play = Operation::PlayCard { card_index: 0, chosen_suit: None };
    assert_eq!(c.execute_operation(Some(owner(1)), play), Ok(()));
    assert_eq!(c.state.match_data.current_player_index, 3);
}

#[test]
fn general_market_deals_to_the_others() {
    let mut c = arranged(
        vec![
            vec![card(CardSuit::Circle, CardValue::GeneralMarket), card(CardSuit::Cross, CardValue::One)],
            vec![card(CardSuit::Star, CardValue::Five)],
            vec![card(CardSuit::Star, CardValue::Six)],
        ],
        vec![card(CardSuit::Triangle, CardValue::Seven), card(CardSuit::Triangle, CardValue::Eight)],
        vec![card(CardSuit::Circle, CardValue::Three)],
    );
    let before = total_cards(&c);
    let play = Operation::PlayCard { card_index: 0, chosen_suit: None };
    assert_eq!(c.execute_operation(Some(owner(1)), play), Ok(()));
    let m = &c.state.match_data;
    assert_eq!(m.players[0].cards.len(), 1);
    assert_eq!(m.players[1].cards[1], card(CardSuit::Triangle, CardValue::Eight));
    assert_eq!(m.players[2].cards[1], card(CardSuit::Triangle, CardValue::Seven));
    assert!(m.deck.is_empty());
    assert_eq!(m.current_player_index, 1);
    assert_eq!(total_cards(&c), before);
    assert!(counts_consistent(&c));
}

#[test]
fn draw_from_empty_deck_reshuffles_discards() {
    let top = card(CardSuit::Circle, CardValue::Three);
    let mut c = arranged(
        vec![vec![card(CardSuit::Cross, CardValue::One)], vec![card(CardSuit::Star, CardValue::Five)]],
        vec![],
        vec![card(CardSuit::Square, CardValue::Two), card(CardSuit::Square, CardValue::Four), top],
    );
    let before = total_cards(&c);
    assert_eq!(c.execute_operation(Some(owner(1)), Operation::DrawCard), Ok(()));
    let m = &c.state.match_data;
    assert_eq!(m.round_number, 1);
    assert_eq!(m.discard_pile, vec![top]);
    assert_eq!(m.deck.len(), 1);
    assert_eq!(m.players[0].cards.len(), 2);
    assert_eq!(m.current_player_index, 1);
    assert_eq!(total_cards(&c), before);
    let mut expected = vec![card(CardSuit::Square, CardValue::Two), card(CardSuit::Square, CardValue::Four)];
    linot::game_engine::GameEngine::shuffle_with_seed(&mut expected, b"chain-abc1");
    assert_eq!(m.players[0].cards[1], expected[1]);
    assert_eq!(m.deck[0], expected[0]);
}

#[test]
fn draw_with_nothing_left_still_passes_the_turn() {
    let mut c = arranged(
        vec![vec![card(CardSuit::Cross, CardValue::One)], vec![card(CardSuit::Star, CardValue::Five)]],
        vec![],
        vec![card(CardSuit::Circle, CardValue::Three)],
    );
    c.state.match_data.pending_penalty = 3;
    assert_eq!(c.execute_operation(Some(owner(1)), Operation::DrawCard), Ok(()));
    let m = &c.state.match_data;
    assert_eq!(m.players[0].cards.len(), 1);
    assert_eq!(m.pending_penalty, 0);
    assert_eq!(m.current_player_index, 1);
    assert_eq!(m.round_number, 0);
}

#[test]
fn challenge_penalises_an_undeclared_last_card() {
    let mut c = arranged(
        vec![vec![card(CardSuit::Cross, CardValue::One)], vec![card(CardSuit::Star, CardValue::Five)]],
        vec![card(CardSuit::Triangle, CardValue::Seven)],
        vec![card(CardSuit::Circle, CardValue::Three)],
    );
    let op = Operation::ChallengeLastCard { player_index: 1 };
    assert_eq!(c.execute_operation(Some(owner(1)), op), Ok(()));
    let m = &c.state.match_data;
    assert_eq!(m.players[1].cards.len(), 2);
    assert_eq!(m.players[1].card_count, 2);
    assert!(m.deck.is_empty());
    assert_eq!(m.current_player_index, 0);
    let op = Operation::ChallengeLastCard { player_index: 0 };
    assert_eq!(c.execute_operation(Some(owner(2)), Operation::CallLastCard), Ok(()));
    assert_eq!(c.execute_operation(Some(owner(1)), Operation::CallLastCard), Ok(()));
    assert!(c.state.match_data.players[0].called_last_card);
    assert_eq!(c.execute_operation(Some(owner(2)), op), Ok(()));
    assert_eq!(c.state.match_data.players[0].cards.len(), 1);
}

#[test]
fn remote_join_behaves_like_local_join() {
    let mut c = new_match(2);
    c.execute_message(Message::PlayerJoined { player: owner(5), nickname: "far".to_string() });
    assert_eq!(c.state.match_data.players.len(), 1);
    assert_eq!(c.state.match_data.players[0].nickname, "far");
    c.execute_message(Message::PlayerJoined { player: owner(5), nickname: "far".to_string() });
    assert_eq!(c.state.match_data.players.len(), 1);
    c.execute_message(Message::InvitePlayer { inviter: owner(1), match_id: "m".to_string() });
    assert_eq!(c.state.match_data.players.len(), 1);
}

#[test]
fn a_played_out_match_keeps_counts_and_cards() {
    let mut c = started_pair();
    let mut turns = 0;
    while c.state.match_data.status == MatchStatus::InProgress && turns < 400 {
        let idx = c.state.match_data.current_player_index;
        let who = idx as u8 + 1;
        let n = c.state.match_data.players[idx].cards.len();
        let mut played = false;
        for i in 0..n {
            let op = Operation::PlayCard { card_index: i, chosen_suit: Some(CardSuit::Circle) };
            if c.execute_operation(Some(owner(who)), op).is_ok() {
                played = true;
                break;
            }
        }
        if !played {
            assert_eq!(c.execute_operation(Some(owner(who)), Operation::DrawCard), Ok(()));
        }
        assert!(counts_consistent(&c));
        assert_eq!(total_cards(&c), 75);
        turns += 1;
    }
}

#[test]
fn player_view_shows_own_hand_and_hides_others() {
    let c = started_pair();
    let mine = c.state.match_data.players[1].cards.clone();
    let top = *c.state.match_data.discard_pile.last().unwrap();
    let service = linot::service::LinotService::new(c.state);
    let v = service.player_view(&owner(2)).unwrap();
    assert_eq!(v.my_cards, mine);
    assert_eq!(v.my_card_count, 6);
    assert_eq!(v.opponents.len(), 1);
    assert!(v.opponents[0].owner.same_as(&owner(1)));
    assert_eq!(v.opponents[0].nickname, "host");
    assert_eq!(v.opponents[0].card_count, 6);
    assert_eq!(v.top_card, Some(top));
    assert_eq!(v.deck_size, 62);
    assert_eq!(v.status, MatchStatus::InProgress);
    assert_eq!(v.current_player_index, 0);
    assert!(service.player_view(&owner(9)).is_none());
}

#[test]
fn public_queries() {
    let c = started_pair();
    let service = linot::service::LinotService::new(c.state);
    let ps = service.players();
    assert_eq!(ps.len(), 2);
    assert_eq!(ps[1].nickname, "guest");
    assert_eq!(ps[0].card_count, 6);
    assert!(service.current_player().unwrap().same_as(&owner(1)));
    assert_eq!(service.deck_size(), 62);
    assert_eq!(service.pending_penalty(), 0);
    assert_eq!(service.active_shape_demand(), None);
    assert_eq!(service.status(), MatchStatus::InProgress);
    assert_eq!(service.current_player_index(), 0);
    assert!(service.top_card().is_some());
    assert!(service.winner().is_none());
    assert_eq!(service.betting_pool_total(), 0);
    assert_eq!(service.config().max_players, 2);
    assert_eq!(service.match_state().players.len(), 2);
}

#[test]
fn winner_query_names_the_winner() {
    let mut c = new_match(2);
    join(&mut c, 1, "a").unwrap();
    join(&mut c, 2, "b").unwrap();
    c.execute_operation(Some(owner(1)), Operation::LeaveMatch).unwrap();
    let service = linot::service::LinotService::new(c.state);
    assert!(service.winner().unwrap().same_as(&owner(2)));
    let empty = new_match(2);
    let quiet = linot::service::LinotService::new(empty.state);
    assert!(quiet.top_card().is_none());
    assert!(quiet.current_player().is_none());
}
