use mplz_core::dice_rolling::{DiceResult, UtilityDice};
use mplz_core::events::EventKind;
use mplz_core::game::{MonopolyGame, TurnDice};
use mplz_core::rules::{Throw, JAIL_POSITION, MONEY_LIMIT, TURN_GROWTH};
use mplz_core::places::BoardPlace;
use mplz_core::player::PlayerState;

fn seven() -> DiceResult {
    DiceResult::Different(7)
}

fn throw(movement: DiceResult) -> Throw {
    Throw { movement, rent: seven() }
}

fn dice(game: &MonopolyGame, moves: [DiceResult; 3]) -> TurnDice {
    TurnDice {
        throws: moves.iter().map(|&m| throw(m)).collect(),
        exposures: game
            .players
            .iter()
            .map(|_| UtilityDice { electric_company: seven(), water_works: seven() })
            .collect(),
    }
}

fn checked(game: &MonopolyGame) {
    assert!(game.board.validate_houses());
    assert!(game.is_well_formed());
}

#[test]
fn new_game_seeds_every_player() {
    let game = MonopolyGame::new(3);
    assert_eq!(game.players.len(), 3);
    for (i, player) in game.players.iter().enumerate() {
        assert_eq!(player.player_id, i);
        assert_eq!(player.money, 1500);
        assert_eq!(player.position, 0);
        assert_eq!(player.state, PlayerState::Active);
    }
    assert_eq!(game.turn, 0);
    assert!(game.logs.is_empty());
    assert_eq!(game.count_active_players(), 3);
    assert_eq!(game.get_current_player().player_id, 0);
    assert_eq!(game.get_player(2).player_id, 2);
    assert!(game.is_within_limit());
    checked(&game);
}

#[test]
fn players_can_be_changed_in_place() {
    let mut game = MonopolyGame::new(2);
    game.get_player_mut(1).money = 7;
    assert_eq!(game.players[1].money, 7);
    game.get_current_player_mut().position = 12;
    assert_eq!(game.players[0].position, 12);
    game.players[0].state = PlayerState::Bankrupted;
    assert_eq!(game.count_active_players(), 1);
    game.players[1].state = PlayerState::InJail(1);
    assert_eq!(game.count_active_players(), 1);
}

#[test]
fn landing_on_a_free_property_buys_it() {
    let mut game = MonopolyGame::new(2);
    game.move_player(1, seven());
    assert_eq!(game.players[0].position, 1);
    assert_eq!(game.players[0].money, 1440);
    assert_eq!(game.board.places[1].get_owner(), Some(0));
    assert_eq!(
        game.logs,
        vec![
            "[PLAYER0] Moves from Go to Mediterranean Avenue.".to_string(),
            "[PLAYER0] Buys Mediterranean Avenue for $60.".to_string(),
            "[PLAYER0] Pays $60 to the bank for Mediterranean Avenue.".to_string(),
            "[PLAYER0] Money: $1500 -> $1440".to_string(),
        ]
    );
    checked(&game);
}

#[test]
fn a_property_too_dear_bankrupts_the_buyer() {
    let mut game = MonopolyGame::new(2);
    game.players[0].money = 59;
    game.move_player(1, seven());
    assert_eq!(game.players[0].state, PlayerState::Bankrupted);
    assert_eq!(game.players[0].money, 0);
    assert_eq!(game.board.places[1].get_owner(), None);
    checked(&game);
}

#[test]
fn passing_go_brings_two_hundred_whatever_the_distance() {
    for count in [5, 7, 45, 47, 400 + 7] {
        let mut game = MonopolyGame::new(2);
        game.players[0].position = 35;
        game.move_player(count, seven());
        assert_eq!(game.players[0].position, (35 + count) % 40);
        assert_eq!(game.players[0].money, 1700, "after {} places", count);
        assert_eq!(game.logs[0], "[PLAYER0] Gains $200 for passing GO.");
    }
    let mut game = MonopolyGame::new(2);
    game.players[0].position = 35;
    game.move_player(1, seven());
    assert_eq!(game.players[0].position, 36);
    assert_eq!(game.players[0].money, 1500);
}

#[test]
fn the_owner_of_four_railroads_gets_two_hundred() {
    let mut game = MonopolyGame::new(2);
    for place in [5, 15, 25, 35] {
        game.board.set_owner(place, Some(0));
    }
    game.turn = 1;
    game.move_player(5, seven());
    assert_eq!(game.players[1].money, 1300);
    assert_eq!(game.players[0].money, 1700);
    assert_eq!(game.players[1].state, PlayerState::Active);
    assert_eq!(game.logs[1], "[PLAYER1] Pays $200 to PLAYER0 for Reading Railroad.");
    checked(&game);
}

#[test]
fn utility_rent_goes_by_the_throw_of_the_move() {
    let mut game = MonopolyGame::new(2);
    game.board.set_owner(12, Some(1));
    game.move_player(12, DiceResult::Same(12));
    assert_eq!(game.players[0].money, 1500 - 48);
    assert_eq!(game.players[1].money, 1500 + 48);
}

#[test]
fn taxes_go_to_the_bank_and_jail_takes_the_token() {
    let mut game = MonopolyGame::new(2);
    game.move_player(4, seven());
    assert_eq!(game.players[0].money, 1300);
    game.move_player(34, seven());
    assert_eq!(game.players[0].position, 38);
    assert_eq!(game.players[0].money, 1200);
    game.players[0].position = 28;
    game.move_player(2, seven());
    assert_eq!(game.players[0].position, JAIL_POSITION);
    assert_eq!(game.players[0].state, PlayerState::InJail(0));
    assert_eq!(game.players[0].money, 1200);
}

#[test]
fn bankruptcy_to_the_bank_frees_the_places() {
    let mut game = MonopolyGame::new(2);
    game.board.set_owner(1, Some(0));
    game.board.set_owner(3, Some(0));
    game.board.set_owner(5, Some(1));
    game.players[0].money = 100;
    game.invoke_event(EventKind::PayToBank("a fine", 161), seven());
    assert_eq!(game.players[0].state, PlayerState::Bankrupted);
    assert_eq!(game.players[0].money, 0);
    for place in [1, 3] {
        assert_eq!(game.board.places[place].get_owner(), None);
        assert!(!game.board.places[place].is_mortgaged());
        assert_eq!(game.board.places[place].get_num_houses(), Some(0));
    }
    assert_eq!(game.board.places[5].get_owner(), Some(1));
    assert_eq!(game.players[1].money, 1500);
    assert_eq!(game.count_active_players(), 1);
    checked(&game);
}

#[test]
fn bankruptcy_to_a_player_hands_over_cash_and_places() {
    let mut game = MonopolyGame::new(3);
    for place in [37, 39] {
        game.board.set_owner(place, Some(1));
        game.board.set_num_houses(place, 5);
    }
    game.board.set_owner(5, Some(0));
    game.board.set_owner(6, Some(2));
    game.players[0].money = 500;
    game.players[0].position = 30;
    game.move_player(9, seven());
    assert_eq!(game.players[0].state, PlayerState::Bankrupted);
    assert_eq!(game.players[0].money, 0);
    assert_eq!(game.players[1].money, 1500 + 600);
    assert_eq!(game.board.places[5].get_owner(), Some(1));
    assert!(game.board.places[5].is_mortgaged());
    assert_eq!(game.board.places[6].get_owner(), Some(2));
    assert!(game.logs.contains(&"[PLAYER1] Inherits properties of PLAYER0.".to_string()));
    checked(&game);
}

#[test]
fn a_creditor_of_a_penniless_player_gets_nothing() {
    let mut game = MonopolyGame::new(2);
    game.players[0].money = 0;
    game.invoke_event(EventKind::PayToOther("a debt", 1, 50), seven());
    assert_eq!(game.players[0].state, PlayerState::Bankrupted);
    assert_eq!(game.players[0].money, 0);
    assert_eq!(game.players[1].money, 1500);
}

#[test]
fn the_log_tells_what_was_raised_and_what_is_left() {
    let mut game = MonopolyGame::new(2);
    game.board.set_owner(1, Some(0));
    game.board.set_owner(3, Some(0));
    game.players[0].money = 0;
    game.invoke_event(EventKind::PayToBank("a fine", 50), seven());
    assert_eq!(
        game.logs,
        vec![
            "[PLAYER0] Pays $50 to the bank for a fine.".to_string(),
            "[PLAYER0] Money: $60 -> $10".to_string(),
        ]
    );
    game.invoke_event(EventKind::PayToBank("a fine", 11), seven());
    assert_eq!(
        game.logs[2..],
        [
            "[PLAYER0] Pays $11 to the bank for a fine.".to_string(),
            "[PLAYER0] Bankrupted".to_string(),
            "[PLAYER0] All of the properties are returned to the bank.".to_string(),
        ]
    );
}

#[test]
fn the_log_tells_of_jail() {
    let mut game = MonopolyGame::new(1);
    game.players[0].state = PlayerState::InJail(2);
    game.players[0].position = JAIL_POSITION;
    game.spend_one_turn_internal(0, &vec![throw(DiceResult::Different(10)); 3]);
    assert_eq!(
        game.logs,
        vec![
            "[PLAYER0] Completes their term of jail.".to_string(),
            "[PLAYER0] Pays $50 to the bank for Jail fee.".to_string(),
            "[PLAYER0] Money: $1500 -> $1450".to_string(),
            "[PLAYER0] Moves from Just Visiting to Free Parking.".to_string(),
            "[PLAYER0] Free Parking".to_string(),
        ]
    );
    game.players[0].state = PlayerState::InJail(0);
    game.logs.clear();
    game.spend_one_turn_internal(0, &vec![throw(DiceResult::Different(10)); 3]);
    assert_eq!(game.logs, vec!["[PLAYER0] Stays in the jail.".to_string()]);
    game.logs.clear();
    game.spend_one_turn_internal(0, &vec![throw(DiceResult::Same(10)); 3]);
    assert_eq!(game.logs[0], "[PLAYER0] Leaves the jail.");
    game.logs.clear();
    game.invoke_event(EventKind::Move("a card", 30), seven());
    assert_eq!(
        game.logs,
        vec![
            "[PLAYER0] Needs to move for a card.".to_string(),
            "[PLAYER0] Moves from Just Visiting to Go to Jail.".to_string(),
            "[PLAYER0] Gets jailed.".to_string(),
        ]
    );
}

#[test]
fn rent_paid_in_full_reaches_the_owner() {
    let mut game = MonopolyGame::new(2);
    game.board.set_owner(5, Some(0));
    game.players[0].money = 10;
    game.invoke_event(EventKind::PayToOther("a debt", 1, 60), seven());
    assert_eq!(game.players[0].state, PlayerState::Active);
    assert_eq!(game.players[0].money, 50);
    assert_eq!(game.players[1].money, 1560);
    assert!(game.board.places[5].is_mortgaged());
}

#[test]
fn events_are_applied_to_the_player_whose_turn_it_is() {
    let mut game = MonopolyGame::new(2);
    game.turn = 1;
    game.invoke_event(EventKind::Reward("luck", 25), seven());
    assert_eq!(game.players[1].money, 1525);
    game.invoke_event(EventKind::Nothing("Waits."), seven());
    assert_eq!(game.logs[1], "[PLAYER1] Waits.");
    game.invoke_event(EventKind::GivePlace(39, 400), seven());
    assert_eq!(game.board.places[39].get_owner(), Some(1));
    assert_eq!(game.players[1].money, 1125);
    game.invoke_event(EventKind::GetJailed, seven());
    assert_eq!(game.players[1].state, PlayerState::InJail(0));
    assert_eq!(game.players[1].position, 10);
    assert_eq!(game.players[0].money, 1500);
    assert_eq!(game.players[0].position, 0);
}

#[test]
fn a_move_event_goes_round_the_board_to_a_place_behind() {
    let mut game = MonopolyGame::new(2);
    game.players[0].position = 5;
    game.invoke_event(EventKind::Move("a card", 3), seven());
    assert_eq!(game.players[0].position, 3);
    assert_eq!(game.players[0].money, 1500 + 200 - 60);
    assert_eq!(game.board.places[3].get_owner(), Some(0));
    game.invoke_event(EventKind::Move("a card", 20), seven());
    assert_eq!(game.players[0].position, 20);
    assert_eq!(game.players[0].money, 1640);
}

#[test]
fn a_turn_without_doubles_is_one_move() {
    let mut game = MonopolyGame::new(2);
    let throws = dice(&game, [seven(), DiceResult::Same(4), DiceResult::Same(4)]);
    game.spend_one_turn_with(&throws);
    assert_eq!(game.players[0].position, 7);
    assert_eq!(game.players[0].money, 1500);
    assert_eq!(game.turn, 1);
    let throws = dice(&game, [DiceResult::Different(9), seven(), seven()]);
    game.spend_one_turn_with(&throws);
    assert_eq!(game.players[1].position, 9);
    assert_eq!(game.players[1].money, 1380);
    assert_eq!(game.turn, 0);
    checked(&game);
}

#[test]
fn doubles_move_again() {
    let mut game = MonopolyGame::new(2);
    let throws = dice(&game, [DiceResult::Same(2), DiceResult::Different(3), seven()]);
    game.spend_one_turn_with(&throws);
    assert_eq!(game.players[0].position, 5);
    assert_eq!(game.players[0].money, 1300);
    assert_eq!(game.board.places[5].get_owner(), Some(0));
    assert_eq!(game.players[0].state, PlayerState::Active);
}

#[test]
fn three_doubles_end_in_jail() {
    let mut game = MonopolyGame::new(2);
    let throws = dice(&game, [DiceResult::Same(2), DiceResult::Same(2), DiceResult::Same(2)]);
    game.spend_one_turn_with(&throws);
    assert_eq!(game.players[0].state, PlayerState::InJail(0));
    assert_eq!(game.players[0].position, JAIL_POSITION);
    // Community Chest, the income tax, and Oriental Avenue on the way.
    assert_eq!(game.players[0].money, 1500 - 200 - 100);
    assert_eq!(game.board.places[6].get_owner(), Some(0));
    assert!(game.logs.contains(&"[PLAYER0] Breaks the speed limit.".to_string()));
    assert_eq!(game.turn, 1);
    checked(&game);
}

#[test]
fn doubles_onto_go_to_jail_end_the_turn() {
    let mut game = MonopolyGame::new(2);
    game.players[0].position = 26;
    let throws = dice(&game, [DiceResult::Same(4), DiceResult::Same(4), seven()]);
    game.spend_one_turn_with(&throws);
    assert_eq!(game.players[0].state, PlayerState::InJail(0));
    assert_eq!(game.players[0].position, JAIL_POSITION);
    assert_eq!(game.players[0].money, 1500);
}

#[test]
fn a_prisoner_waits_two_turns_and_pays_on_the_third() {
    let mut game = MonopolyGame::new(1);
    game.players[0].state = PlayerState::InJail(0);
    game.players[0].position = JAIL_POSITION;
    let throws = vec![throw(DiceResult::Different(5)); 3];
    game.spend_one_turn_internal(0, &throws);
    assert_eq!(game.players[0].state, PlayerState::InJail(1));
    game.spend_one_turn_internal(0, &throws);
    assert_eq!(game.players[0].state, PlayerState::InJail(2));
    assert_eq!(game.players[0].position, JAIL_POSITION);
    assert_eq!(game.players[0].money, 1500);
    game.spend_one_turn_internal(0, &throws);
    assert_eq!(game.players[0].state, PlayerState::Active);
    assert_eq!(game.players[0].position, 15);
    assert_eq!(game.players[0].money, 1500 - 50 - 200);
    assert_eq!(game.board.places[15].get_owner(), Some(0));
}

#[test]
fn doubles_free_a_prisoner_without_a_second_move() {
    let mut game = MonopolyGame::new(1);
    game.players[0].state = PlayerState::InJail(1);
    game.players[0].position = JAIL_POSITION;
    let throws = vec![throw(DiceResult::Same(4)); 3];
    game.spend_one_turn_internal(0, &throws);
    assert_eq!(game.players[0].state, PlayerState::Active);
    assert_eq!(game.players[0].position, 14);
    assert_eq!(game.players[0].money, 1500 - 160);
}

#[test]
fn a_bankrupt_player_does_nothing() {
    let mut game = MonopolyGame::new(3);
    game.players[0].state = PlayerState::Bankrupted;
    game.players[0].money = 0;
    let throws = dice(&game, [seven(), seven(), seven()]);
    game.spend_one_turn_with(&throws);
    assert_eq!(game.players[0].position, 0);
    assert_eq!(game.players[0].money, 0);
    assert_eq!(game.logs, vec!["[PLAYER0] Already bankrupted.".to_string()]);
    assert_eq!(game.turn, 1);
}

#[test]
fn a_game_with_one_player_left_stands_still() {
    let mut game = MonopolyGame::new(2);
    game.players[1].state = PlayerState::Bankrupted;
    game.players[1].money = 0;
    let throws = dice(&game, [seven(), seven(), seven()]);
    game.spend_one_turn_with(&throws);
    assert_eq!(game.turn, 0);
    assert_eq!(game.players[0].position, 0);
    assert!(game.logs.is_empty());
    let mut nobody = MonopolyGame::new(0);
    nobody.spend_one_turn();
    assert_eq!(nobody.turn, 0);
}

#[test]
fn the_turn_passes_on_after_the_last_bankruptcy() {
    let mut game = MonopolyGame::new(2);
    game.players[0].money = 10;
    let throws = dice(&game, [DiceResult::Different(4), seven(), seven()]);
    game.spend_one_turn_with(&throws);
    assert_eq!(game.players[0].state, PlayerState::Bankrupted);
    assert_eq!(game.count_active_players(), 1);
    assert_eq!(game.turn, 1);
    // With one player left nothing happens any more.
    let logged = game.logs.len();
    game.spend_one_turn_with(&throws);
    assert_eq!(game.turn, 1);
    assert_eq!(game.logs.len(), logged);
}

#[test]
fn the_turn_passes_on_when_rent_ruins_the_mover() {
    let mut game = MonopolyGame::new(2);
    game.players[0].money = 0;
    game.players[0].position = 36;
    game.board.set_owner(39, Some(1));
    let throws = dice(&game, [DiceResult::Different(3), seven(), seven()]);
    game.spend_one_turn_with(&throws);
    assert_eq!(game.players[0].state, PlayerState::Bankrupted);
    assert_eq!(game.players[0].position, 39);
    assert_eq!(game.players[1].money, 1500);
    assert_eq!(game.turn, 1);
    checked(&game);
}

#[test]
fn the_turn_goes_round_the_table() {
    let mut game = MonopolyGame::new(3);
    for expected in [1, 2, 0, 1] {
        let before: Vec<(usize, PlayerState)> =
            game.players.iter().map(|p| (p.position, p.state)).collect();
        let mover = game.turn;
        let throws = dice(&game, [seven(), seven(), seven()]);
        game.spend_one_turn_with(&throws);
        assert_eq!(game.turn, expected);
        for (i, player) in game.players.iter().enumerate() {
            if i != mover {
                assert_eq!((player.position, player.state), before[i]);
            }
        }
    }
}

#[test]
fn every_player_invests_at_the_end_of_a_turn() {
    let mut game = MonopolyGame::new(2);
    for place in [37, 39] {
        game.board.set_owner(place, Some(1));
    }
    game.board.set_owner(5, Some(0));
    game.board.set_mortgaged(5, true);
    game.players[1].money = 1000;
    let throws = dice(&game, [DiceResult::Different(10), seven(), seven()]);
    game.spend_one_turn_with(&throws);
    assert_eq!(game.players[0].position, 10);
    // Player 0 fears the $100 of Boardwalk less than the taxes: he keeps $200
    // and lifts the mortgage of his railroad.
    assert_eq!(game.players[0].money, 1500 - 110);
    assert!(!game.board.places[5].is_mortgaged());
    // Player 1 keeps $200 and builds four houses on each of his places.
    assert_eq!(game.players[1].money, 200);
    assert_eq!(game.board.places[37].get_num_houses(), Some(2));
    assert_eq!(game.board.places[39].get_num_houses(), Some(2));
    checked(&game);
}

#[test]
fn the_rule_of_building_holds_through_a_long_game() {
    for players in [2, 4, 6] {
        let mut game = MonopolyGame::new(players);
        for _ in 0..400 {
            let before: Vec<u32> = game.players.iter().map(|p| p.money).collect();
            let logged = game.logs.len();
            assert!(game.is_within_limit());
            game.spend_one_turn();
            checked(&game);
            assert!(game.has_settled_accounts());
            assert!(game.logs.len() >= logged);
            for (player, had) in game.players.iter().zip(before) {
                assert!(player.money <= had + TURN_GROWTH);
                assert!(player.money <= MONEY_LIMIT);
                if player.state == PlayerState::Bankrupted {
                    assert!(game.board.places.iter().all(|p| p.get_owner() != Some(player.player_id)));
                }
            }
        }
        assert!(game.board.places.iter().any(|p| p.get_owner().is_some()));
    }
}

#[test]
fn unsettled_accounts_are_told() {
    let mut game = MonopolyGame::new(3);
    assert!(game.has_settled_accounts());
    game.board.set_owner(5, Some(1));
    game.players[2].state = PlayerState::Bankrupted;
    assert!(!game.has_settled_accounts());
    game.players[2].money = 0;
    assert!(game.has_settled_accounts());
    game.players[1].state = PlayerState::Bankrupted;
    game.players[1].money = 0;
    assert!(!game.has_settled_accounts());
    game.players[1].state = PlayerState::InJail(1);
    assert!(!game.has_settled_accounts());
    game.players[1].position = JAIL_POSITION;
    assert!(game.has_settled_accounts());
}
