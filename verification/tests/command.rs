use mplz_core::command::{AnalysisCommandArg, GameCommand};
use mplz_core::game::MonopolyGame;
use mplz_core::places::BoardPlace;

#[test]
fn money_is_added_and_taken() {
    let mut game = MonopolyGame::new(2);
    game.modify_money(1, 250);
    assert_eq!(game.players[1].money, 1750);
    game.modify_money(1, -1750);
    assert_eq!(game.players[1].money, 0);
    assert!(game.logs.is_empty());
    assert_eq!(game.players[0].money, 1500);
}

#[test]
fn money_that_is_not_there_cannot_be_taken() {
    let mut game = MonopolyGame::new(2);
    game.modify_money(0, -2000);
    assert_eq!(game.players[0].money, 1500);
    assert_eq!(game.logs, vec!["[PLAYER0] Failed to pay $2000.".to_string()]);
}

#[test]
fn a_place_is_handed_to_a_player() {
    let mut game = MonopolyGame::new(2);
    game.set_owner(1, 39);
    assert_eq!(game.board.places[39].get_owner(), Some(1));
    assert_eq!(game.logs, vec!["[PLAYER1] Become an owner of Boardwalk.".to_string()]);
    assert!(game.try_set_owner(0, 39));
    assert_eq!(game.board.places[39].get_owner(), Some(0));
    assert!(game.is_well_formed());
}

#[test]
fn a_place_that_cannot_change_hands_stays() {
    let mut game = MonopolyGame::new(2);
    assert!(!game.try_set_owner(2, 39));
    assert!(!game.try_set_owner(0, 40));
    assert!(!game.try_set_owner(0, 0));
    for place in [37, 39] {
        game.board.set_owner(place, Some(1));
        game.board.set_num_houses(place, 1);
    }
    assert!(!game.try_set_owner(0, 39));
    assert_eq!(game.board.places[39].get_owner(), Some(1));
    assert!(game.logs.is_empty());
    assert!(game.try_set_owner(0, 1));
}

#[test]
fn stepping_plays_the_turns_asked_for() {
    let mut game = MonopolyGame::new(3);
    assert_eq!(game.step(7), 7);
    assert!(!game.logs.is_empty());
    assert!(game.is_well_formed());
    assert_eq!(game.step(0), 0);
    game.players[0].money = 4_100_000_000;
    assert_eq!(game.step(5), 0);
}

#[test]
fn commands_hold_plain_values() {
    let arg = AnalysisCommandArg { file_name: "out.csv".to_string(), iteration: 3, simulation_turn: 20 };
    let commands = vec![
        GameCommand::Init(4),
        GameCommand::Step(2),
        GameCommand::ModifyMoney { player_id: 0, money: -5 },
        GameCommand::SetOwner { player_id: 1, place_id: 39 },
        GameCommand::Save("game.json".to_string()),
        GameCommand::Load("game.json".to_string()),
        GameCommand::Analyze(arg),
    ];
    assert!(matches!(commands[0], GameCommand::Init(4)));
    assert!(matches!(commands[3], GameCommand::SetOwner { player_id: 1, place_id: 39 }));
    match &commands[6] {
        GameCommand::Analyze(arg) => assert_eq!(arg.simulation_turn, 20),
        _ => unreachable!(),
    }
}

#[test]
fn large_numbers_are_written_in_full() {
    let mut game = MonopolyGame::new(12);
    game.players[11].money = 4_000_000_000;
    game.modify_money(11, -2_147_483_648);
    assert_eq!(game.players[11].money, 1_852_516_352);
    game.modify_money(11, -2_147_483_648);
    assert_eq!(game.logs, vec!["[PLAYER11] Failed to pay $2147483648.".to_string()]);
    game.players[10].money = 907;
    game.modify_money(10, -1000);
    assert_eq!(game.logs[1], "[PLAYER10] Failed to pay $1000.");
}
