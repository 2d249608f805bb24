use mplz_core::board::Board;
use mplz_core::dice_rolling::DiceResult;
use mplz_core::game::MonopolyGame;
use mplz_core::places::{BoardColor, BoardPlace};
use mplz_core::player::{Player, PlayerState};
use mplz_core::serialization::{GameInfo, PlaceInfo, PlayerInfo};
use mplz_core::strategy::ExpensiveHousesProtectionStrategy;

fn player_info(id: usize) -> PlayerInfo {
    PlayerInfo { player_id: id, money: 1500, is_bankrupted: false, jail_turn: None, position: 0 }
}

fn place_info(id: usize, owner: Option<usize>, houses: Option<u8>) -> PlaceInfo {
    PlaceInfo { place_id: id, owner, is_mortgaged: false, houses }
}

fn same(a: &GameInfo, b: &GameInfo) -> bool {
    a.turn == b.turn && a.players == b.players && a.places == b.places
}

#[test]
fn players_are_written_down_as_they_are() {
    let mut player = Player::new(2, ExpensiveHousesProtectionStrategy::new());
    player.money = 321;
    player.position = 17;
    assert_eq!(
        player.get_info(),
        PlayerInfo { player_id: 2, money: 321, is_bankrupted: false, jail_turn: None, position: 17 }
    );
    player.state = PlayerState::InJail(2);
    assert_eq!(player.get_info().jail_turn, Some(2));
    assert!(!player.get_info().is_bankrupted);
    player.state = PlayerState::Bankrupted;
    assert_eq!(player.get_info().jail_turn, None);
    assert!(player.get_info().is_bankrupted);
}

#[test]
fn players_are_read_as_they_were_written() {
    let strategy = ExpensiveHousesProtectionStrategy::new;
    let info = PlayerInfo { player_id: 1, money: 9, is_bankrupted: false, jail_turn: Some(1), position: 10 };
    let player = Player::from_info(&info, strategy());
    assert_eq!(player.player_id, 1);
    assert_eq!(player.money, 9);
    assert_eq!(player.position, 10);
    assert_eq!(player.state, PlayerState::InJail(1));
    assert_eq!(player.get_info(), info);
    let gone = PlayerInfo { player_id: 0, money: 0, is_bankrupted: true, jail_turn: None, position: 3 };
    assert_eq!(Player::from_info(&gone, strategy()).state, PlayerState::Bankrupted);
    assert_eq!(Player::from_info(&player_info(4), strategy()).state, PlayerState::Active);
}

#[test]
fn only_places_that_can_be_owned_are_written_down() {
    let mut board = Board::new();
    board.set_owner(1, Some(0));
    board.set_owner(5, Some(1));
    board.set_mortgaged(5, true);
    let infos = board.get_infos();
    assert_eq!(infos.len(), 28);
    assert_eq!(infos[0], place_info(1, Some(0), Some(0)));
    assert_eq!(infos[1], place_info(3, None, Some(0)));
    assert_eq!(infos[2], PlaceInfo { place_id: 5, owner: Some(1), is_mortgaged: true, houses: None });
    assert_eq!(infos[27].place_id, 39);
    assert!(infos.iter().all(|info| info.is_fit()));
}

#[test]
fn a_board_is_read_place_by_place() {
    let infos = vec![
        place_info(37, Some(1), Some(2)),
        place_info(39, Some(1), Some(3)),
        PlaceInfo { place_id: 12, owner: Some(0), is_mortgaged: true, houses: None },
        place_info(37, None, None),
    ];
    let board = Board::from_infos(&infos);
    assert_eq!(board.places[37].get_owner(), Some(1));
    assert_eq!(board.places[37].get_num_houses(), Some(2));
    assert_eq!(board.places[39].get_num_houses(), Some(3));
    assert_eq!(board.places[12].get_owner(), Some(0));
    assert!(board.places[12].is_mortgaged());
    assert_eq!(board.places[1].get_owner(), None);
    assert_eq!(Board::from_infos(&Vec::new()).get_infos(), Board::new().get_infos());
}

#[test]
fn places_that_cannot_be_read_are_told() {
    assert!(place_info(1, None, Some(5)).is_fit());
    assert!(place_info(5, Some(3), None).is_fit());
    assert!(!place_info(0, None, None).is_fit());
    assert!(!place_info(40, None, None).is_fit());
    assert!(!place_info(5, None, Some(0)).is_fit());
    assert!(!place_info(1, None, Some(6)).is_fit());
}

#[test]
fn a_game_written_down_and_read_again_is_the_same() {
    let mut game = MonopolyGame::new(3);
    for _ in 0..60 {
        game.spend_one_turn();
    }
    game.players[2].state = PlayerState::InJail(1);
    game.players[2].position = 10;
    let info = game.get_info();
    assert!(info.is_fit());
    let read = MonopolyGame::from_info(&info);
    assert_eq!(read.turn, game.turn);
    assert_eq!(read.players.len(), 3);
    for (a, b) in read.players.iter().zip(&game.players) {
        assert_eq!(a.player_id, b.player_id);
        assert_eq!(a.money, b.money);
        assert_eq!(a.state, b.state);
        assert_eq!(a.position, b.position);
    }
    for (a, b) in read.board.places.iter().zip(&game.board.places) {
        assert_eq!(a.get_id(), b.get_id());
        assert_eq!(a.get_owner(), b.get_owner());
        assert_eq!(a.is_mortgaged(), b.is_mortgaged());
        assert_eq!(a.get_num_houses(), b.get_num_houses());
    }
    assert!(read.logs.is_empty());
    assert!(same(&read.get_info(), &info));
}

#[test]
fn a_written_game_that_cannot_be_played_is_refused() {
    let good = GameInfo {
        turn: 1,
        players: vec![player_info(0), player_info(1)],
        places: vec![place_info(37, Some(1), Some(1)), place_info(39, Some(1), Some(1))],
    };
    assert!(good.is_fit());
    let game = MonopolyGame::try_from_info(&good).unwrap();
    assert_eq!(game.turn, 1);
    assert_eq!(game.board.places[39].get_num_houses(), Some(1));

    let refuse = |change: fn(&mut GameInfo)| {
        let mut info = GameInfo {
            turn: 1,
            players: vec![player_info(0), player_info(1)],
            places: vec![place_info(37, Some(1), Some(1)), place_info(39, Some(1), Some(1))],
        };
        change(&mut info);
        assert!(!info.is_fit());
        assert!(MonopolyGame::try_from_info(&info).is_none());
    };
    refuse(|info| info.turn = 2);
    refuse(|info| info.players[1].player_id = 0);
    refuse(|info| info.players[0].position = 40);
    refuse(|info| info.players[0].jail_turn = Some(3));
    refuse(|info| {
        info.players[0].is_bankrupted = true;
        info.players[0].jail_turn = Some(0);
    });
    refuse(|info| info.places[0].owner = Some(2));
    refuse(|info| info.places[0].houses = Some(3));
    refuse(|info| info.places[1].is_mortgaged = true);
    refuse(|info| info.places.push(place_info(4, None, None)));
    refuse(|info| info.places.push(place_info(5, None, Some(1))));
    refuse(|info| info.places[1].owner = Some(0));
    refuse(|info| info.players.clear());
}

#[test]
fn an_empty_game_can_be_written_and_read() {
    let game = MonopolyGame::new(0);
    let info = game.get_info();
    assert_eq!(info.players.len(), 0);
    assert_eq!(info.places.len(), 28);
    let read = MonopolyGame::try_from_info(&info).unwrap();
    assert_eq!(read.players.len(), 0);
}

#[test]
fn a_place_shows_what_it_is_and_asks() {
    let mut board = Board::new();
    board.set_owner(39, Some(1));
    let roll = DiceResult::Different(7);
    let prop = board.places[39].to_place_prop(&board, roll);
    assert_eq!(prop.place_id, 39);
    assert_eq!(prop.name, "Boardwalk");
    assert_eq!(prop.color, BoardColor::Blue);
    assert_eq!(prop.price, Some(400));
    assert_eq!(prop.house_price, Some(200));
    assert_eq!(prop.rent, Some(50));
    let go = board.places[0].to_place_prop(&board, roll);
    assert_eq!(go.name, "Go");
    assert_eq!(go.price, None);
    assert_eq!(go.house_price, None);
    assert_eq!(go.rent, None);
    let tax = board.places[38].to_place_prop(&board, roll);
    assert_eq!(tax.rent, Some(100));
    assert_eq!(tax.price, None);
    let railroad = board.places[5].to_place_prop(&board, roll);
    assert_eq!(railroad.price, Some(200));
    assert_eq!(railroad.rent, None);
    assert_eq!(railroad.color, BoardColor::Railroad);
}
