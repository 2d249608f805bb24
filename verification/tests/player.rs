use mplz_core::appraiser::Appraiser;
use mplz_core::board::Board;
use mplz_core::dice_rolling::{DiceResult, UtilityDice};
use mplz_core::places::BoardPlace;
use mplz_core::player::{Player, PlayerState};
use mplz_core::strategy::ExpensiveHousesProtectionStrategy;

fn player(id: usize, money: u32) -> Player {
    let mut player = Player::new(id, ExpensiveHousesProtectionStrategy::new());
    player.money = money;
    player
}

#[test]
fn new_player_starts_on_go_with_fifteen_hundred() {
    let player = Player::new(3, ExpensiveHousesProtectionStrategy::new());
    assert_eq!(player.player_id, 3);
    assert_eq!(player.money, 1500);
    assert_eq!(player.position, 0);
    assert_eq!(player.state, PlayerState::Active);
}

#[test]
fn paying_from_cash_is_logged() {
    let mut board = Board::new();
    let mut payer = player(0, 1500);
    let (result, logs) = payer.pay(&mut board, 50);
    assert_eq!(result, Ok(()));
    assert_eq!(payer.money, 1450);
    assert_eq!(payer.state, PlayerState::Active);
    assert_eq!(logs, vec!["[PLAYER0] Money: $1500 -> $1450".to_string()]);
}

#[test]
fn penniless_player_without_assets_goes_bankrupt() {
    let mut board = Board::new();
    let mut payer = player(1, 0);
    let (result, logs) = payer.pay(&mut board, 50);
    assert_eq!(result, Err(0));
    assert_eq!(payer.money, 0);
    assert_eq!(payer.state, PlayerState::Bankrupted);
    assert_eq!(logs, vec!["[PLAYER1] Bankrupted".to_string()]);
}

#[test]
fn bankruptcy_comes_exactly_when_all_that_can_be_raised_falls_short() {
    for (debt, bankrupt) in [(229, false), (230, false), (231, true)] {
        let mut board = Board::new();
        board.set_owner(5, Some(0));
        board.set_owner(1, Some(0));
        let mut payer = player(0, 100);
        assert_eq!(Appraiser::get_payable_money(&payer, &board), 230);
        let (result, _) = payer.pay(&mut board, debt);
        if bankrupt {
            assert_eq!(result, Err(230));
            assert_eq!(payer.money, 0);
            assert_eq!(payer.state, PlayerState::Bankrupted);
        } else {
            assert_eq!(result, Ok(()));
            assert_eq!(payer.state, PlayerState::Active);
            // Cash before, plus what was liquidated, minus the debt.
            let left = Appraiser::get_payable_money(&payer, &board) - payer.money;
            assert_eq!(payer.money, 100 + (130 - left) - debt);
        }
        assert!(board.validate_houses());
    }
}

#[test]
fn paying_with_a_mortgage_keeps_the_player_in_the_game() {
    let mut board = Board::new();
    board.set_owner(1, Some(0));
    board.set_owner(3, Some(0));
    let mut payer = player(0, 0);
    let (result, _) = payer.pay(&mut board, 50);
    assert_eq!(result, Ok(()));
    assert_eq!(payer.money, 10);
    assert_eq!(payer.state, PlayerState::Active);
    assert!(board.places[1].is_mortgaged());
    assert!(board.places[3].is_mortgaged());
    assert_eq!(board.places[1].get_owner(), Some(0));
}

#[test]
fn player_invests_what_he_has_beyond_the_buffer() {
    let mut board = Board::new();
    board.set_owner(1, Some(0));
    board.set_owner(3, Some(0));
    let mut owner = player(0, 300);
    let dice = UtilityDice {
        electric_company: DiceResult::Same(4),
        water_works: DiceResult::Different(9),
    };
    owner.invest_with(&mut board, &dice);
    assert_eq!(owner.money, 200);
    assert_eq!(board.places[1].get_num_houses(), Some(1));
    assert_eq!(board.places[3].get_num_houses(), Some(1));
    owner.money = 260;
    owner.invest(&mut board);
    assert_eq!(owner.money, 210);
    assert_eq!(board.places[1].get_num_houses(), Some(2));
}

#[test]
fn a_player_keeps_the_highest_rent_in_hand() {
    let dice = UtilityDice {
        electric_company: DiceResult::Different(7),
        water_works: DiceResult::Different(7),
    };
    // Nobody else owns a place: the income tax, $200, is the most that a
    // visit can cost.
    for money in 0..=700u32 {
        let mut board = Board::new();
        board.set_owner(1, Some(0));
        board.set_owner(3, Some(0));
        board.set_owner(5, Some(0));
        board.set_mortgaged(5, true);
        let mut owner = player(0, money);
        owner.invest_with(&mut board, &dice);
        if money <= 200 {
            assert_eq!(owner.money, money);
            assert!(board.places[5].is_mortgaged());
            assert_eq!(board.places[1].get_num_houses(), Some(0));
            assert_eq!(board.places[3].get_num_houses(), Some(0));
        } else {
            assert!(owner.money >= 200 && owner.money <= money);
        }
        assert!(board.validate_houses());
    }
}

#[test]
fn payable_money_counts_cash_places_and_houses_at_half_price() {
    let mut board = Board::new();
    for place in [37, 39] {
        board.set_owner(place, Some(0));
        board.set_num_houses(place, 2);
    }
    board.set_owner(5, Some(0));
    board.set_owner(12, Some(1));
    assert_eq!(Appraiser::get_payable_money(&player(0, 1500), &board), 1500 + 175 + 200 + 400 + 100);
    assert_eq!(Appraiser::get_payable_money(&player(1, 7), &board), 7 + 75);
    assert_eq!(Appraiser::get_payable_money(&player(2, 7), &board), 7);
    board.set_mortgaged(5, true);
    assert_eq!(Appraiser::get_payable_money(&player(0, 0), &board), 775);
}

#[test]
fn attacking_power_adds_up_the_rents() {
    let mut board = Board::new();
    assert_eq!(Appraiser::get_tap(&player(0, 1500), &board), 0);
    for place in [5, 15, 25, 35] {
        board.set_owner(place, Some(0));
    }
    assert_eq!(Appraiser::get_tap(&player(0, 1500), &board), 800);
    board.set_owner(12, Some(0));
    assert_eq!(Appraiser::get_tap(&player(0, 1500), &board), 828);
    board.set_owner(28, Some(0));
    assert_eq!(Appraiser::get_tap(&player(0, 1500), &board), 940);
    board.set_mortgaged(28, true);
    board.set_mortgaged(5, true);
    // A mortgaged utility still counts; a mortgaged railroad brings nothing
    // and lowers the rent of the others.
    assert_eq!(Appraiser::get_tap(&player(0, 1500), &board), 300 + 140);
    board.set_owner(37, Some(1));
    board.set_owner(39, Some(1));
    board.set_num_houses(37, 1);
    board.set_num_houses(39, 2);
    assert_eq!(Appraiser::get_tap(&player(1, 0), &board), 175 + 600);
}

/// A strategy that counts how often it is asked, and leaves the rest to the
/// strategy that protects the expensive houses.
struct Watched {
    inner: ExpensiveHousesProtectionStrategy,
    asked: std::cell::Cell<u32>,
}

impl mplz_core::strategy::PlayerStrategy for Watched {
    fn raise(
        &self,
        debt: u32,
        board: &mut Board,
        player_id: usize,
        money: &mut u32,
        state: &PlayerState,
        position: usize,
    ) -> Result<(), u32> {
        self.asked.set(self.asked.get() + 1);
        self.inner.raise(debt, board, player_id, money, state, position)
    }

    fn invest(
        &self,
        board: &mut Board,
        player_id: usize,
        money: &mut u32,
        state: &PlayerState,
        position: usize,
        dice: &UtilityDice,
    ) {
        self.asked.set(self.asked.get() + 1);
        self.inner.invest(board, player_id, money, state, position, dice)
    }
}

#[test]
fn a_player_follows_the_strategy_that_he_is_given() {
    let mut board = Board::new();
    board.set_owner(5, Some(0));
    board.set_owner(1, Some(0));
    board.set_owner(3, Some(0));
    let watched = Watched { inner: ExpensiveHousesProtectionStrategy::new(), asked: std::cell::Cell::new(0) };
    let mut player = Player::new(0, watched);
    player.money = 10;
    let (result, _) = player.pay(&mut board, 50);
    assert_eq!(result, Ok(()));
    assert_eq!(player.money, 60);
    assert!(board.places[5].is_mortgaged());
    assert_eq!(player.strategy.asked.get(), 1);
    player.money = 1000;
    player.invest(&mut board);
    assert_eq!(player.strategy.asked.get(), 2);
    assert!(!board.places[5].is_mortgaged());
    assert_eq!(board.places[1].get_num_houses(), Some(5));
    assert_eq!(player.money, 1000 - 110 - 500);
    assert_eq!(player.get_info().money, 390);
    assert_eq!(Appraiser::get_payable_money(&player, &board), 390 + 100 + 60 + 250);
    let boxed = Player::new(1, *ExpensiveHousesProtectionStrategy::new_boxed());
    assert_eq!(boxed.money, 1500);
}
