use mplz_core::board::Board;
use mplz_core::dice_rolling::{DiceResult, UtilityDice};
use mplz_core::places::BoardPlace;
use mplz_core::player::PlayerState;
use mplz_core::investment::Investment;
use mplz_core::liquidation::{house_counts, Liquidation};
use mplz_core::strategy::{ExpensiveHousesProtectionStrategy, PlayerStrategy};

fn raise(board: &mut Board, player: usize, money: u32, debt: u32) -> (Result<(), u32>, u32) {
    let strategy = ExpensiveHousesProtectionStrategy::new();
    let mut cash = money;
    let result = strategy.raise(debt, board, player, &mut cash, &PlayerState::Active, 0);
    assert!(board.validate_houses());
    (result, cash)
}

fn invest(board: &mut Board, player: usize, money: u32) -> u32 {
    let strategy = ExpensiveHousesProtectionStrategy::new();
    let dice = UtilityDice {
        electric_company: DiceResult::Different(7),
        water_works: DiceResult::Different(7),
    };
    let mut cash = money;
    strategy.invest(board, player, &mut cash, &PlayerState::Active, 0, &dice);
    assert!(board.validate_houses());
    cash
}

fn find_liquidation(board: &Board, player: usize) -> Option<Liquidation> {
    mplz_core::liquidation::find_liquidation(board, &house_counts(board), player)
}

fn find_investment(board: &Board, player: usize) -> Option<Investment> {
    mplz_core::investment::find_investment(board, &house_counts(board), player)
}

fn mortgaged(board: &Board) -> Vec<usize> {
    (0..40).filter(|&i| board.places[i].is_mortgaged()).collect()
}

fn houses(board: &Board, places: &[usize]) -> Vec<u8> {
    places.iter().map(|&i| board.places[i].get_num_houses().unwrap()).collect()
}

/// Player 0 with a railroad, a utility, the brown places without houses and
/// the blue places with one house each.
fn mixed_holdings() -> Board {
    let mut board = Board::new();
    for place in [5, 12, 1, 3, 37, 39] {
        board.set_owner(place, Some(0));
    }
    board.set_num_houses(37, 1);
    board.set_num_houses(39, 1);
    board
}

#[test]
fn enough_cash_pays_without_touching_the_board() {
    let mut board = mixed_holdings();
    let (result, cash) = raise(&mut board, 0, 100, 50);
    assert_eq!(result, Ok(()));
    assert_eq!(cash, 50);
    assert_eq!(mortgaged(&board), Vec::<usize>::new());
    assert_eq!(houses(&board, &[37, 39]), vec![1, 1]);
}

#[test]
fn monopoly_without_houses_is_mortgaged_for_a_small_debt() {
    let mut board = Board::new();
    board.set_owner(1, Some(0));
    board.set_owner(3, Some(0));
    let (result, cash) = raise(&mut board, 0, 0, 50);
    assert_eq!(result, Ok(()));
    assert_eq!(cash, 10);
    assert_eq!(mortgaged(&board), vec![1, 3]);
}

#[test]
fn raising_stops_at_the_first_step_that_covers_the_debt() {
    let mut board = Board::new();
    board.set_owner(1, Some(0));
    board.set_owner(3, Some(0));
    let (result, cash) = raise(&mut board, 0, 25, 50);
    assert_eq!(result, Ok(()));
    assert_eq!(cash, 5);
    assert_eq!(mortgaged(&board), vec![1]);
}

#[test]
fn loose_places_go_first_in_the_order_of_the_board() {
    let mut board = mixed_holdings();
    let (result, cash) = raise(&mut board, 0, 0, 90);
    assert_eq!(result, Ok(()));
    assert_eq!(cash, 10);
    assert_eq!(mortgaged(&board), vec![5]);

    let mut board = mixed_holdings();
    let (result, cash) = raise(&mut board, 0, 0, 180);
    assert_eq!(result, Ok(()));
    assert_eq!(cash, 25);
    assert_eq!(mortgaged(&board), vec![1, 5, 12]);
    assert_eq!(houses(&board, &[37, 39]), vec![1, 1]);
}

#[test]
fn houses_are_sold_before_the_places_under_them() {
    let mut board = mixed_holdings();
    let (result, cash) = raise(&mut board, 0, 0, 300);
    assert_eq!(result, Ok(()));
    assert_eq!(cash, 35);
    assert_eq!(mortgaged(&board), vec![1, 3, 5, 12]);
    assert_eq!(houses(&board, &[37, 39]), vec![0, 1]);

    let mut board = mixed_holdings();
    let (result, cash) = raise(&mut board, 0, 0, 600);
    assert_eq!(result, Ok(()));
    assert_eq!(cash, 10);
    assert_eq!(mortgaged(&board), vec![1, 3, 5, 12, 37]);
    assert_eq!(houses(&board, &[37, 39]), vec![0, 0]);
}

#[test]
fn everything_is_worth_exactly_what_it_raises() {
    let mut board = mixed_holdings();
    let (result, cash) = raise(&mut board, 0, 0, 810);
    assert_eq!(result, Ok(()));
    assert_eq!(cash, 0);
    assert_eq!(mortgaged(&board), vec![1, 3, 5, 12, 37, 39]);

    let mut board = mixed_holdings();
    let (result, cash) = raise(&mut board, 0, 0, 811);
    assert_eq!(result, Err(810));
    assert_eq!(cash, 810);
    assert_eq!(mortgaged(&board), vec![1, 3, 5, 12, 37, 39]);
    assert_eq!(houses(&board, &[37, 39]), vec![0, 0]);
}

#[test]
fn cash_counts_towards_the_debt_when_raising_fails() {
    let mut board = Board::new();
    board.set_owner(5, Some(0));
    let (result, cash) = raise(&mut board, 0, 40, 141);
    assert_eq!(result, Err(140));
    assert_eq!(cash, 140);
    let mut board = Board::new();
    board.set_owner(5, Some(0));
    let (result, cash) = raise(&mut board, 0, 40, 140);
    assert_eq!(result, Ok(()));
    assert_eq!(cash, 0);
}

#[test]
fn nothing_to_raise_leaves_the_cash() {
    let mut board = Board::new();
    board.set_owner(5, Some(1));
    let (result, cash) = raise(&mut board, 0, 0, 50);
    assert_eq!(result, Err(0));
    assert_eq!(cash, 0);
    assert_eq!(mortgaged(&board), Vec::<usize>::new());
}

#[test]
fn houses_are_sold_from_the_fullest_place_first() {
    let setup = || {
        let mut board = Board::new();
        for place in [6, 8, 9] {
            board.set_owner(place, Some(0));
            board.set_num_houses(place, 2);
        }
        board
    };
    let mut board = setup();
    board.set_num_houses(9, 3);
    assert_eq!(raise(&mut board, 0, 0, 20), (Ok(()), 5));
    assert_eq!(houses(&board, &[6, 8, 9]), vec![2, 2, 2]);
    let mut board = setup();
    board.set_num_houses(6, 1);
    assert_eq!(raise(&mut board, 0, 0, 50), (Ok(()), 0));
    assert_eq!(houses(&board, &[6, 8, 9]), vec![1, 1, 1]);
}

#[test]
fn equal_places_are_sold_from_in_turns_as_a_sorted_list_would_give_them() {
    // One house after another: down the board, then up, then down again.
    let after = [
        [1, 2, 2],
        [1, 1, 2],
        [1, 1, 1],
        [1, 1, 0],
        [1, 0, 0],
        [0, 0, 0],
    ];
    for (sold, left) in after.iter().enumerate() {
        let mut board = Board::new();
        for place in [6, 8, 9] {
            board.set_owner(place, Some(0));
            board.set_num_houses(place, 2);
        }
        let debt = 25 * (sold as u32 + 1);
        assert_eq!(raise(&mut board, 0, 0, debt), (Ok(()), 0));
        assert_eq!(houses(&board, &[6, 8, 9]), left.to_vec(), "after {} sales", sold + 1);
    }
}

#[test]
fn a_place_that_started_fuller_is_sold_from_first_on_the_way_up() {
    // Oriental Avenue and Connecticut Avenue start with three houses, Vermont
    // Avenue with two: the two are sold from down the board; one house lower
    // they go first again, the last of them first; and another house lower it
    // is Vermont Avenue that goes first.
    let after = [[2, 2, 3], [2, 2, 2], [2, 2, 1], [1, 2, 1], [1, 1, 1], [1, 0, 1], [0, 0, 1]];
    for (sold, left) in after.iter().enumerate() {
        let mut board = Board::new();
        for (place, count) in [(6, 3), (8, 2), (9, 3)] {
            board.set_owner(place, Some(0));
            board.set_num_houses(place, count);
        }
        let debt = 25 * (sold as u32 + 1);
        assert_eq!(raise(&mut board, 0, 0, debt), (Ok(()), 0));
        assert_eq!(houses(&board, &[6, 8, 9]), left.to_vec(), "after {} sales", sold + 1);
    }
}

#[test]
fn a_new_raising_starts_the_turns_anew() {
    let mut board = Board::new();
    for place in [6, 8, 9] {
        board.set_owner(place, Some(0));
        board.set_num_houses(place, 1);
    }
    assert_eq!(find_liquidation(&board, 0), Some(Liquidation::SellHouse(6)));
    let start = vec![2; 40];
    assert_eq!(
        mplz_core::liquidation::find_liquidation(&board, &start, 0),
        Some(Liquidation::SellHouse(9))
    );
}

#[test]
fn a_whole_color_with_a_mortgaged_place_waits_for_the_loose_places() {
    let mut board = Board::new();
    for place in [1, 3, 5] {
        board.set_owner(place, Some(0));
    }
    board.set_mortgaged(1, true);
    assert_eq!(find_liquidation(&board, 0), Some(Liquidation::Mortgage(5)));
    assert_eq!(raise(&mut board, 0, 0, 20), (Ok(()), 80));
    assert_eq!(mortgaged(&board), vec![1, 5]);
    assert_eq!(find_liquidation(&board, 0), Some(Liquidation::Mortgage(3)));
    assert_eq!(raise(&mut board, 0, 0, 30), (Ok(()), 0));
    assert_eq!(mortgaged(&board), vec![1, 3, 5]);
    assert_eq!(find_liquidation(&board, 0), None);
}

#[test]
fn a_lone_place_goes_before_the_rest_of_a_whole_color() {
    let mut board = Board::new();
    for place in [1, 3, 6] {
        board.set_owner(place, Some(0));
    }
    board.set_mortgaged(1, true);
    assert_eq!(find_liquidation(&board, 0), Some(Liquidation::Mortgage(6)));
    assert_eq!(raise(&mut board, 0, 0, 30), (Ok(()), 20));
    assert_eq!(mortgaged(&board), vec![1, 6]);
}

#[test]
fn whole_colors_are_mortgaged_in_the_order_of_the_colors() {
    let mut board = Board::new();
    for place in [6, 8, 9, 37, 39] {
        board.set_owner(place, Some(0));
    }
    board.set_mortgaged(37, true);
    assert_eq!(find_liquidation(&board, 0), Some(Liquidation::Mortgage(6)));
    assert_eq!(raise(&mut board, 0, 0, 40), (Ok(()), 10));
    assert_eq!(mortgaged(&board), vec![6, 37]);
    // Light blue is finished before the last place of blue is touched.
    assert_eq!(raise(&mut board, 0, 0, 110), (Ok(()), 0));
    assert_eq!(mortgaged(&board), vec![6, 8, 9, 37]);
    assert_eq!(find_liquidation(&board, 0), Some(Liquidation::Mortgage(39)));
}

#[test]
fn a_color_that_lost_its_houses_is_mortgaged_in_the_order_of_the_board() {
    let mut board = Board::new();
    for place in [1, 3] {
        board.set_owner(place, Some(0));
    }
    board.set_num_houses(3, 1);
    assert_eq!(find_liquidation(&board, 0), Some(Liquidation::SellHouse(3)));
    assert_eq!(raise(&mut board, 0, 0, 30), (Ok(()), 25));
    assert_eq!(houses(&board, &[1, 3]), vec![0, 0]);
    assert_eq!(mortgaged(&board), vec![1]);
    assert_eq!(find_liquidation(&board, 0), Some(Liquidation::Mortgage(3)));
}

#[test]
fn idle_monopolies_go_before_houses_of_earlier_colors() {
    let mut board = Board::new();
    for place in [1, 3, 37, 39] {
        board.set_owner(place, Some(0));
    }
    board.set_num_houses(1, 1);
    board.set_num_houses(3, 1);
    assert_eq!(find_liquidation(&board, 0), Some(Liquidation::Mortgage(37)));
    assert_eq!(raise(&mut board, 0, 0, 376), (Ok(()), 24));
    assert_eq!(mortgaged(&board), vec![37, 39]);
    assert_eq!(houses(&board, &[1, 3]), vec![0, 1]);
    assert_eq!(find_liquidation(&board, 0), Some(Liquidation::SellHouse(3)));
    assert_eq!(find_liquidation(&board, 1), None);
}

#[test]
fn no_surplus_no_investment() {
    let mut board = Board::new();
    board.set_owner(5, Some(0));
    board.set_mortgaged(5, true);
    // The income tax asks for $200: that much is kept back.
    assert_eq!(invest(&mut board, 0, 200), 200);
    assert_eq!(invest(&mut board, 0, 309), 309);
    assert_eq!(mortgaged(&board), vec![5]);
    assert_eq!(invest(&mut board, 0, 310), 200);
    assert_eq!(mortgaged(&board), Vec::<usize>::new());
}

#[test]
fn houses_are_built_flatly() {
    let mut board = Board::new();
    board.set_owner(1, Some(0));
    board.set_owner(3, Some(0));
    assert_eq!(invest(&mut board, 0, 250), 200);
    assert_eq!(houses(&board, &[1, 3]), vec![1, 0]);
    assert_eq!(invest(&mut board, 0, 520), 220);
    assert_eq!(houses(&board, &[1, 3]), vec![3, 4]);
    assert_eq!(invest(&mut board, 0, 1000), 850);
    assert_eq!(houses(&board, &[1, 3]), vec![5, 5]);
    assert_eq!(find_investment(&board, 0), None);
}

#[test]
fn equal_places_are_built_on_in_turns_as_a_sorted_list_would_give_them() {
    // One house after another: down the board, then up, then down again.
    let after = [
        [1, 0, 0],
        [1, 1, 0],
        [1, 1, 1],
        [1, 1, 2],
        [1, 2, 2],
        [2, 2, 2],
        [3, 2, 2],
        [3, 3, 2],
        [3, 3, 3],
        [3, 3, 4],
    ];
    for (built, stand) in after.iter().enumerate() {
        let mut board = Board::new();
        for place in [6, 8, 9] {
            board.set_owner(place, Some(0));
        }
        let budget = 50 * (built as u32 + 1);
        assert_eq!(invest(&mut board, 0, 200 + budget), 200);
        assert_eq!(houses(&board, &[6, 8, 9]), stand.to_vec(), "after {} houses", built + 1);
    }
}

#[test]
fn a_new_investing_starts_the_turns_anew() {
    let mut board = Board::new();
    for place in [6, 8, 9] {
        board.set_owner(place, Some(0));
        board.set_num_houses(place, 1);
    }
    assert_eq!(find_investment(&board, 0), Some(Investment::BuildHouse(6)));
    let start = vec![0; 40];
    assert_eq!(
        mplz_core::investment::find_investment(&board, &start, 0),
        Some(Investment::BuildHouse(9))
    );
}

#[test]
fn the_color_with_the_most_houses_is_built_first_whatever_its_size() {
    // Three light blue places with five houses between them go before two
    // brown places with four, though the brown ones lack fewer.
    let mut board = Board::new();
    for place in [1, 3, 6, 8, 9] {
        board.set_owner(place, Some(0));
        board.set_num_houses(place, 2);
    }
    board.set_num_houses(9, 1);
    assert_eq!(find_investment(&board, 0), Some(Investment::BuildHouse(9)));
    assert_eq!(invest(&mut board, 0, 200 + 60), 210);
    assert_eq!(houses(&board, &[6, 8, 9]), vec![2, 2, 2]);
    assert_eq!(houses(&board, &[1, 3]), vec![2, 2]);
}

#[test]
fn a_color_with_houses_is_built_before_one_without() {
    let mut board = Board::new();
    for place in [1, 3, 6, 8, 9] {
        board.set_owner(place, Some(0));
    }
    board.set_num_houses(6, 2);
    board.set_num_houses(8, 1);
    board.set_num_houses(9, 1);
    assert_eq!(find_investment(&board, 0), Some(Investment::BuildHouse(8)));
    assert_eq!(invest(&mut board, 0, 200 + 11 * 50 + 40), 240);
    assert_eq!(houses(&board, &[6, 8, 9]), vec![5, 5, 5]);
    assert_eq!(houses(&board, &[1, 3]), vec![0, 0]);
}

#[test]
fn the_color_with_more_houses_is_built_before_one_of_its_size() {
    let mut board = Board::new();
    for place in [1, 3, 37, 39] {
        board.set_owner(place, Some(0));
    }
    board.set_num_houses(37, 1);
    board.set_num_houses(39, 1);
    assert_eq!(find_investment(&board, 0), Some(Investment::BuildHouse(37)));
    assert_eq!(invest(&mut board, 0, 200 + 200 + 30), 230);
    assert_eq!(houses(&board, &[37, 39]), vec![2, 1]);
    assert_eq!(houses(&board, &[1, 3]), vec![0, 0]);
}

#[test]
fn equal_colors_are_built_in_the_order_of_the_board() {
    let mut board = Board::new();
    for place in [37, 39, 1, 3] {
        board.set_owner(place, Some(0));
    }
    assert_eq!(find_investment(&board, 0), Some(Investment::BuildHouse(1)));
    assert_eq!(invest(&mut board, 0, 200 + 10 * 50 + 200), 200);
    assert_eq!(houses(&board, &[1, 3]), vec![5, 5]);
    assert_eq!(houses(&board, &[37, 39]), vec![1, 0]);
}

#[test]
fn mortgages_are_lifted_before_houses_are_built() {
    let mut board = Board::new();
    board.set_owner(1, Some(0));
    board.set_owner(3, Some(0));
    board.set_mortgaged(3, true);
    assert_eq!(find_investment(&board, 0), Some(Investment::Unmortgage(3)));
    assert_eq!(invest(&mut board, 0, 283), 200);
    assert_eq!(mortgaged(&board), Vec::<usize>::new());
    assert_eq!(houses(&board, &[1, 3]), vec![1, 0]);
}

#[test]
fn railroads_come_first_and_other_places_last() {
    let mut board = Board::new();
    for place in [6, 12, 35, 1, 3] {
        board.set_owner(place, Some(0));
    }
    board.set_mortgaged(6, true);
    board.set_mortgaged(12, true);
    board.set_mortgaged(35, true);
    assert_eq!(find_investment(&board, 0), Some(Investment::Unmortgage(35)));
    // Railroad $110, ten brown houses $500, then Oriental Avenue $55; the
    // utility for $82 is beyond the budget, and ends it all.
    assert_eq!(invest(&mut board, 0, 200 + 110 + 500 + 55 + 81), 281);
    assert_eq!(mortgaged(&board), vec![12]);
    assert_eq!(houses(&board, &[1, 3]), vec![5, 5]);
}

#[test]
fn the_first_step_beyond_the_budget_ends_it_all() {
    let mut board = Board::new();
    for place in [1, 3, 12] {
        board.set_owner(place, Some(0));
    }
    board.set_mortgaged(1, true);
    board.set_mortgaged(12, true);
    // $32 do not lift the mortgage of Mediterranean Avenue, so nothing is done.
    assert_eq!(invest(&mut board, 0, 232), 232);
    assert_eq!(mortgaged(&board), vec![1, 12]);
}

#[test]
fn the_buffer_covers_the_highest_rent_of_the_others() {
    let mut board = Board::new();
    for place in [37, 39] {
        board.set_owner(place, Some(1));
        board.set_num_houses(place, 5);
    }
    board.set_owner(1, Some(0));
    board.set_owner(3, Some(0));
    assert_eq!(invest(&mut board, 0, 2000), 2000);
    assert_eq!(invest(&mut board, 0, 2120), 2020);
    assert_eq!(houses(&board, &[1, 3]), vec![1, 1]);
    // The owner of the hotels fears no more than the taxes.
    assert_eq!(invest(&mut board, 1, 300), 300);
}

#[test]
fn nothing_dearer_goes_while_something_cheaper_is_left() {
    // Every debt from nothing to more than the holdings are worth.
    for debt in 0..=600u32 {
        let before = mixed_holdings();
        let mut board = mixed_holdings();
        let _ = raise(&mut board, 0, 0, debt);
        let sold = [37usize, 39]
            .iter()
            .any(|&i| board.places[i].get_num_houses() < before.places[i].get_num_houses());
        let whole = [1usize, 3, 37, 39].iter().any(|&i| board.places[i].is_mortgaged());
        if sold || whole {
            assert!(board.places[5].is_mortgaged() && board.places[12].is_mortgaged());
        }
        if sold {
            assert!(board.places[1].is_mortgaged() && board.places[3].is_mortgaged());
        }
        for i in [37usize, 39] {
            if board.places[i].is_mortgaged() {
                assert_eq!(houses(&board, &[37, 39]), vec![0, 0]);
            }
        }
    }
}
