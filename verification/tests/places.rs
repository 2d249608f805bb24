use mplz_core::board::Board;
use mplz_core::dice_rolling::{DiceResult, UtilityDice};
use mplz_core::events::EventKind;
use mplz_core::places::estate::Estate;
use mplz_core::places::railroad::Railroad;
use mplz_core::places::{get_place_list, BoardColor, BoardPlace, OwnablePlace, Place};

fn seven() -> DiceResult {
    DiceResult::Different(7)
}

fn rent_on(board: &Board, place: usize, visitor: usize, roll: DiceResult) -> Option<(usize, u32)> {
    match board.places[place].get_action(visitor, board, roll) {
        EventKind::PayToOther(_, owner, dollars) => Some((owner, dollars)),
        _ => None,
    }
}

#[test]
fn board_has_forty_places_in_order() {
    let places = get_place_list();
    assert_eq!(places.len(), 40);
    for (i, place) in places.iter().enumerate() {
        assert_eq!(place.get_id(), i);
    }
    assert_eq!(places[0].get_place_name(), "Go");
    assert_eq!(places[10].get_place_name(), "Just Visiting");
    assert_eq!(places[39].get_place_name(), "Boardwalk");
    assert_eq!(places[39].get_price(), 400);
    assert_eq!(places[39].get_price_of_house(), Some(200));
    assert_eq!(places[5].get_price(), 200);
    assert_eq!(places[12].get_price(), 150);
}

#[test]
fn colors_group_the_places() {
    let places = get_place_list();
    let count = |color: BoardColor| places.iter().filter(|p| p.get_color() == color).count();
    assert_eq!(count(BoardColor::Brown), 2);
    assert_eq!(count(BoardColor::LightBlue), 3);
    assert_eq!(count(BoardColor::Blue), 2);
    assert_eq!(count(BoardColor::Railroad), 4);
    assert_eq!(count(BoardColor::Utilities), 2);
    assert_eq!(count(BoardColor::Neutral), 12);
    assert_eq!(BoardColor::get_estate_colors().len(), 8);
    assert_eq!(BoardColor::get_estate_colors()[0], BoardColor::Brown);
    assert_eq!(BoardColor::get_property_colors().len(), 10);
    assert_eq!(BoardColor::get_property_colors()[0], BoardColor::Railroad);
}

#[test]
fn only_ownable_places_are_properties() {
    let places = get_place_list();
    assert!(!places[0].is_property());
    assert!(!places[4].is_property());
    assert!(places[5].is_property());
    assert!(!places[5].is_estate());
    assert!(places[12].is_property());
    assert!(!places[12].is_estate());
    assert!(places[1].is_estate());
    assert_eq!(places[0].get_owner(), None);
    assert_eq!(places[0].get_num_houses(), None);
    assert_eq!(places[5].get_num_houses(), None);
    assert_eq!(places[1].get_num_houses(), Some(0));
}

#[test]
fn neutral_places_have_their_fixed_effects() {
    let board = Board::new();
    assert!(matches!(board.places[0].get_action(0, &board, seven()), EventKind::Nothing("Go")));
    assert!(matches!(
        board.places[4].get_action(0, &board, seven()),
        EventKind::PayToBank("Income Tax", 200)
    ));
    assert!(matches!(
        board.places[38].get_action(0, &board, seven()),
        EventKind::PayToBank("Luxury Tax", 100)
    ));
    assert!(matches!(board.places[30].get_action(0, &board, seven()), EventKind::GetJailed));
    assert!(matches!(board.places[7].get_action(0, &board, seven()), EventKind::Nothing(_)));
    assert!(matches!(board.places[2].get_action(0, &board, seven()), EventKind::Nothing(_)));
}

#[test]
fn unowned_property_is_offered_for_its_price() {
    let board = Board::new();
    assert!(matches!(board.places[1].get_action(0, &board, seven()), EventKind::GivePlace(1, 60)));
    assert!(matches!(board.places[5].get_action(0, &board, seven()), EventKind::GivePlace(5, 200)));
    assert!(matches!(
        board.places[12].get_action(0, &board, seven()),
        EventKind::GivePlace(12, 150)
    ));
}

#[test]
fn own_and_mortgaged_places_charge_nothing() {
    let mut board = Board::new();
    board.set_owner(39, Some(1));
    assert!(matches!(board.places[39].get_action(1, &board, seven()), EventKind::Nothing(_)));
    assert_eq!(rent_on(&board, 39, 0, seven()), Some((1, 50)));
    assert_eq!(board.set_mortgaged(39, true), 200);
    assert!(matches!(board.places[39].get_action(0, &board, seven()), EventKind::Nothing(_)));
    assert_eq!(board.places[39].get_rent(&board, seven()), None);
}

#[test]
fn estate_rent_follows_monopoly_and_houses() {
    let mut board = Board::new();
    board.set_owner(37, Some(1));
    assert_eq!(rent_on(&board, 37, 0, seven()), Some((1, 35)));
    board.set_owner(39, Some(1));
    assert_eq!(rent_on(&board, 37, 0, seven()), Some((1, 70)));
    assert_eq!(rent_on(&board, 39, 0, seven()), Some((1, 100)));
    board.set_num_houses(39, 1);
    assert_eq!(rent_on(&board, 39, 0, seven()), Some((1, 200)));
    board.set_num_houses(37, 1);
    board.set_num_houses(39, 2);
    assert_eq!(rent_on(&board, 39, 0, seven()), Some((1, 600)));
    board.set_num_houses(37, 5);
    board.set_num_houses(39, 5);
    assert_eq!(rent_on(&board, 39, 0, seven()), Some((1, 2000)));
    assert_eq!(rent_on(&board, 37, 0, seven()), Some((1, 1500)));
    assert_eq!(board.places[39].get_rent(&board, seven()), Some(2000));
}

#[test]
fn all_four_railroads_charge_two_hundred() {
    let mut board = Board::new();
    for place in [5, 15, 25, 35] {
        board.set_owner(place, Some(0));
    }
    for place in [5, 15, 25, 35] {
        assert_eq!(rent_on(&board, place, 1, seven()), Some((0, 200)));
    }
}

#[test]
fn railroad_rent_doubles_with_each_railroad() {
    let mut board = Board::new();
    board.set_owner(5, Some(0));
    assert_eq!(rent_on(&board, 5, 1, seven()), Some((0, 25)));
    board.set_owner(15, Some(0));
    assert_eq!(rent_on(&board, 5, 1, seven()), Some((0, 50)));
    board.set_owner(25, Some(0));
    assert_eq!(rent_on(&board, 15, 1, seven()), Some((0, 100)));
    board.set_owner(35, Some(2));
    assert_eq!(rent_on(&board, 25, 1, seven()), Some((0, 100)));
    assert_eq!(rent_on(&board, 35, 1, seven()), Some((2, 25)));
    board.set_mortgaged(5, true);
    assert_eq!(rent_on(&board, 15, 1, seven()), Some((0, 50)));
}

#[test]
fn utility_rent_multiplies_the_dice() {
    let mut board = Board::new();
    board.set_owner(12, Some(0));
    assert_eq!(rent_on(&board, 12, 1, DiceResult::Different(7)), Some((0, 28)));
    assert_eq!(rent_on(&board, 12, 1, DiceResult::Same(12)), Some((0, 48)));
    board.set_owner(28, Some(0));
    assert_eq!(rent_on(&board, 12, 1, DiceResult::Different(7)), Some((0, 70)));
    assert_eq!(rent_on(&board, 28, 1, DiceResult::Same(2)), Some((0, 20)));
    board.set_mortgaged(28, true);
    assert_eq!(rent_on(&board, 12, 1, DiceResult::Different(3)), Some((0, 12)));
}

#[test]
fn lifting_a_mortgage_costs_ten_percent_more() {
    let places = get_place_list();
    assert_eq!(places[1].get_return_cost(), 33);
    assert_eq!(places[5].get_return_cost(), 110);
    assert_eq!(places[12].get_return_cost(), 82);
    assert_eq!(places[37].get_return_cost(), 192);
    assert_eq!(places[39].get_return_cost(), 220);
}

#[test]
fn places_built_by_hand_keep_what_they_are_given() {
    let mut estate = Estate::new(3, BoardColor::Brown, "Baltic Avenue", 60, 50, vec![4, 8, 20, 60, 180, 320, 450]);
    assert_eq!(estate.get_id(), 3);
    assert_eq!(estate.get_price(), 60);
    assert_eq!(estate.get_owner(), None);
    estate.set_owner(Some(4));
    assert_eq!(estate.get_owner(), Some(4));
    estate.set_num_houses(3);
    assert_eq!(estate.get_num_houses(), Some(3));
    assert_eq!(estate.set_mortgaged(true), 30);
    assert!(estate.is_mortgaged());
    let mut railroad = Railroad::new(5, "Reading Railroad");
    assert_eq!(railroad.set_mortgaged(true), 100);
    assert!(railroad.is_mortgaged());
    assert_eq!(railroad.get_color(), BoardColor::Railroad);
    let boxed = Railroad::new_boxed(15, "Pennsylvania Railroad");
    assert!(matches!(*boxed, Place::Railroad(_)));
    assert_eq!(boxed.get_place_name(), "Pennsylvania Railroad");
}

#[test]
fn monopoly_needs_one_owner_for_the_whole_color() {
    let mut board = Board::new();
    assert_eq!(board.get_monopolizer(BoardColor::Brown), None);
    board.set_owner(1, Some(0));
    assert_eq!(board.get_monopolizer(BoardColor::Brown), None);
    assert!(!board.is_monopolized(BoardColor::Brown));
    board.set_owner(3, Some(1));
    assert_eq!(board.get_monopolizer(BoardColor::Brown), None);
    board.set_owner(3, Some(0));
    assert_eq!(board.get_monopolizer(BoardColor::Brown), Some(0));
    assert!(board.is_monopolized(BoardColor::Brown));
    assert_eq!(board.get_monopolizer(BoardColor::Neutral), None);
    assert_eq!(board.gets_by_color(BoardColor::Brown).len(), 2);
    assert_eq!(board.gets_by_color(BoardColor::Brown)[1].get_id(), 3);
    assert_eq!(board.gets_by_color_mut(BoardColor::LightBlue), vec![6, 8, 9]);
    assert_eq!(board.gets_by_color_mut(BoardColor::Railroad), vec![5, 15, 25, 35]);
    for place in board.gets_by_color_mut(BoardColor::Blue) {
        board.set_owner(place, Some(1));
    }
    assert_eq!(board.get_monopolizer(BoardColor::Blue), Some(1));
}

#[test]
fn houses_are_counted_by_color() {
    let mut board = Board::new();
    assert_eq!(board.get_houses_num_by_color(BoardColor::Orange), Some(0));
    assert_eq!(board.get_houses_num_by_color(BoardColor::Railroad), None);
    for place in [16, 18, 19] {
        board.set_owner(place, Some(0));
    }
    board.set_num_houses(16, 2);
    board.set_num_houses(18, 1);
    board.set_num_houses(19, 1);
    assert_eq!(board.get_houses_num_by_color(BoardColor::Orange), Some(4));
    assert!(board.validate_houses());
}

#[test]
fn houses_need_a_flat_unmortgaged_monopoly() {
    let mut board = Board::new();
    assert!(board.validate_houses());
    board.set_owner(1, Some(0));
    board.set_num_houses(1, 1);
    assert!(!board.validate_houses());
    board.set_owner(3, Some(0));
    assert!(board.validate_houses());
    board.set_num_houses(1, 2);
    assert!(!board.validate_houses());
    board.set_num_houses(3, 1);
    assert!(board.validate_houses());
    board.set_mortgaged(3, true);
    assert!(!board.validate_houses());
    assert!(!board.color_is_valid(BoardColor::Brown));
    assert!(board.color_is_valid(BoardColor::Blue));
}

#[test]
fn exposure_is_the_highest_rent_of_the_others() {
    let mut board = Board::new();
    let dice = UtilityDice { electric_company: DiceResult::Different(7), water_works: DiceResult::Same(12) };
    assert_eq!(board.most_expensive_with(0, &dice), 200);
    board.set_owner(39, Some(1));
    board.set_owner(37, Some(1));
    board.set_num_houses(39, 3);
    board.set_num_houses(37, 3);
    assert_eq!(board.most_expensive_with(0, &dice), 1400);
    assert_eq!(board.most_expensive_with(1, &dice), 200);
    let rolled = board.get_most_expensive(0);
    assert_eq!(rolled, 1400);
}

#[test]
fn exposure_uses_one_throw_for_each_utility() {
    let mut board = Board::new();
    board.set_owner(12, Some(1));
    board.set_owner(28, Some(1));
    for place in [4, 38] {
        assert!(!board.places[place].is_property());
    }
    let dice = UtilityDice { electric_company: DiceResult::Different(3), water_works: DiceResult::Same(12) };
    // Both utilities in one hand: ten times the throw. The taxes still ask for $200.
    assert_eq!(board.places[12].get_rent(&board, dice.get(12)), Some(30));
    assert_eq!(board.places[28].get_rent(&board, dice.get(28)), Some(120));
    assert_eq!(board.most_expensive_with(0, &dice), 200);
}

#[test]
fn a_board_that_is_not_laid_out_is_told() {
    let mut board = Board::new();
    assert!(board.is_laid_out());
    board.set_owner(39, Some(3));
    board.set_num_houses(39, 5);
    board.set_mortgaged(5, true);
    assert!(board.is_laid_out());
    board.places.swap(1, 3);
    assert!(!board.is_laid_out());
    board.places.swap(1, 3);
    assert!(board.is_laid_out());
    let last = board.places.pop().unwrap();
    assert!(!board.is_laid_out());
    board.places.push(last);
    assert!(board.is_laid_out());

    let rents = |last: u32| vec![2, 4, 10, 30, 90, 160, last];
    board.places[1] = Place::Estate(Estate::new(1, BoardColor::Brown, "Mediterranean Avenue", 60, 50, rents(251)));
    assert!(!board.is_laid_out());
    board.places[1] = Place::Estate(Estate::new(1, BoardColor::Brown, "Mediterranean", 60, 50, rents(250)));
    assert!(!board.is_laid_out());
    board.places[1] = Place::Estate(Estate::new(1, BoardColor::Brown, "Mediterranean Avenue", 60, 50, rents(250)));
    assert!(board.is_laid_out());
    board.places[5] = Place::Railroad(Railroad::new(5, "Short Line"));
    assert!(!board.is_laid_out());
    board.places[5] = Place::Railroad(Railroad::new(5, "Reading Railroad"));
    assert!(board.is_laid_out());
    assert!(board.places[5].is_same_place(&Board::new().places[5]));
    assert!(!board.places[5].is_same_place(&Board::new().places[15]));
    assert!(!board.places[0].is_same_place(&Board::new().places[10]));
}

#[test]
fn places_say_what_they_are_and_whose() {
    let mut board = Board::new();
    assert_eq!(board.places[0].info(), "Go");
    assert_eq!(board.places[4].info(), "Income Tax");
    assert_eq!(board.places[30].info(), "Go to Jail");
    assert_eq!(board.places[5].info(), "Reading Railroad");
    assert_eq!(board.places[39].info(), "Boardwalk [Blue]");
    board.set_owner(5, Some(2));
    board.set_owner(12, Some(10));
    board.set_owner(37, Some(0));
    board.set_owner(39, Some(0));
    board.set_num_houses(39, 3);
    board.set_mortgaged(1, true);
    board.set_owner(1, Some(7));
    assert_eq!(board.places[5].info(), "Reading Railroad owner:2");
    assert_eq!(board.places[12].info(), "Electric Company owner:10");
    assert_eq!(board.places[39].info(), "Boardwalk [Blue] owner:0 mortgaged:false houses:3");
    assert_eq!(
        board.places[1].info(),
        "Mediterranean Avenue [Brown] owner:7 mortgaged:true houses:0"
    );
}
