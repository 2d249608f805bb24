use vstd::prelude::*;
use crate::board::{lemma_place_shape, Board};
use crate::dice_rolling::DiceResult;
use crate::events::{EventKind, EventModel};
use crate::rules::lemma_landing;
use crate::places::{landing_effect, BoardColor, BoardPlace, OwnablePlace, PlaceModel};
use crate::player::Player;
use crate::strategy::PlayerStrategy;
use crate::liquidation::{liquid_value, liquid_worth};
use crate::sums::{lemma_total_step, total, total_upto};

verus! {

/// The rent that the place `m` would charge a visitor who owns nothing; the
/// utilities, whose rent goes by the dice, count for nothing here.
pub open spec fn imagined_rent(m: PlaceModel, b: Seq<PlaceModel>) -> int {
    if m.color != BoardColor::Utilities {
        match landing_effect(m, usize::MAX, b, DiceResult::Different(7)) {
            EventModel::PayToOther(_, _, dollars) => dollars as int,
            _ => 0,
        }
    } else {
        0
    }
}

/// What the place `m` adds to the rents that `p` can charge.
pub open spec fn rent_share(m: PlaceModel, b: Seq<PlaceModel>, p: usize) -> int {
    if m.owner == Some(p) {
        imagined_rent(m, b)
    } else {
        0
    }
}

/// One for a utility of `p`, mortgaged or not.
pub open spec fn utility_share(m: PlaceModel, p: usize) -> int {
    if m.owner == Some(p) && m.color == BoardColor::Utilities {
        1
    } else {
        0
    }
}

/// The rent that utilities bring on average: $28 for one, $140 for both.
pub open spec fn utilities_tap(owned: int) -> int {
    if owned <= 0 {
        0
    } else if owned == 1 {
        28
    } else {
        140
    }
}

/// The rents of all the places of `p`, one by one.
pub open spec fn rent_shares(b: Seq<PlaceModel>, p: usize) -> Seq<int> {
    Seq::new(b.len(), |i: int| rent_share(b[i], b, p))
}

/// One for each utility of `p`, nothing for the other places.
pub open spec fn utility_shares(b: Seq<PlaceModel>, p: usize) -> Seq<int> {
    Seq::new(b.len(), |i: int| utility_share(b[i], p))
}

/// The attacking power of `p`: the sum of the rents that his places would
/// charge a visitor now, with the average rent for his utilities.
pub open spec fn attacking_power(b: Seq<PlaceModel>, p: usize) -> int {
    total(rent_shares(b, p)) + utilities_tap(total(utility_shares(b, p)))
}

/// Appraises what a player holds.
pub struct Appraiser;

impl Appraiser {
    /// Calculates the most that the player can pay: his cash and all that he
    /// can raise by selling houses and mortgaging places. A mortgaged place
    /// counts for nothing. The sum must not leave the range of the machine's
    /// numbers; no board holds more than $28,000 for one player
    /// (`lemma_liquid_value_bound`).
    pub fn get_payable_money<S: PlayerStrategy>(player: &Player<S>, board: &Board) -> (price: u32)
        requires
            board.wf(),
            player.money + liquid_value(board@, player.player_id) <= u32::MAX,
        ensures
            price == player.money + liquid_value(board@, player.player_id),
    {
        let ghost worths = Seq::new(40, |j: int| liquid_worth(board@[j], player.player_id));
        assert(worths =~= Seq::new(
            board@.len(),
            |j: int| liquid_worth(board@[j], player.player_id),
        ));
        let mut price: u64 = player.money as u64;
        let mut i: usize = 0;
        proof {
            lemma_total_step(worths, 0);
        }
        while i < board.places.len()
            invariant
                board.wf(),
                i <= 40,
                worths == Seq::new(40, |j: int| liquid_worth(board@[j], player.player_id)),
                price == player.money + total_upto(worths, i as int),
                price <= u32::MAX + 700 * i,
            decreases 40 - i,
        {
            let place = &board.places[i];
            assert(place.model() == board@[i as int]);
            proof {
                lemma_place_shape(board@, i as int);
                lemma_total_step(worths, i as int);
            }
            let owned = match place.get_owner() {
                Some(owner) => owner == player.player_id,
                None => false,
            };
            if owned && !place.is_mortgaged() {
                let house_price = match place.get_price_of_house() {
                    Some(house_price) => house_price,
                    None => 0,
                };
                let houses = match place.get_num_houses() {
                    Some(houses) => houses,
                    None => 0,
                };
                assert(house_price * houses / 2 == houses * (house_price / 2)) by (nonlinear_arith)
                    requires
                        house_price % 2 == 0,
                        0 <= houses <= 5,
                        0 <= house_price <= 200,
                ;
                assert(house_price * houses <= 1000) by (nonlinear_arith)
                    requires
                        0 <= houses <= 5,
                        0 <= house_price <= 200,
                ;
                price += (place.get_price() / 2) as u64 + (house_price * (houses as u32) / 2) as u64;
            }
            i += 1;
        }
        proof {
            lemma_total_step(worths, 39);
        }
        price as u32
    }

    /// Calculates the attacking power of the player: the sum of the rents
    /// that his places would charge a visitor now, with the average rent for
    /// his utilities.
    pub fn get_tap<S: PlayerStrategy>(player: &Player<S>, board: &Board) -> (tap: u32)
        requires
            board.wf(),
        ensures
            tap == attacking_power(board@, player.player_id),
    {
        let ghost rents = rent_shares(board@, player.player_id);
        let ghost owned = utility_shares(board@, player.player_id);
        let mut tap: u32 = 0;
        let mut num_of_utilities: u32 = 0;
        let mut i: usize = 0;
        proof {
            lemma_total_step(rents, 0);
            lemma_total_step(owned, 0);
        }
        while i < board.places.len()
            invariant
                board.wf(),
                i <= 40,
                rents == rent_shares(board@, player.player_id),
                owned == utility_shares(board@, player.player_id),
                tap == total_upto(rents, i as int),
                num_of_utilities == total_upto(owned, i as int),
                tap <= 2000 * i,
                num_of_utilities <= i,
            decreases 40 - i,
        {
            let place = &board.places[i];
            assert(place.model() == board@[i as int]);
            proof {
                lemma_place_shape(board@, i as int);
                lemma_landing(board@, i as int, usize::MAX, DiceResult::Different(7));
                lemma_total_step(rents, i as int);
                lemma_total_step(owned, i as int);
            }
            let mine = match place.get_owner() {
                Some(owner) => owner == player.player_id,
                None => false,
            };
            if mine {
                if place.get_color() != BoardColor::Utilities {
                    match place.get_action(usize::MAX, board, DiceResult::Different(7)) {
                        EventKind::PayToOther(_, _, money) => {
                            tap += money;
                        },
                        _ => {},
                    };
                } else {
                    num_of_utilities += 1;
                }
            }
            i += 1;
        }
        proof {
            lemma_total_step(rents, 39);
            lemma_total_step(owned, 39);
        }
        tap += if num_of_utilities == 0 {
            0
        } else if num_of_utilities == 1 {
            28
        } else {
            70 * 2
        };
        tap
    }
}

} // verus!
