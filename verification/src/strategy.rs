use vstd::prelude::*;
use crate::board::{houses_valid, most_expensive, Board};
use crate::dice_rolling::UtilityDice;
use crate::investment::{
    apply_investment, find_investment, invest_from, invest_outcome, invest_room, investment,
    built_up, investment_cost, Invested, lemma_invest_laws, lemma_investment_step, lemma_next_investment,
};
use crate::liquidation::{
    apply_liquidation, find_liquidation, given_up, house_counts, houses_of, lemma_liquid_bounds,
    least_hurt_first, lemma_liquidation_step, lemma_next_liquidation, lemma_raise_laws,
    lemma_raise_order, liquid_assets, liquid_value, liquidate, raise_from, raise_outcome, Raised,
};
use crate::places::PlaceModel;
use crate::player::PlayerState;

verus! {

/// What decides how a player raises money and how he spends it.
///
/// A strategy says in `raised` and `invested` what it leaves of the board and
/// the cash; `raise` and `invest` do that, within the laws that hold of every
/// strategy. A strategy that does not say otherwise leaves what the strategy
/// that protects the expensive houses leaves.
pub trait PlayerStrategy {
    /// How the attempt of the player `p` to pay `debt` ends with this
    /// strategy: the board and the cash that are left, and whether the debt
    /// was paid.
    open spec fn raised(&self, b: Seq<PlaceModel>, p: usize, money: int, debt: int) -> Raised {
        raise_outcome(b, p, money, debt)
    }

    /// How the player `p` invests with this strategy when the highest rent
    /// that threatens him is `exposure`: the board and the cash that are left.
    open spec fn invested(&self, b: Seq<PlaceModel>, p: usize, money: int, exposure: int) -> Invested {
        investment(b, p, money, exposure)
    }

    /// Pays `debt` out of `money`, turning holdings of `player_id` into cash
    /// first where the cash is short.
    ///
    /// With enough cash the board is not touched. The debt is paid exactly
    /// when the cash and all that can be liquidated cover it, and the cash is
    /// then the cash before, plus what was liquidated, minus the debt.
    /// Otherwise everything is liquidated, and the cash that this brought is
    /// left in `money` and returned as the error: every place of the player
    /// is then mortgaged and without houses. Either way the board obeys the
    /// rule of building, every place keeps its owner, the places of the other
    /// players are as they were, no mortgage is lifted and no house added.
    ///
    /// The cash and all that can be liquidated must not leave the range of
    /// the machine's numbers; no board holds more than $28,000 for one player
    /// (`lemma_liquid_value_bound`).
    fn raise(
        &self,
        debt: u32,
        board: &mut Board,
        player_id: usize,
        money: &mut u32,
        state: &PlayerState,
        position: usize,
    ) -> (result: Result<(), u32>)
        requires
            old(board).wf(),
            houses_valid(old(board)@),
            *old(money) + liquid_value(old(board)@, player_id) <= u32::MAX,
        ensures
            final(board)@ == self.raised(
                old(board)@,
                player_id,
                *old(money) as int,
                debt as int,
            ).board,
            *final(money) == self.raised(
                old(board)@,
                player_id,
                *old(money) as int,
                debt as int,
            ).money,
            result is Ok == self.raised(
                old(board)@,
                player_id,
                *old(money) as int,
                debt as int,
            ).paid,
            final(board).wf(),
            houses_valid(final(board)@),
            forall|j: int| 0 <= j < 40 ==> (#[trigger] final(board)@[j]).owner == old(board)@[j].owner,
            given_up(old(board)@, final(board)@, player_id),
            *old(money) >= debt ==> final(board)@ == old(board)@,
            result is Ok <==> *old(money) + liquid_value(old(board)@, player_id) >= debt,
            result is Ok ==> *final(money) == *old(money) + (liquid_value(old(board)@, player_id)
                - liquid_value(final(board)@, player_id)) - debt,
            result matches Err(residual) ==> {
                &&& residual == *old(money) + liquid_value(old(board)@, player_id)
                &&& *final(money) == residual
                &&& liquid_value(final(board)@, player_id) == 0
                &&& forall|j: int|
                    0 <= j < 40 && final(board)@[j].owner == Some(player_id) ==> final(board)@[j].mortgaged
                        && final(board)@[j].house_count() == 0
            },
    ;

    /// Spends cash of `player_id` on his holdings: on lifting mortgages and
    /// on houses.
    ///
    /// Only the cash beyond the highest rent that another player's place could
    /// charge is spent, `dice` holding the throws that the utilities multiply;
    /// whoever has no more than that keeps board and cash as they are. The
    /// board obeys the rule of building afterwards, every place keeps its
    /// owner, the places of the other players are as they were, no place is
    /// mortgaged and no house goes.
    fn invest(
        &self,
        board: &mut Board,
        player_id: usize,
        money: &mut u32,
        state: &PlayerState,
        position: usize,
        dice: &UtilityDice,
    )
        requires
            old(board).wf(),
            houses_valid(old(board)@),
            dice.valid(),
        ensures
            final(board)@ == self.invested(
                old(board)@,
                player_id,
                *old(money) as int,
                most_expensive(old(board)@, player_id, *dice, 40) as int,
            ).board,
            *final(money) == self.invested(
                old(board)@,
                player_id,
                *old(money) as int,
                most_expensive(old(board)@, player_id, *dice, 40) as int,
            ).money,
            final(board).wf(),
            houses_valid(final(board)@),
            forall|j: int| 0 <= j < 40 ==> (#[trigger] final(board)@[j]).owner == old(board)@[j].owner,
            built_up(old(board)@, final(board)@, player_id),
            *final(money) <= *old(money),
            *old(money) > most_expensive(old(board)@, player_id, *dice, 40) ==> *final(money)
                >= most_expensive(old(board)@, player_id, *dice, 40),
            *old(money) <= most_expensive(old(board)@, player_id, *dice, 40) ==> *final(money)
                == *old(money) && final(board)@ == old(board)@,
    ;
}

/// The strategy that gives up first what hurts least: places outside the
/// colors that the player holds whole, then such colors without houses, one
/// after the other, then houses, color by color, and the places of a color
/// once its houses are gone.
pub struct ExpensiveHousesProtectionStrategy;

impl ExpensiveHousesProtectionStrategy {
    /// Makes the strategy.
    pub fn new() -> (strategy: ExpensiveHousesProtectionStrategy)
        ensures
            strategy == (ExpensiveHousesProtectionStrategy {  }),
    {
        ExpensiveHousesProtectionStrategy {  }
    }

    /// Makes the strategy, ready to be given to a player.
    pub fn new_boxed() -> (strategy: Box<ExpensiveHousesProtectionStrategy>)
        ensures
            *strategy == (ExpensiveHousesProtectionStrategy {  }),
    {
        Box::new(ExpensiveHousesProtectionStrategy {  })
    }
}

impl PlayerStrategy for ExpensiveHousesProtectionStrategy {
    #[verifier::loop_isolation(false)]
    fn raise(
        &self,
        debt: u32,
        board: &mut Board,
        player_id: usize,
        money: &mut u32,
        state: &PlayerState,
        position: usize,
    ) -> (result: Result<(), u32>)
        ensures
            final(board)@ == raise_outcome(
                old(board)@,
                player_id,
                *old(money) as int,
                debt as int,
            ).board,
            *final(money) == raise_outcome(
                old(board)@,
                player_id,
                *old(money) as int,
                debt as int,
            ).money,
            result is Ok == raise_outcome(
                old(board)@,
                player_id,
                *old(money) as int,
                debt as int,
            ).paid,
            least_hurt_first(old(board)@, final(board)@, player_id),
    {
        proof {
            lemma_raise_laws(board@, player_id, *money as int, debt as int);
            lemma_raise_order(board@, player_id, *money as int, debt as int);
        }
        let start = house_counts(board);
        loop
            invariant
                board.wf(),
                houses_valid(board@),
                start@ == houses_of(old(board)@),
                *money + liquid_value(board@, player_id) == *old(money) + liquid_value(
                    old(board)@,
                    player_id,
                ),
                *money + liquid_value(board@, player_id) <= u32::MAX,
                raise_from(start@, board@, player_id, *money as int, debt as int)
                    == raise_outcome(old(board)@, player_id, *old(money) as int, debt as int),
            decreases liquid_assets(board@, player_id),
        {
            if *money >= debt {
                *money -= debt;
                return Ok(());
            }
            match find_liquidation(board, &start, player_id) {
                None => {
                    return Err(*money);
                },
                Some(step) => {
                    proof {
                        lemma_next_liquidation(start@, board@, player_id);
                        lemma_liquidation_step(start@, board@, player_id);
                        lemma_liquid_bounds(liquidate(board@, step), player_id);
                    }
                    let gain = apply_liquidation(board, step);
                    *money += gain;
                },
            }
        }
    }

    #[verifier::loop_isolation(false)]
    fn invest(
        &self,
        board: &mut Board,
        player_id: usize,
        money: &mut u32,
        state: &PlayerState,
        position: usize,
        dice: &UtilityDice,
    )
        ensures
            final(board)@ == investment(
                old(board)@,
                player_id,
                *old(money) as int,
                most_expensive(old(board)@, player_id, *dice, 40) as int,
            ).board,
            *final(money) == investment(
                old(board)@,
                player_id,
                *old(money) as int,
                most_expensive(old(board)@, player_id, *dice, 40) as int,
            ).money,
    {
        let exposure = board.most_expensive_with(player_id, dice);
        if *money <= exposure {
            return ;
        }
        let mut usable: u32 = *money - exposure;
        proof {
            lemma_invest_laws(board@, player_id, *money as int, usable as int);
        }
        let start = house_counts(board);
        loop
            invariant
                board.wf(),
                houses_valid(board@),
                start@ == houses_of(old(board)@),
                usable <= *money,
                invest_from(start@, board@, player_id, *money as int, usable as int) == invest_outcome(
                    old(board)@,
                    player_id,
                    *old(money) as int,
                    *old(money) - exposure,
                ),
            decreases invest_room(board@, player_id),
        {
            match find_investment(board, &start, player_id) {
                None => {
                    return ;
                },
                Some(step) => {
                    proof {
                        lemma_next_investment(start@, board@, player_id);
                        lemma_investment_step(start@, board@, player_id);
                    }
                    let price = investment_cost(board, step);
                    if price <= usable {
                        usable -= price;
                        *money -= price;
                        apply_investment(board, step);
                    } else {
                        return ;
                    }
                },
            }
        }
    }
}

} // verus!
