use vstd::prelude::*;
use crate::board::{houses_valid, most_expensive, Board};
use crate::dice_rolling::UtilityDice;
use crate::logs::{money_line, money_text, player_line, player_line_text};
use crate::investment::built_up;
use crate::liquidation::{given_up, lemma_liquid_bounds, liquid_value, Raised};
use crate::strategy::{ExpensiveHousesProtectionStrategy, PlayerStrategy};

verus! {

/// Where a player stands in the game.
#[derive(Clone, Copy, Debug, PartialEq, Eq, Structural)]
pub enum PlayerState {
    /// Free to move.
    Active,
    /// Out of the game for good.
    Bankrupted,
    /// In jail, with the number of turns spent there.
    InJail(u8),
}

/// A player: his cash, where his token stands, where he stands in the game,
/// and the strategy by which he raises money and invests.
pub struct Player<S: PlayerStrategy = ExpensiveHousesProtectionStrategy> {
    pub player_id: usize,
    pub money: u32,
    pub state: PlayerState,
    pub position: usize,
    pub strategy: S,
}

/// The player `p` after an attempt to pay that ended as `end`: with the cash
/// that is left if the debt was paid, bankrupt and without cash otherwise.
pub open spec fn after_payment<S: PlayerStrategy>(p: Player<S>, end: Raised) -> Player<S> {
    if end.paid {
        Player { money: end.money as u32, ..p }
    } else {
        Player { money: 0, state: PlayerState::Bankrupted, ..p }
    }
}

/// The line of the log that tells how the attempt of `p` to pay `dollars`
/// ended: with his cash before the debt was taken from it and after, or with
/// his bankruptcy.
pub open spec fn payment_text<S: PlayerStrategy>(p: Player<S>, end: Raised, dollars: u32) -> Seq<
    char,
> {
    if end.paid {
        money_text(p.player_id, (end.money + dollars) as u32, end.money as u32)
    } else {
        player_line_text(p.player_id, "Bankrupted"@)
    }
}

impl<S: PlayerStrategy> Player<S> {
    /// Whether the token stands on the board and the time in jail is one that
    /// can be served.
    pub open spec fn wf(&self) -> bool {
        &&& self.position < 40
        &&& self.state matches PlayerState::InJail(n) ==> n <= 2
    }

    /// Makes a player with the given strategy: $1500 on Go, free to move.
    pub fn new(player_id: usize, strategy: S) -> (player: Player<S>)
        ensures
            player == (Player {
                player_id,
                money: 1500,
                state: PlayerState::Active,
                position: 0,
                strategy,
            }),
            player.wf(),
    {
        Player { player_id, money: 1500, state: PlayerState::Active, position: 0, strategy }
    }

    /// Makes the player pay `dollars`, raising money from his holdings where
    /// his cash is short. Returns whether he paid, and what to write in the log.
    ///
    /// A player who cannot raise the money loses his cash and is bankrupt from
    /// then on; the error holds what he did raise, which is less than the debt.
    /// That happens exactly when his cash and all that he can liquidate fall
    /// short of the debt. A player who pays keeps his cash and what he
    /// liquidated, less the debt.
    ///
    /// His cash and all that he can raise must not leave the range of the
    /// machine's numbers; no board holds more than $28,000 for one player
    /// (`lemma_liquid_value_bound`).
    pub fn pay(&mut self, board: &mut Board, dollars: u32) -> (outcome: (
        Result<(), u32>,
        Vec<String>,
    ))
        requires
            old(board).wf(),
            houses_valid(old(board)@),
            old(self).money + liquid_value(old(board)@, old(self).player_id) <= u32::MAX,
        ensures
            final(board).wf(),
            houses_valid(final(board)@),
            forall|j: int| 0 <= j < 40 ==> (#[trigger] final(board)@[j]).owner == old(board)@[j].owner,
            given_up(old(board)@, final(board)@, old(self).player_id),
            final(board)@ == old(self).strategy.raised(
                old(board)@,
                old(self).player_id,
                old(self).money as int,
                dollars as int,
            ).board,
            *final(self) == after_payment(
                *old(self),
                old(self).strategy.raised(
                    old(board)@,
                    old(self).player_id,
                    old(self).money as int,
                    dollars as int,
                ),
            ),
            outcome.1@.len() == 1,
            outcome.1@[0]@ == payment_text(
                *old(self),
                old(self).strategy.raised(
                    old(board)@,
                    old(self).player_id,
                    old(self).money as int,
                    dollars as int,
                ),
                dollars,
            ),
            outcome.0 is Err <==> old(self).money + liquid_value(old(board)@, old(self).player_id)
                < dollars,
            outcome.0 is Ok ==> final(self).money == old(self).money + (liquid_value(
                old(board)@,
                old(self).player_id,
            ) - liquid_value(final(board)@, old(self).player_id)) - dollars,
            outcome.0 is Ok ==> final(self).state == old(self).state,
            old(self).money >= dollars ==> final(board)@ == old(board)@,
            outcome.0 matches Err(residual) ==> {
                &&& residual == old(self).money + liquid_value(old(board)@, old(self).player_id)
                &&& final(self).money == 0
                &&& final(self).state == PlayerState::Bankrupted
                &&& liquid_value(final(board)@, old(self).player_id) == 0
                &&& forall|j: int|
                    0 <= j < 40 && final(board)@[j].owner == Some(old(self).player_id) ==> final(board)@[j].mortgaged
                        && final(board)@[j].house_count() == 0
            },
    {
        let mut money = self.money;
        proof {
            lemma_liquid_bounds(board@, self.player_id);
        }
        let result = self.strategy.raise(
            dollars,
            board,
            self.player_id,
            &mut money,
            &self.state,
            self.position,
        );
        proof {
            lemma_liquid_bounds(board@, self.player_id);
        }
        match result {
            Ok(_) => {
                self.money = money;
                let mut logs: Vec<String> = Vec::new();
                logs.push(money_line(self.player_id, money + dollars, money));
                (Ok(()), logs)
            },
            Err(residual) => {
                self.money = 0;
                self.state = PlayerState::Bankrupted;
                let mut logs: Vec<String> = Vec::new();
                logs.push(player_line(self.player_id, "Bankrupted"));
                (Err(residual), logs)
            },
        }
    }

    /// Makes the player invest within his budget, `dice` holding the throws
    /// that the utilities multiply when the rents that threaten him are asked.
    ///
    /// He spends only what he has beyond the highest of those rents: with no
    /// more than that rent in hand nothing changes, and with more he keeps at
    /// least that rent.
    pub fn invest_with(&mut self, board: &mut Board, dice: &UtilityDice)
        requires
            old(board).wf(),
            houses_valid(old(board)@),
            dice.valid(),
        ensures
            final(board).wf(),
            houses_valid(final(board)@),
            forall|j: int| 0 <= j < 40 ==> (#[trigger] final(board)@[j]).owner == old(board)@[j].owner,
            built_up(old(board)@, final(board)@, old(self).player_id),
            final(board)@ == old(self).strategy.invested(
                old(board)@,
                old(self).player_id,
                old(self).money as int,
                most_expensive(old(board)@, old(self).player_id, *dice, 40) as int,
            ).board,
            *final(self) == (Player {
                money: old(self).strategy.invested(
                    old(board)@,
                    old(self).player_id,
                    old(self).money as int,
                    most_expensive(old(board)@, old(self).player_id, *dice, 40) as int,
                ).money as u32,
                ..*old(self)
            }),
            final(self).money <= old(self).money,
            old(self).money <= most_expensive(old(board)@, old(self).player_id, *dice, 40)
                ==> final(self).money == old(self).money && final(board)@ == old(board)@,
            old(self).money > most_expensive(old(board)@, old(self).player_id, *dice, 40)
                ==> final(self).money >= most_expensive(
                old(board)@,
                old(self).player_id,
                *dice,
                40,
            ),
    {
        let mut money = self.money;
        self.strategy.invest(board, self.player_id, &mut money, &self.state, self.position, dice);
        self.money = money;
    }

    /// Makes the player invest within his budget. The dice are thrown once for
    /// each utility, so what is left is one of the outcomes of `invest_with`,
    /// and the rent that he keeps in hand is the one under those throws.
    pub fn invest(&mut self, board: &mut Board)
        requires
            old(board).wf(),
            houses_valid(old(board)@),
        ensures
            final(board).wf(),
            houses_valid(final(board)@),
            forall|j: int| 0 <= j < 40 ==> (#[trigger] final(board)@[j]).owner == old(board)@[j].owner,
            built_up(old(board)@, final(board)@, old(self).player_id),
            final(self).money <= old(self).money,
            exists|dice: UtilityDice|
                dice.valid() && final(board)@ == old(self).strategy.invested(
                    old(board)@,
                    old(self).player_id,
                    old(self).money as int,
                    most_expensive(old(board)@, old(self).player_id, dice, 40) as int,
                ).board && *final(self) == (Player {
                    money: old(self).strategy.invested(
                        old(board)@,
                        old(self).player_id,
                        old(self).money as int,
                        most_expensive(old(board)@, old(self).player_id, dice, 40) as int,
                    ).money as u32,
                    ..*old(self)
                }) && (old(self).money <= most_expensive(old(board)@, old(self).player_id, dice, 40)
                    ==> final(self).money == old(self).money && final(board)@ == old(board)@) && (
                old(self).money > most_expensive(old(board)@, old(self).player_id, dice, 40)
                    ==> final(self).money >= most_expensive(
                    old(board)@,
                    old(self).player_id,
                    dice,
                    40,
                )),
    {
        let dice = UtilityDice::roll();
        self.invest_with(board, &dice);
    }
}

} // verus!
