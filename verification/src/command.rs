use vstd::prelude::*;
use crate::accounts::settled_accounts;
use crate::board::{
    board_wf, color_valid, has_houses, houses_valid, lemma_same_color, lemma_update_wf,
    of_color, place_wf,
};
use crate::game::MonopolyGame;
use crate::logs::{failed_line, failed_text, owner_line, owner_text};
use crate::rules::{
    after_turn, after_turns, extends, lemma_after_turns_prefix, logged, GameModel, TurnThrows,
};
use crate::places::{BoardColor, BoardPlace, PlaceModel};
use crate::player::Player;
use crate::liquidation::color_has_houses;

verus! {

/// What an analysis needs to know: where to write, how often to play the game
/// on, and for how many turns each time.
pub struct AnalysisCommandArg {
    pub file_name: String,
    pub iteration: i32,
    pub simulation_turn: usize,
}

/// What the user can ask for.
pub enum GameCommand {
    /// Sets up a game of so many players.
    Init(u32),
    /// Plays so many turns.
    Step(u32),
    /// Gives money to a player, or takes it where the amount is negative.
    ModifyMoney { player_id: usize, money: i32 },
    /// Hands a place to a player.
    SetOwner { player_id: usize, place_id: usize },
    /// Writes the game to a file.
    Save(String),
    /// Reads the game from a file.
    Load(String),
    /// Plays the game on again and again and writes down how it went.
    Analyze(AnalysisCommandArg),
}

/// The game after `change` was added to the cash of the player `player`:
/// where that would leave him with less than nothing, his cash stays and the
/// log says that he failed to pay.
pub open spec fn modified(g: GameModel, player: usize, change: i32) -> GameModel {
    let had = g.players[player as int];
    if had.money + change < 0 {
        logged(g, failed_text(player, (0 - change) as u32))
    } else {
        GameModel {
            players: g.players.update(
                player as int,
                Player { money: (had.money + change) as u32, ..had },
            ),
            ..g
        }
    }
}

/// The game after the place `place` was handed to the player `player`, as the
/// log says.
pub open spec fn given(g: GameModel, player: usize, place: usize) -> GameModel {
    GameModel {
        board: g.board.update(
            place as int,
            PlaceModel { owner: Some(player), ..g.board[place as int] },
        ),
        logs: g.logs.push(owner_text(player, g.board[place as int].name)),
        ..g
    }
}

impl MonopolyGame {
    /// Plays up to `turns` turns, throwing the dice, and returns how many were
    /// played. It stops early when a player has more cash than a turn can
    /// start with. What is left is the outcome of that many turns, one after
    /// another.
    pub fn step(&mut self, turns: u32) -> (played: u32)
        requires
            old(self).wf(),
        ensures
            final(self).wf(),
            played <= turns,
            played < turns ==> !final(self).within_limit(),
            final(self).players@.len() == old(self).players@.len(),
            extends(old(self)@.logs, final(self)@.logs),
            settled_accounts(old(self)@) ==> settled_accounts(final(self)@),
            exists|dice: Seq<TurnThrows>|
                dice.len() == played && (forall|k: int|
                    0 <= k < played ==> (#[trigger] dice[k]).valid()) && final(self)@
                    == after_turns(old(self)@, dice, played as int),
    {
        let mut played: u32 = 0;
        let ghost mut dice: Seq<TurnThrows> = Seq::empty();
        while played < turns
            invariant
                self.wf(),
                played <= turns,
                self.players@.len() == old(self).players@.len(),
                extends(old(self)@.logs, self@.logs),
                settled_accounts(old(self)@) ==> settled_accounts(self@),
                dice.len() == played,
                forall|k: int| 0 <= k < played ==> (#[trigger] dice[k]).valid(),
                self@ == after_turns(old(self)@, dice, played as int),
            decreases turns - played,
        {
            if !self.is_within_limit() {
                return played;
            }
            let ghost before = self@;
            self.spend_one_turn();
            proof {
                let thrown = choose|thrown: TurnThrows|
                    thrown.valid() && thrown.exposures.len() == before.players.len() && self@
                        == after_turn(before, thrown.throws, thrown.exposures);
                lemma_after_turns_prefix(old(self)@, dice, thrown, played as int);
                dice = dice.push(thrown);
            }
            played += 1;
        }
        played
    }

    /// Adds `money` to the cash of the player `player_id`. A player who would
    /// be left with less than nothing keeps his cash, and the log says so.
    pub fn modify_money(&mut self, player_id: usize, money: i32)
        requires
            old(self).wf(),
            player_id < old(self).players@.len(),
            old(self).players@[player_id as int].money + money <= u32::MAX,
        ensures
            final(self)@ == modified(old(self)@, player_id, money),
            final(self).wf(),
    {
        let had = self.players[player_id].money;
        let sum: i64 = had as i64 + money as i64;
        if sum < 0 {
            self.log(failed_line(player_id, (0 - money as i64) as u32));
        } else {
            self.players[player_id].money = sum as u32;
            assert(self@.players =~= modified(old(self)@, player_id, money).players);
        }
    }

    /// Hands the place `place_id` to the player `player_id`, and tells the
    /// log. The place must be one that can be owned, of a color without houses.
    pub fn set_owner(&mut self, player_id: usize, place_id: usize)
        requires
            old(self).wf(),
            player_id < old(self).players@.len(),
            place_id < 40,
            old(self).board@[place_id as int].is_property(),
            !has_houses(old(self).board@, old(self).board@[place_id as int].color),
        ensures
            final(self)@ == given(old(self)@, player_id, place_id),
            final(self).wf(),
    {
        proof {
            lemma_regiven(self.board@, place_id as int, player_id);
        }
        self.board.set_owner(place_id, Some(player_id));
        assert(self.board.places@[place_id as int].model() == self.board@[place_id as int]);
        let place_name = self.board.places[place_id].get_place_name();
        self.log(owner_line(player_id, place_name));
    }

    /// Hands the place `place_id` to the player `player_id` if that can be
    /// done: if both exist, the place can be owned, and its color has no
    /// houses. Tells whether it was done.
    pub fn try_set_owner(&mut self, player_id: usize, place_id: usize) -> (done: bool)
        requires
            old(self).wf(),
        ensures
            final(self).wf(),
            done <==> (player_id < old(self).players@.len() && place_id < 40 && old(
                self,
            ).board@[place_id as int].is_property() && !has_houses(
                old(self).board@,
                old(self).board@[place_id as int].color,
            )),
            !done ==> final(self)@ == old(self)@,
            done ==> final(self)@ == given(old(self)@, player_id, place_id),
    {
        if player_id >= self.players.len() || place_id >= 40 {
            return false;
        }
        assert(self.board.places@[place_id as int].model() == self.board@[place_id as int]);
        if !self.board.places[place_id].is_property() {
            return false;
        }
        let color = self.board.places[place_id].get_color();
        if color_has_houses(&self.board, color) {
            return false;
        }
        self.set_owner(player_id, place_id);
        true
    }
}

/// The board stays a board that obeys the rule of building when a place of a
/// color without houses changes hands.
pub proof fn lemma_regiven(b: Seq<PlaceModel>, place: int, p: usize)
    requires
        board_wf(b),
        houses_valid(b),
        0 <= place < 40,
        b[place].is_property(),
        !has_houses(b, b[place].color),
    ensures
        board_wf(b.update(place, PlaceModel { owner: Some(p), ..b[place] })),
        houses_valid(b.update(place, PlaceModel { owner: Some(p), ..b[place] })),
{
    let m = PlaceModel { owner: Some(p), ..b[place] };
    let b2 = b.update(place, m);
    let c = b[place].color;
    assert(place_wf(b[place], place));
    lemma_update_wf(b, place, m);
    assert forall|color: BoardColor| color.is_estate() implies #[trigger] color_valid(
        b2,
        color,
    ) by {
        assert(color_valid(b, color));
        if color == c {
            assert forall|j: int| of_color(b2, j, c) implies b2[j].house_count() == 0 by {
                assert(of_color(b, j, c));
            }
        } else {
            lemma_same_color(b, b2, color);
        }
    }
}

} // verus!
