use vstd::prelude::*;
use vstd::arithmetic::div_mod::lemma_add_mod_noop;
use crate::accounts::{lemma_after_turn_accounts, settled_accounts};
use crate::board::{lemma_place_shape, untouched, Board};
use crate::dice_rolling::{DiceResult, DiceRolling, UtilityDice};
use crate::events::EventKind;
use crate::logs::{
    buys_line, gains_line, inherits_line, moves_line, needs_line, pays_bank_line,
    pays_other_line, player_line,
};
use crate::places::{landing_effect, lemma_standard_shape, BoardPlace};
use crate::player::{Player, PlayerState};
use crate::rules::{
    active_count, after_turn, applied, arrived, fits, fresh_game, game_wf, handed_over,
    handed_upto, invested_all, lemma_active_count, lemma_after_turn, lemma_grown,
    landed, lemma_arrived, lemma_invested_all, lemma_passing_go, lemma_landing, lemma_landing_fits, lemma_moved,
    lemma_paid_bank,
    lemma_resolved, lemma_settled, logged, moved, paid_bank, resolved, returned_to_bank,
    returned_upto, roomy, settled, with_player, extends, GameModel, Throw, TurnThrows,
    JAIL_POSITION, MONEY_LIMIT,
    TURN_GROWTH,
};
use crate::liquidation::{
    lemma_liquid_bounds, lemma_liquid_value_bound, lemma_raise_laws, liquid_value,
};
use crate::strategy::ExpensiveHousesProtectionStrategy;

verus! {

/// Gives back to the bank all that `player` owns: without owner, mortgage or
/// houses.
pub fn return_to_bank(board: &mut Board, player: usize)
    requires
        old(board).wf(),
    ensures
        final(board).wf(),
        final(board)@ == returned_to_bank(old(board)@, player),
{
    let mut i: usize = 0;
    assert(board@ =~= returned_upto(old(board)@, player, 0));
    while i < 40
        invariant
            i <= 40,
            board.wf(),
            old(board).wf(),
            board@ == returned_upto(old(board)@, player, i as int),
        decreases 40 - i,
    {
        proof {
            lemma_place_shape(board@, i as int);
            lemma_place_shape(old(board)@, i as int);
        }
        assert(board.places@[i as int].model() == board@[i as int]);
        let owned = match board.places[i].get_owner() {
            Some(owner) => owner == player,
            None => false,
        };
        if owned {
            board.set_owner(i, None);
            board.set_mortgaged(i, false);
            assert(board.places@[i as int].model() == board@[i as int]);
            if board.places[i].is_estate() {
                board.set_num_houses(i, 0);
            }
        }
        i += 1;
        assert(board@ =~= returned_upto(old(board)@, player, i as int));
    }
    assert(board@ =~= returned_to_bank(old(board)@, player));
}

/// Hands all that `from` owns to `to`, as it is.
pub fn hand_over(board: &mut Board, from: usize, to: usize)
    requires
        old(board).wf(),
    ensures
        final(board).wf(),
        final(board)@ == handed_over(old(board)@, from, to),
{
    let mut i: usize = 0;
    assert(board@ =~= handed_upto(old(board)@, from, to, 0));
    while i < 40
        invariant
            i <= 40,
            board.wf(),
            old(board).wf(),
            board@ == handed_upto(old(board)@, from, to, i as int),
        decreases 40 - i,
    {
        proof {
            lemma_place_shape(board@, i as int);
        }
        assert(board.places@[i as int].model() == board@[i as int]);
        let owned = match board.places[i].get_owner() {
            Some(owner) => owner == from,
            None => false,
        };
        if owned {
            board.set_owner(i, Some(to));
        }
        i += 1;
        assert(board@ =~= handed_upto(old(board)@, from, to, i as int));
    }
    assert(board@ =~= handed_over(old(board)@, from, to));
}

/// The dice of one turn: those of the three moves that it can hold, and for
/// each player those that the utilities multiply when he invests.
pub struct TurnDice {
    pub throws: Vec<Throw>,
    pub exposures: Vec<UtilityDice>,
}

impl TurnDice {
    /// Whether these are the dice of a turn of a game of `players` players.
    pub open spec fn fits(&self, players: nat) -> bool {
        &&& self.throws@.len() == 3
        &&& forall|k: int| 0 <= k < 3 ==> (#[trigger] self.throws@[k]).valid()
        &&& self.exposures@.len() == players
        &&& forall|k: int| 0 <= k < players ==> (#[trigger] self.exposures@[k]).valid()
    }

    /// Throws the dice of a turn of a game of `players` players.
    pub fn roll(players: usize) -> (dice: TurnDice)
        ensures
            dice.fits(players as nat),
    {
        let mut throws: Vec<Throw> = Vec::new();
        let mut k: usize = 0;
        while k < 3
            invariant
                k <= 3,
                throws@.len() == k,
                forall|j: int| 0 <= j < k ==> (#[trigger] throws@[j]).valid(),
            decreases 3 - k,
        {
            let movement = DiceRolling::roll();
            let rent = DiceRolling::roll();
            throws.push(Throw { movement, rent });
            k += 1;
        }
        let mut exposures: Vec<UtilityDice> = Vec::new();
        let mut i: usize = 0;
        while i < players
            invariant
                i <= players,
                exposures@.len() == i,
                forall|j: int| 0 <= j < i ==> (#[trigger] exposures@[j]).valid(),
            decreases players - i,
        {
            exposures.push(UtilityDice::roll());
            i += 1;
        }
        TurnDice { throws, exposures }
    }
}

/// A game: the players, the board, whose turn it is, and the log of what
/// happened.
pub struct MonopolyGame {
    pub players: Vec<Player>,
    pub board: Board,
    pub turn: usize,
    pub logs: Vec<String>,
}

/// A game, by its other name.
pub type GameSession = MonopolyGame;

impl View for MonopolyGame {
    type V = GameModel;

    open spec fn view(&self) -> GameModel {
        GameModel {
            players: self.players@,
            board: self.board@,
            turn: self.turn,
            logs: Seq::new(self.logs@.len(), |i: int| self.logs@[i]@),
        }
    }
}

impl MonopolyGame {
    /// Whether the game is one that can be played.
    pub open spec fn wf(&self) -> bool {
        game_wf(self@)
    }

    /// Whether no player has more cash than a turn can start with.
    pub open spec fn within_limit(&self) -> bool {
        forall|i: int| 0 <= i < self.players@.len() ==> (#[trigger] self.players@[i]).money
            <= MONEY_LIMIT
    }

    /// Sets up a game of `player_num` players.
    pub fn new(player_num: u32) -> (game: MonopolyGame)
        ensures
            game@ == fresh_game(player_num as nat),
            game.wf(),
            game.within_limit(),
            settled_accounts(game@),
            forall|i: int| 0 <= i < 40 ==> untouched(#[trigger] game.board@[i], i),
    {
        let mut players: Vec<Player> = Vec::new();
        let mut id: u32 = 0;
        while id < player_num
            invariant
                id <= player_num,
                players@.len() == id,
                forall|i: int| 0 <= i < id ==> (#[trigger] players@[i]) == fresh_game(
                    player_num as nat,
                ).players[i],
            decreases player_num - id,
        {
            players.push(Player::new(id as usize, ExpensiveHousesProtectionStrategy::new()));
            id += 1;
        }
        let game = MonopolyGame { players, board: Board::new(), turn: 0, logs: Vec::new() };
        assert(game@.players =~= fresh_game(player_num as nat).players);
        assert(game@.logs =~= fresh_game(player_num as nat).logs);
        proof {
            assert forall|j: int| 0 <= j < 40 implies ((#[trigger] game@.board[j]).owner matches Some(
                o,
            ) ==> o < game@.players.len()) by {
                lemma_standard_shape(j);
            }
        }
        game
    }

    /// Gets a player by his number.
    pub fn get_player(&self, id: usize) -> (player: &Player)
        requires
            id < self.players@.len(),
        ensures
            *player == self.players@[id as int],
    {
        &self.players[id]
    }

    /// Gets a player by his number, to change him.
    pub fn get_player_mut(&mut self, id: usize) -> (player: &mut Player)
        requires
            id < old(self).players@.len(),
        ensures
            *player == old(self).players@[id as int],
            final(self).players@ == old(self).players@.update(id as int, *final(player)),
            final(self).board == old(self).board,
            final(self).turn == old(self).turn,
            final(self)@.logs == old(self)@.logs,
    {
        &mut self.players[id]
    }

    /// Counts the players who are not bankrupt; those in jail count.
    pub fn count_active_players(&self) -> (count: usize)
        ensures
            count == active_count(self.players@, self.players@.len() as int),
    {
        let mut count: usize = 0;
        let mut i: usize = 0;
        while i < self.players.len()
            invariant
                i <= self.players@.len(),
                count == active_count(self.players@, i as int),
                count <= i,
            decreases self.players@.len() - i,
        {
            match self.players[i].state {
                PlayerState::Bankrupted => {},
                _ => {
                    count += 1;
                },
            }
            i += 1;
        }
        count
    }

    /// Gets the player whose turn it is.
    pub fn get_current_player(&self) -> (player: &Player)
        requires
            self.turn < self.players@.len(),
        ensures
            *player == self.players@[self.turn as int],
    {
        self.get_player(self.turn)
    }

    /// Gets the player whose turn it is, to change him.
    pub fn get_current_player_mut(&mut self) -> (player: &mut Player)
        requires
            old(self).turn < old(self).players@.len(),
        ensures
            *player == old(self).players@[old(self).turn as int],
            final(self).players@ == old(self).players@.update(
                old(self).turn as int,
                *final(player),
            ),
            final(self).board == old(self).board,
            final(self).turn == old(self).turn,
            final(self)@.logs == old(self)@.logs,
    {
        &mut self.players[self.turn]
    }

    /// Tells whether no player has more cash than a turn can start with.
    pub fn is_within_limit(&self) -> (ok: bool)
        ensures
            ok == self.within_limit(),
    {
        let mut i: usize = 0;
        while i < self.players.len()
            invariant
                i <= self.players@.len(),
                forall|j: int| 0 <= j < i ==> (#[trigger] self.players@[j]).money <= MONEY_LIMIT,
            decreases self.players@.len() - i,
        {
            if self.players[i].money > MONEY_LIMIT {
                return false;
            }
            i += 1;
        }
        true
    }

    /// Tells whether the game can be played: a board that obeys the rule of
    /// building, players numbered by their place in the list with their
    /// tokens on the board, the turn on one of them, and no place owned by a
    /// stranger.
    pub fn is_well_formed(&self) -> (ok: bool)
        ensures
            ok == self.wf(),
    {
        if !self.board.is_laid_out() || !self.board.validate_houses() {
            return false;
        }
        let seats = self.players.len();
        if !(self.turn < seats || (seats == 0 && self.turn == 0)) {
            return false;
        }
        let mut i: usize = 0;
        while i < seats
            invariant
                seats == self.players@.len(),
                i <= seats,
                forall|j: int|
                    0 <= j < i ==> (#[trigger] self.players@[j]).player_id == j
                        && self.players@[j].wf(),
            decreases seats - i,
        {
            let player = &self.players[i];
            let served = match player.state {
                PlayerState::InJail(n) => n <= 2,
                _ => true,
            };
            if player.player_id != i || player.position >= 40 || !served {
                return false;
            }
            i += 1;
        }
        let mut j: usize = 0;
        while j < 40
            invariant
                self.board.wf(),
                seats == self.players@.len(),
                j <= 40,
                forall|k: int|
                    0 <= k < j ==> ((#[trigger] self.board@[k]).owner matches Some(o) ==> o
                        < seats),
            decreases 40 - j,
        {
            assert(self.board.places@[j as int].model() == self.board@[j as int]);
            if let Some(owner) = self.board.places[j].get_owner() {
                if owner >= seats {
                    return false;
                }
            }
            j += 1;
        }
        true
    }

    /// Tells whether the bankrupt and the jailed are where they belong: a
    /// bankrupt player has neither cash nor places, and a player in jail
    /// stands on the jail place.
    pub fn has_settled_accounts(&self) -> (ok: bool)
        requires
            self.wf(),
        ensures
            ok == settled_accounts(self@),
    {
        let seats = self.players.len();
        let mut i: usize = 0;
        while i < seats
            invariant
                seats == self.players@.len(),
                i <= seats,
                forall|k: int|
                    0 <= k < i && (#[trigger] self.players@[k]).state is Bankrupted
                        ==> self.players@[k].money == 0,
                forall|k: int|
                    0 <= k < i && (#[trigger] self.players@[k]).state is InJail
                        ==> self.players@[k].position == JAIL_POSITION,
            decreases seats - i,
        {
            let player = &self.players[i];
            let fits = match player.state {
                PlayerState::Bankrupted => player.money == 0,
                PlayerState::InJail(_) => player.position == JAIL_POSITION,
                PlayerState::Active => true,
            };
            if !fits {
                return false;
            }
            i += 1;
        }
        let mut j: usize = 0;
        while j < 40
            invariant
                self.wf(),
                seats == self.players@.len(),
                j <= 40,
                forall|k: int|
                    0 <= k < j ==> ((#[trigger] self.board@[k]).owner matches Some(o) ==> !(self.players@[o as int].state is Bankrupted)),
            decreases 40 - j,
        {
            assert(self.board.places@[j as int].model() == self.board@[j as int]);
            if let Some(owner) = self.board.places[j].get_owner() {
                if let PlayerState::Bankrupted = self.players[owner].state {
                    return false;
                }
            }
            j += 1;
        }
        true
    }

    /// Adds a line to the log.
    pub fn log(&mut self, line: String)
        ensures
            final(self)@ == logged(old(self)@, line@),
            final(self).players == old(self).players,
            final(self).board == old(self).board,
            final(self).turn == old(self).turn,
    {
        self.logs.push(line);
        assert(self@.logs =~= old(self)@.logs.push(line@));
    }

    /// Makes the player whose turn it is pay `dollars` to the bank. If he
    /// cannot, he is bankrupt and all that he owned returns to the bank.
    ///
    /// His cash and all that he can raise must not leave the range of the
    /// machine's numbers; no board holds more than $28,000 for one player
    /// (`lemma_liquid_value_bound`).
    pub fn pay_bank(&mut self, dollars: u32)
        requires
            old(self).wf(),
            old(self).turn < old(self).players@.len(),
            old(self).players@[old(self).turn as int].money + liquid_value(
                old(self).board@,
                old(self).turn,
            ) <= u32::MAX,
        ensures
            final(self)@ == paid_bank(old(self)@, dollars),
            final(self).wf(),
    {
        let turn = self.turn;
        proof {
            lemma_paid_bank(self@, dollars);
            lemma_raise_laws(
                self.board@,
                turn,
                self.players@[turn as int].money as int,
                dollars as int,
            );
        }
        assert(self.players@[turn as int].player_id == turn);
        let (result, mut logs) = self.players[turn].pay(&mut self.board, dollars);
        let ghost line = logs@[0]@;
        self.logs.append(&mut logs);
        assert(self@.logs =~= old(self)@.logs.push(line));
        if let Err(_) = result {
            self.log(player_line(turn, "All of the properties are returned to the bank."));
            return_to_bank(&mut self.board, turn);
        }
        assert(self@.players =~= paid_bank(old(self)@, dollars).players);
    }

    /// Applies an event that moves no token to the player whose turn it is,
    /// and tells the log.
    pub fn settle_event(&mut self, event: EventKind<'_>)
        requires
            old(self).wf(),
            fits(old(self)@, event@),
            !(event is Move),
        ensures
            final(self)@ == settled(old(self)@, event@),
            final(self).wf(),
    {
        let turn = self.turn;
        proof {
            lemma_settled(self@, event@);
        }
        match event {
            EventKind::Nothing(msg) => {
                self.log(player_line(turn, msg));
            },
            EventKind::PayToBank(msg, dollars) => {
                self.log(pays_bank_line(turn, dollars, msg));
                self.pay_bank(dollars);
            },
            EventKind::PayToOther(msg, receiver, dollars) => {
                self.log(pays_other_line(turn, dollars, receiver, msg));
                let ghost noted = self@;
                proof {
                    lemma_raise_laws(
                        self.board@,
                        turn,
                        self.players@[turn as int].money as int,
                        dollars as int,
                    );
                }
                assert(self.players@[turn as int].player_id == turn);
                let (result, mut logs) = self.players[turn].pay(&mut self.board, dollars);
                let ghost line = logs@[0]@;
                self.logs.append(&mut logs);
                assert(self@.logs =~= noted.logs.push(line));
                proof {
                    lemma_liquid_bounds(self.board@, turn);
                }
                match result {
                    Ok(_) => {
                        let had = self.players[receiver].money;
                        self.players[receiver].money = had + dollars;
                    },
                    Err(money) => {
                        let had = self.players[receiver].money;
                        self.players[receiver].money = had + money;
                        let receiver_id = self.players[receiver].player_id;
                        self.log(inherits_line(receiver_id, turn));
                        hand_over(&mut self.board, turn, receiver_id);
                    },
                }
                assert(self@.players =~= settled(old(self)@, event@).players);
            },
            EventKind::Reward(msg, dollars) => {
                self.log(gains_line(turn, dollars, msg));
                let had = self.players[turn].money;
                self.players[turn].money = had + dollars;
                assert(self@.players =~= settled(old(self)@, event@).players);
            },
            EventKind::GivePlace(place, dollars) => {
                assert(self.board.places@[place as int].model() == self.board@[place as int]);
                let place_name = self.board.places[place].get_place_name();
                self.log(buys_line(turn, place_name, dollars));
                self.log(pays_bank_line(turn, dollars, place_name));
                proof {
                    lemma_paid_bank(self@, dollars);
                    lemma_place_shape(self.board@, place as int);
                }
                self.pay_bank(dollars);
                if self.players[turn].state != PlayerState::Bankrupted {
                    proof {
                        lemma_place_shape(self.board@, place as int);
                    }
                    self.board.set_owner(place, Some(turn));
                }
            },
            EventKind::Move(_, _) => {},
            EventKind::GetJailed => {
                self.log(player_line(turn, "Gets jailed."));
                self.players[turn].state = PlayerState::InJail(0);
                self.players[turn].position = JAIL_POSITION;
                assert(self@.players =~= settled(old(self)@, event@).players);
            },
        }
    }

    /// Takes the token of the player whose turn it is `count` places on,
    /// round the board. Passing Go brings exactly $200, however far the token
    /// goes; a move that does not pass Go brings nothing.
    pub fn advance(&mut self, count: usize)
        requires
            old(self).wf(),
            old(self).turn < old(self).players@.len(),
            roomy(old(self)@, 200),
        ensures
            final(self)@ == arrived(old(self)@, count as int),
            final(self).wf(),
            final(self).players@[old(self).turn as int].money == old(self).players@[old(self).turn as int].money + (if old(self).players@[old(self).turn as int].position + count
                >= 40 {
                200int
            } else {
                0int
            }),
            final(self).players@[old(self).turn as int].position == (old(self).players@[old(self).turn as int].position + count) % 40,
            final(self).board@ == old(self).board@,
    {
        let turn = self.turn;
        proof {
            lemma_arrived(self@, count as int);
            lemma_passing_go(self@, count as int);
        }
        let previous_position = self.players[turn].position;
        let passes = count >= 40 - previous_position;
        let new_position = (previous_position + count % 40) % 40;
        proof {
            lemma_add_mod_noop(previous_position as int, count as int, 40);
        }
        if passes {
            assert(self.players@[turn as int].money + 200 <= u32::MAX);
            self.settle_event(EventKind::Reward("passing GO", 200));
        }
        self.players[turn].position = new_position;
        assert(self@.players =~= arrived(old(self)@, count as int).players);
    }

    /// Applies what the place asks for on which the token of the player whose
    /// turn it is has stopped, having come from the place called `from`;
    /// `roll` is the throw that a utility multiplies.
    pub fn land(&mut self, from: &str, roll: DiceResult)
        requires
            old(self).wf(),
            old(self).turn < old(self).players@.len(),
            roomy(old(self)@, 30_000),
            roll.valid(),
        ensures
            final(self)@ == landed(old(self)@, from@, roll),
            final(self).wf(),
    {
        let turn = self.turn;
        let position = self.players[turn].position;
        assert(self.board.places@[position as int].model() == self.board@[position as int]);
        let name = self.board.places[position].get_place_name();
        self.log(moves_line(turn, from, name));
        proof {
            lemma_place_shape(self.board@, position as int);
            lemma_landing(self.board@, position as int, turn, roll);
            lemma_liquid_value_bound(self.board@, turn);
            lemma_landing_fits(self@, roll);
        }
        let event = self.board.places[position].get_action(turn, &self.board, roll);
        self.settle_event(event);
    }

    /// Moves the token of the player whose turn it is `count` places on, round
    /// the board, and applies what the place where it stops asks for; `roll`
    /// is the throw that a utility multiplies. Passing Go brings exactly $200,
    /// whatever the count: where the place asks for nothing, that is all that
    /// the cash of the player changes by.
    pub fn move_player(&mut self, count: usize, roll: DiceResult)
        requires
            old(self).wf(),
            old(self).turn < old(self).players@.len(),
            roomy(old(self)@, 30_200),
            roll.valid(),
        ensures
            final(self)@ == moved(old(self)@, count as int, roll),
            final(self).wf(),
            landing_effect(
                old(self).board@[(old(self).players@[old(self).turn as int].position + count) % 40],
                old(self).turn,
                old(self).board@,
                roll,
            ) is Nothing ==> {
                &&& final(self).players@[old(self).turn as int].money == old(self).players@[old(self).turn as int].money
                    + (if old(self).players@[old(self).turn as int].position + count >= 40 {
                    200int
                } else {
                    0int
                })
                &&& final(self).players@[old(self).turn as int].position == (old(self).players@[old(self).turn as int].position
                    + count) % 40
                &&& final(self).board@ == old(self).board@
            },
    {
        let turn = self.turn;
        let previous_position = self.players[turn].position;
        assert(self.board.places@[previous_position as int].model()
            == self.board@[previous_position as int]);
        let previous_position_name = self.board.places[previous_position].get_place_name();
        proof {
            lemma_arrived(self@, count as int);
        }
        self.advance(count);
        self.land(previous_position_name, roll);
    }

    /// Applies an event to the player whose turn it is; `roll` is the throw
    /// that a utility multiplies if the event moves the token onto one.
    pub fn invoke_event(&mut self, event: EventKind<'_>, roll: DiceResult)
        requires
            old(self).wf(),
            fits(old(self)@, event@),
            event is Move ==> roomy(old(self)@, 30_200) && roll.valid(),
        ensures
            final(self)@ == applied(old(self)@, event@, roll),
            final(self).wf(),
    {
        match event {
            EventKind::Move(msg, place) => {
                let turn = self.turn;
                self.log(needs_line(turn, msg));
                let position = self.players[turn].position;
                let target = if place < position {
                    place + 40
                } else {
                    place
                };
                self.move_player(target - position, roll);
            },
            _ => {
                self.settle_event(event);
            },
        }
    }

    /// Plays the moves of the player whose turn it is, from the move number
    /// `recursion` on; `throws` holds the dice of each move.
    pub fn spend_one_turn_internal(&mut self, recursion: u32, throws: &Vec<Throw>)
        requires
            old(self).wf(),
            old(self).turn < old(self).players@.len(),
            recursion <= 3,
            throws@.len() == 3,
            forall|k: int| 0 <= k < 3 ==> (#[trigger] throws@[k]).valid(),
            roomy(old(self)@, (3 - recursion) * 60_000),
        ensures
            final(self)@ == resolved(old(self)@, throws@, recursion as int),
            final(self).wf(),
        decreases 3 - recursion,
    {
        proof {
            lemma_resolved(self@, throws@, recursion as int);
        }
        if recursion == 3 {
            self.settle_event(EventKind::Nothing("Breaks the speed limit."));
            self.settle_event(EventKind::GetJailed);
            return ;
        }
        let turn = self.turn;
        let throw = throws[recursion as usize];
        assert(throw.valid());
        let ghost start = self@;
        match self.players[turn].state {
            PlayerState::Active => {
                match throw.movement {
                    DiceResult::Same(result) => {
                        proof {
                            lemma_moved(self@, result as int, throw.rent);
                            lemma_grown(
                                start,
                                moved(start, result as int, throw.rent),
                                moved(start, result as int, throw.rent),
                                30_200,
                                0,
                            );
                        }
                        self.move_player(result as usize, throw.rent);
                        if let PlayerState::InJail(_) = self.players[turn].state {
                        } else {
                            assert(roomy(self@, (3 - recursion) * 60_000 - 30_200));
                            assert(roomy(self@, (3 - (recursion + 1)) * 60_000));
                            self.spend_one_turn_internal(recursion + 1, throws);
                        }
                    },
                    DiceResult::Different(result) => {
                        self.move_player(result as usize, throw.rent);
                    },
                }
            },
            PlayerState::Bankrupted => {
                self.settle_event(EventKind::Nothing("Already bankrupted."));
            },
            PlayerState::InJail(jail_count) => {
                match throw.movement {
                    DiceResult::Same(result) => {
                        self.players[turn].state = PlayerState::Active;
                        assert(self@.players =~= with_player(
                            start,
                            turn as int,
                            Player { state: PlayerState::Active, ..start.players[turn as int] },
                        ).players);
                        self.settle_event(EventKind::Nothing("Leaves the jail."));
                        self.move_player(result as usize, throw.rent);
                    },
                    DiceResult::Different(result) => {
                        if jail_count == 2 {
                            self.players[turn].state = PlayerState::Active;
                            assert(self@.players =~= with_player(
                                start,
                                turn as int,
                                Player { state: PlayerState::Active, ..start.players[turn as int] },
                            ).players);
                            self.settle_event(
                                EventKind::Nothing("Completes their term of jail."),
                            );
                            let fee = EventKind::PayToBank("Jail fee", 50);
                            proof {
                                assert(roomy(self@, 60_000));
                                lemma_liquid_value_bound(self@.board, turn);
                                lemma_settled(self@, fee@);
                                lemma_grown(
                                    self@,
                                    settled(self@, fee@),
                                    settled(self@, fee@),
                                    28_050,
                                    0,
                                );
                            }
                            self.settle_event(fee);
                            assert(roomy(self@, 60_000 - 28_050));
                            self.move_player(result as usize, throw.rent);
                        } else {
                            self.players[turn].state = PlayerState::InJail(jail_count + 1);
                            assert(self@.players =~= with_player(
                                start,
                                turn as int,
                                Player {
                                    state: PlayerState::InJail((jail_count + 1) as u8),
                                    ..start.players[turn as int]
                                },
                            ).players);
                            self.settle_event(EventKind::Nothing("Stays in the jail."));
                        }
                    },
                }
            },
        }
    }

    /// Makes every player invest, in the order of the list; `exposures` holds
    /// for each player the throws that the utilities multiply when the rents
    /// that threaten him are asked.
    pub fn invest_all(&mut self, exposures: &Vec<UtilityDice>)
        requires
            old(self).wf(),
            exposures@.len() == old(self).players@.len(),
            forall|k: int| 0 <= k < exposures@.len() ==> (#[trigger] exposures@[k]).valid(),
        ensures
            final(self)@ == invested_all(
                old(self)@,
                exposures@,
                old(self).players@.len() as int,
            ),
            final(self).wf(),
            final(self).players@.len() == old(self).players@.len(),
            final(self)@.logs == old(self)@.logs,
    {
        let mut i: usize = 0;
        while i < self.players.len()
            invariant
                i <= self.players@.len(),
                self.players@.len() == old(self).players@.len(),
                exposures@.len() == old(self).players@.len(),
                forall|k: int| 0 <= k < exposures@.len() ==> (#[trigger] exposures@[k]).valid(),
                old(self).wf(),
                self.wf(),
                self@ == invested_all(old(self)@, exposures@, i as int),
                self@.logs == old(self)@.logs,
            decreases self.players@.len() - i,
        {
            proof {
                lemma_invested_all(old(self)@, exposures@, i as int + 1);
            }
            assert(exposures@[i as int].valid());
            self.players[i].invest_with(&mut self.board, &exposures[i]);
            assert(self@.players =~= invested_all(old(self)@, exposures@, i as int + 1).players);
            i += 1;
        }
    }

    /// Plays one turn with the dice `dice`.
    ///
    /// Nothing happens when fewer than two players are left. Otherwise the
    /// player whose turn it is makes his moves; then, if two players are still
    /// left, every player invests; and the turn passes on to the next player,
    /// round the table, whether they invested or not. The board obeys the rule
    /// of building afterwards, no player has gained more than `TURN_GROWTH`,
    /// only the player whose turn it was has moved or changed his state, and
    /// whoever was bankrupt still is, without cash or places if he was so.
    pub fn spend_one_turn_with(&mut self, dice: &TurnDice)
        requires
            old(self).wf(),
            old(self).within_limit(),
            dice.fits(old(self).players@.len()),
        ensures
            final(self)@ == after_turn(old(self)@, dice.throws@, dice.exposures@),
            final(self).wf(),
            final(self).players@.len() == old(self).players@.len(),
            forall|i: int|
                0 <= i < old(self).players@.len() ==> (#[trigger] final(self).players@[i]).money
                    <= old(self).players@[i].money + TURN_GROWTH,
            forall|i: int|
                0 <= i < old(self).players@.len() && i != old(self).turn ==> (
                #[trigger] final(self).players@[i]).position == old(self).players@[i].position
                    && final(self).players@[i].state == old(self).players@[i].state,
            forall|i: int|
                0 <= i < old(self).players@.len() && old(self).players@[i].state is Bankrupted
                    ==> (#[trigger] final(self).players@[i]).state is Bankrupted,
            active_count(old(self).players@, old(self).players@.len() as int) > 1 ==> final(self).turn == (old(self).turn + 1) % (old(self).players@.len() as int),
            active_count(old(self).players@, old(self).players@.len() as int) <= 1 ==> final(self)@ == old(self)@,
            extends(old(self)@.logs, final(self)@.logs),
            settled_accounts(old(self)@) ==> settled_accounts(final(self)@),
    {
        proof {
            assert(roomy(self@, 180_000)) by {
                assert forall|i: int| 0 <= i < self@.players.len() implies (
                #[trigger] self@.players[i]).money + 180_000 <= u32::MAX by {
                    assert(self.players@[i].money <= MONEY_LIMIT);
                }
            }
            lemma_after_turn(self@, dice.throws@, dice.exposures@);
            lemma_active_count(self.players@, self.players@.len() as int);
            if settled_accounts(self@) {
                lemma_after_turn_accounts(self@, dice.throws@, dice.exposures@);
            }
        }
        if self.count_active_players() > 1 {
            proof {
                lemma_resolved(self@, dice.throws@, 0);
            }
            self.spend_one_turn_internal(0, &dice.throws);
            if self.count_active_players() > 1 {
                self.invest_all(&dice.exposures);
            }
            let seats = self.players.len();
            assert(self.turn < seats);
            self.turn += 1;
            if self.turn >= seats {
                self.turn -= seats;
            }
        }
    }

    /// Plays one turn, throwing the dice as they are needed. What is left is
    /// one of the outcomes of `spend_one_turn_with`: whatever the dice show,
    /// the turn passes on if two players were left, only the player whose
    /// turn it was has moved or changed his state, and whoever was bankrupt
    /// still is.
    pub fn spend_one_turn(&mut self)
        requires
            old(self).wf(),
            old(self).within_limit(),
        ensures
            final(self).wf(),
            final(self).players@.len() == old(self).players@.len(),
            forall|i: int|
                0 <= i < old(self).players@.len() ==> (#[trigger] final(self).players@[i]).money
                    <= old(self).players@[i].money + TURN_GROWTH,
            forall|i: int|
                0 <= i < old(self).players@.len() && i != old(self).turn ==> (
                #[trigger] final(self).players@[i]).position == old(self).players@[i].position
                    && final(self).players@[i].state == old(self).players@[i].state,
            forall|i: int|
                0 <= i < old(self).players@.len() && old(self).players@[i].state is Bankrupted
                    ==> (#[trigger] final(self).players@[i]).state is Bankrupted,
            active_count(old(self).players@, old(self).players@.len() as int) > 1 ==> final(self).turn == (old(self).turn + 1) % (old(self).players@.len() as int),
            active_count(old(self).players@, old(self).players@.len() as int) <= 1 ==> final(self)@ == old(self)@,
            extends(old(self)@.logs, final(self)@.logs),
            settled_accounts(old(self)@) ==> settled_accounts(final(self)@),
            exists|dice: TurnThrows|
                dice.valid() && dice.exposures.len() == old(self).players@.len() && final(self)@
                    == after_turn(old(self)@, dice.throws, dice.exposures),
    {
        let dice = TurnDice::roll(self.players.len());
        self.spend_one_turn_with(&dice);
        assert((TurnThrows { throws: dice.throws@, exposures: dice.exposures@ }).valid());
        assert(self@ == after_turn(
            old(self)@,
            (TurnThrows { throws: dice.throws@, exposures: dice.exposures@ }).throws,
            (TurnThrows { throws: dice.throws@, exposures: dice.exposures@ }).exposures,
        ));
    }
}

} // verus!
