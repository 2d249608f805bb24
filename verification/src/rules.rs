use vstd::prelude::*;
use vstd::arithmetic::div_mod::{lemma_mod_self_0, lemma_small_mod};
use crate::board::{
    board_wf, color_valid, fresh_board, has_houses, houses_valid, lemma_place_shape,
    lemma_same_color, lemma_update_wf, monopolized_by, most_expensive, of_color, place_wf,
};
use crate::dice_rolling::{DiceResult, UtilityDice};
use crate::events::EventModel;
use crate::logs::{
    buys_text, gains_text, inherits_text, moves_text, needs_text, pays_bank_text,
    pays_other_text, player_line_text,
};
use crate::places::{landing_effect, BoardColor, PlaceModel};
use crate::player::{after_payment, payment_text, Player, PlayerState};
use crate::investment::{investment, lemma_invest_laws};
use crate::liquidation::{
    lemma_liquid_bounds, lemma_liquid_value_bound, lemma_raise_laws, liquid_value, raise_outcome,
};
use crate::strategy::ExpensiveHousesProtectionStrategy;

verus! {

/// The position of the jail: where a player is sent, and where he waits.
pub const JAIL_POSITION: usize = 10;

/// The cash that no player may exceed when a turn starts, so that no sum made
/// within the turn leaves the range of the machine's numbers.
pub const MONEY_LIMIT: u32 = 4_000_000_000;

/// No player's cash grows by more than this within one turn: a crude bound,
/// made of three moves that pass Go and collect the highest rent after
/// liquidating every holding.
pub const TURN_GROWTH: u32 = 180_000;

/// A game as a mathematical record: the players in their order, the board,
/// the number of the player whose turn it is, and the lines of the log.
pub struct GameModel {
    pub players: Seq<Player>,
    pub board: Seq<PlaceModel>,
    pub turn: usize,
    pub logs: Seq<Seq<char>>,
}

/// The dice of one move: the throw that moves the token, and the throw that
/// a utility multiplies if the token stops on one that charges rent.
#[derive(Clone, Copy, Debug)]
pub struct Throw {
    pub movement: DiceResult,
    pub rent: DiceResult,
}

impl Throw {
    /// Whether both throws can be shown by two dice.
    pub open spec fn valid(self) -> bool {
        self.movement.valid() && self.rent.valid()
    }
}

/// Whether `g` is a game: a board that obeys the rule of building, players
/// numbered by their place in the list with their tokens on the board, the
/// turn on one of them, and no place owned by a stranger.
pub open spec fn game_wf(g: GameModel) -> bool {
    &&& board_wf(g.board)
    &&& houses_valid(g.board)
    &&& g.turn < g.players.len() || (g.players.len() == 0 && g.turn == 0)
    &&& forall|i: int|
        0 <= i < g.players.len() ==> (#[trigger] g.players[i]).player_id == i && g.players[i].wf()
    &&& forall|j: int|
        0 <= j < 40 ==> ((#[trigger] g.board[j]).owner matches Some(o) ==> o < g.players.len())
}

/// Whether every player of `g` can gain `slack` without leaving the range of
/// the machine's numbers.
pub open spec fn roomy(g: GameModel, slack: int) -> bool {
    forall|i: int| 0 <= i < g.players.len() ==> (#[trigger] g.players[i]).money + slack <= u32::MAX
}

/// Whether the log `after` starts with all of the log `before`.
pub open spec fn extends(before: Seq<Seq<char>>, after: Seq<Seq<char>>) -> bool {
    &&& before.len() <= after.len()
    &&& forall|i: int| 0 <= i < before.len() ==> #[trigger] after[i] == before[i]
}

/// The game with one more line in its log.
pub open spec fn logged(g: GameModel, line: Seq<char>) -> GameModel {
    GameModel { logs: g.logs.push(line), ..g }
}

/// Whether `g2` has the players of `g`, none of them with more than `growth`
/// more cash, all but the one whose turn it is where they stood and in the
/// state that they were in, and a log that goes on from that of `g`.
pub open spec fn grown(g: GameModel, g2: GameModel, growth: int) -> bool {
    &&& g2.players.len() == g.players.len()
    &&& g2.turn == g.turn
    &&& extends(g.logs, g2.logs)
    &&& forall|i: int|
        0 <= i < g.players.len() && i != g.turn ==> (#[trigger] g2.players[i]).position
            == g.players[i].position && g2.players[i].state == g.players[i].state
    &&& forall|i: int|
        0 <= i < g.players.len() ==> (#[trigger] g2.players[i]).money <= g.players[i].money
            + growth
}

/// The game with the player `i` replaced by `p`.
pub open spec fn with_player(g: GameModel, i: int, p: Player) -> GameModel {
    GameModel { players: g.players.update(i, p), ..g }
}

/// The game after the player `i` got `dollars`.
pub open spec fn credited(g: GameModel, i: int, dollars: int) -> GameModel {
    with_player(g, i, Player { money: (g.players[i].money + dollars) as u32, ..g.players[i] })
}

/// The board after the bank took back all that `p` owned: without owner,
/// mortgage or houses.
pub open spec fn returned_to_bank(b: Seq<PlaceModel>, p: usize) -> Seq<PlaceModel> {
    Seq::new(
        b.len(),
        |j: int|
            if b[j].owner == Some(p) {
                b[j].pristine()
            } else {
                b[j]
            },
    )
}

/// The board after `to` took over all that `from` owned, as it was.
pub open spec fn handed_over(b: Seq<PlaceModel>, from: usize, to: usize) -> Seq<PlaceModel> {
    Seq::new(
        b.len(),
        |j: int|
            if b[j].owner == Some(from) {
                PlaceModel { owner: Some(to), ..b[j] }
            } else {
                b[j]
            },
    )
}

/// The game after the player whose turn it is was asked to pay `dollars` to
/// the bank: he pays, raising money where his cash is short, or goes bankrupt
/// and all that he owned returns to the bank.
pub open spec fn paid_bank(g: GameModel, dollars: u32) -> GameModel {
    let me = g.players[g.turn as int];
    let end = raise_outcome(g.board, g.turn, me.money as int, dollars as int);
    let noted = g.logs.push(payment_text(me, end, dollars));
    GameModel {
        players: g.players.update(g.turn as int, after_payment(me, end)),
        board: if end.paid {
            end.board
        } else {
            returned_to_bank(end.board, g.turn)
        },
        logs: if end.paid {
            noted
        } else {
            noted.push(
                player_line_text(g.turn, "All of the properties are returned to the bank."@),
            )
        },
        ..g
    }
}

/// The game after the player whose turn it is was asked to pay `dollars` to
/// the player `receiver`: he pays in full, raising money where his cash is
/// short, or goes bankrupt, and the receiver then gets what he did raise and
/// all that he owned, as it is.
pub open spec fn paid_other(g: GameModel, receiver: usize, dollars: u32) -> GameModel {
    let me = g.players[g.turn as int];
    let end = raise_outcome(g.board, g.turn, me.money as int, dollars as int);
    let settled = GameModel {
        players: g.players.update(g.turn as int, after_payment(me, end)),
        board: end.board,
        logs: g.logs.push(payment_text(me, end, dollars)),
        ..g
    };
    if end.paid {
        credited(settled, receiver as int, dollars as int)
    } else {
        let heir = settled.players[receiver as int].player_id;
        GameModel {
            board: handed_over(end.board, g.turn, heir),
            logs: settled.logs.push(inherits_text(heir, g.turn)),
            ..credited(settled, receiver as int, end.money)
        }
    }
}

/// The game after the player whose turn it is was offered the place at
/// `place` for `price`: he pays the bank, and the place is his unless he is
/// bankrupt.
pub open spec fn acquired(g: GameModel, place: usize, price: u32) -> GameModel {
    let name = g.board[place as int].name;
    let paid = paid_bank(
        logged(logged(g, buys_text(g.turn, name, price)), pays_bank_text(g.turn, price, name)),
        price,
    );
    if paid.players[g.turn as int].state != PlayerState::Bankrupted {
        GameModel {
            board: paid.board.update(
                place as int,
                PlaceModel { owner: Some(g.turn), ..paid.board[place as int] },
            ),
            ..paid
        }
    } else {
        paid
    }
}

/// The game after the player whose turn it is was sent to jail.
pub open spec fn jailed(g: GameModel) -> GameModel {
    with_player(
        logged(g, player_line_text(g.turn, "Gets jailed."@)),
        g.turn as int,
        Player {
            state: PlayerState::InJail(0),
            position: JAIL_POSITION,
            ..g.players[g.turn as int]
        },
    )
}

/// The game after an event that moves no token was applied to the player
/// whose turn it is. The log tells what happened.
pub open spec fn settled(g: GameModel, event: EventModel) -> GameModel {
    match event {
        EventModel::Nothing(msg) => logged(g, player_line_text(g.turn, msg)),
        EventModel::PayToBank(msg, dollars) => paid_bank(
            logged(g, pays_bank_text(g.turn, dollars, msg)),
            dollars,
        ),
        EventModel::PayToOther(msg, receiver, dollars) => paid_other(
            logged(g, pays_other_text(g.turn, dollars, receiver, msg)),
            receiver,
            dollars,
        ),
        EventModel::Reward(msg, dollars) => credited(
            logged(g, gains_text(g.turn, dollars, msg)),
            g.turn as int,
            dollars as int,
        ),
        EventModel::GivePlace(place, price) => acquired(g, place, price),
        EventModel::Move(_, _) => g,
        EventModel::GetJailed => jailed(g),
    }
}

/// The money that an event moves.
pub open spec fn amount(event: EventModel) -> int {
    match event {
        EventModel::PayToBank(_, dollars) => dollars as int,
        EventModel::PayToOther(_, _, dollars) => dollars as int,
        EventModel::Reward(_, dollars) => dollars as int,
        EventModel::GivePlace(_, price) => price as int,
        _ => 0,
    }
}

/// Whether the event can be applied to the game: it names a player and a
/// place that exist, it offers only a place that can be owned and has no
/// owner, and no sum that it asks for leaves the range of the machine's
/// numbers.
pub open spec fn fits(g: GameModel, event: EventModel) -> bool {
    &&& g.turn < g.players.len()
    &&& match event {
        EventModel::PayToBank(_, _) => g.players[g.turn as int].money + liquid_value(
            g.board,
            g.turn,
        ) <= u32::MAX,
        EventModel::PayToOther(_, receiver, dollars) => {
            &&& receiver < g.players.len()
            &&& g.players[g.turn as int].money + liquid_value(g.board, g.turn) <= u32::MAX
            &&& g.players[receiver as int].money + dollars <= u32::MAX
        },
        EventModel::Reward(_, dollars) => g.players[g.turn as int].money + dollars <= u32::MAX,
        EventModel::GivePlace(place, _) => {
            &&& place < 40
            &&& g.board[place as int].is_property()
            &&& g.board[place as int].owner is None
            &&& g.players[g.turn as int].money + liquid_value(g.board, g.turn) <= u32::MAX
        },
        EventModel::Move(_, place) => place < 40,
        _ => true,
    }
}

/// The board stays a board that obeys the rule of building when the bank
/// takes back the places of a player who has mortgaged them all.
pub proof fn lemma_returned_to_bank(b: Seq<PlaceModel>, p: usize)
    requires
        board_wf(b),
        houses_valid(b),
        forall|j: int| 0 <= j < 40 && b[j].owner == Some(p) ==> b[j].mortgaged,
    ensures
        board_wf(returned_to_bank(b, p)),
        houses_valid(returned_to_bank(b, p)),
{
    let b2 = returned_to_bank(b, p);
    assert forall|j: int| 0 <= j < 40 implies place_wf(#[trigger] b2[j], j) by {
        assert(place_wf(b[j], j));
        lemma_place_shape(b, j);
    }
    assert forall|color: BoardColor| color.is_estate() implies #[trigger] color_valid(
        b2,
        color,
    ) by {
        assert(color_valid(b, color));
        if has_houses(b, color) {
            assert forall|j: int| 0 <= j < 40 && b[j].color == color implies #[trigger] b2[j]
                == b[j] by {
                assert(of_color(b, j, color));
            }
            lemma_same_color(b, b2, color);
        } else {
            assert forall|j: int| of_color(b2, j, color) implies b2[j].house_count() == 0 by {
                assert(of_color(b, j, color));
            }
        }
    }
}

/// The board stays a board that obeys the rule of building when somebody
/// takes over the places of a player who has mortgaged them all.
pub proof fn lemma_handed_over(b: Seq<PlaceModel>, from: usize, to: usize)
    requires
        board_wf(b),
        houses_valid(b),
        forall|j: int| 0 <= j < 40 && b[j].owner == Some(from) ==> b[j].mortgaged,
    ensures
        board_wf(handed_over(b, from, to)),
        houses_valid(handed_over(b, from, to)),
{
    let b2 = handed_over(b, from, to);
    assert forall|j: int| 0 <= j < 40 implies place_wf(#[trigger] b2[j], j) by {
        assert(place_wf(b[j], j));
        lemma_place_shape(b, j);
    }
    assert forall|color: BoardColor| color.is_estate() implies #[trigger] color_valid(
        b2,
        color,
    ) by {
        assert(color_valid(b, color));
        if has_houses(b, color) {
            assert forall|j: int| 0 <= j < 40 && b[j].color == color implies #[trigger] b2[j]
                == b[j] by {
                assert(of_color(b, j, color));
            }
            lemma_same_color(b, b2, color);
        } else {
            assert forall|j: int| of_color(b2, j, color) implies b2[j].house_count() == 0 by {
                assert(of_color(b, j, color));
            }
        }
    }
}

/// The board stays a board that obeys the rule of building when a place
/// without owner gets one.
pub proof fn lemma_acquired(b: Seq<PlaceModel>, place: int, p: usize)
    requires
        board_wf(b),
        houses_valid(b),
        0 <= place < 40,
        b[place].is_property(),
        b[place].owner is None,
    ensures
        board_wf(b.update(place, PlaceModel { owner: Some(p), ..b[place] })),
        houses_valid(b.update(place, PlaceModel { owner: Some(p), ..b[place] })),
{
    let m = PlaceModel { owner: Some(p), ..b[place] };
    let b2 = b.update(place, m);
    let c = b[place].color;
    assert(place_wf(b[place], place));
    lemma_update_wf(b, place, m);
    assert forall|color: BoardColor| color.is_estate() implies #[trigger] color_valid(
        b2,
        color,
    ) by {
        assert(color_valid(b, color));
        if color == c {
            assert(of_color(b, place, c));
            if has_houses(b, c) {
                let q = choose|q: usize| monopolized_by(b, c, q);
                assert(false);
            }
            assert forall|j: int| of_color(b2, j, c) implies b2[j].house_count() == 0 by {
                assert(of_color(b, j, c));
            }
        } else {
            lemma_same_color(b, b2, color);
        }
    }
}

/// What holds after an event that moves no token: the game is still a game,
/// and no player has gained more than the event moves and the payer could
/// raise.
pub proof fn lemma_settled(g: GameModel, event: EventModel)
    requires
        game_wf(g),
        fits(g, event),
    ensures
        game_wf(settled(g, event)),
        grown(g, settled(g, event), 28_000 + amount(event)),
{
    let t = g.turn as int;
    let me = g.players[t];
    lemma_liquid_value_bound(g.board, g.turn);
    match event {
        EventModel::PayToBank(_, dollars) => {
            lemma_paid_bank(g, dollars);
        },
        EventModel::PayToOther(_, receiver, dollars) => {
            let end = raise_outcome(g.board, g.turn, me.money as int, dollars as int);
            lemma_raise_laws(g.board, g.turn, me.money as int, dollars as int);
            lemma_liquid_bounds(end.board, g.turn);
            let before = GameModel {
                players: g.players.update(t, after_payment(me, end)),
                board: end.board,
                ..g
            };
            assert(game_wf(before));
            if !end.paid {
                lemma_handed_over(end.board, g.turn, before.players[receiver as int].player_id);
            }
        },
        EventModel::GivePlace(place, price) => {
            lemma_paid_bank(g, price);
            let paid = paid_bank(g, price);
            if paid.players[t].state != PlayerState::Bankrupted {
                let end = raise_outcome(g.board, g.turn, me.money as int, price as int);
                lemma_raise_laws(g.board, g.turn, me.money as int, price as int);
                assert(paid.board[place as int].owner == g.board[place as int].owner);
                lemma_place_shape(g.board, place as int);
                lemma_place_shape(paid.board, place as int);
                lemma_acquired(paid.board, place as int, g.turn);
            }
        },
        _ => {},
    }
}

/// What holds after a payment to the bank: the game is still a game, and the
/// payer has gained no more than he could raise.
pub proof fn lemma_paid_bank(g: GameModel, dollars: u32)
    requires
        game_wf(g),
        g.turn < g.players.len(),
        g.players[g.turn as int].money + liquid_value(g.board, g.turn) <= u32::MAX,
    ensures
        game_wf(paid_bank(g, dollars)),
        grown(g, paid_bank(g, dollars), 28_000),
        forall|j: int|
            0 <= j < 40 ==> ((#[trigger] paid_bank(g, dollars).board[j]).owner == g.board[j].owner
                || g.board[j].owner == Some(g.turn)),
        paid_bank(g, dollars).players[g.turn as int].state != PlayerState::Bankrupted ==> forall|
            j: int,
        |
            0 <= j < 40 ==> (#[trigger] paid_bank(g, dollars).board[j]).owner == g.board[j].owner,
{
    let t = g.turn as int;
    let me = g.players[t];
    let end = raise_outcome(g.board, g.turn, me.money as int, dollars as int);
    lemma_liquid_value_bound(g.board, g.turn);
    lemma_raise_laws(g.board, g.turn, me.money as int, dollars as int);
    lemma_liquid_bounds(end.board, g.turn);
    if !end.paid {
        lemma_returned_to_bank(end.board, g.turn);
    }
}

/// Growth adds up, and uses up room.
pub proof fn lemma_grown(g: GameModel, g1: GameModel, g2: GameModel, first: int, second: int)
    requires
        grown(g, g1, first),
        grown(g1, g2, second),
    ensures
        grown(g, g2, first + second),
        forall|slack: int| roomy(g, slack) ==> roomy(g1, slack - first),
{
    assert forall|i: int| 0 <= i < g.players.len() implies (#[trigger] g2.players[i]).money
        <= g.players[i].money + (first + second) by {
        assert(g1.players[i].money <= g.players[i].money + first);
    }
    assert forall|i: int| 0 <= i < g.players.len() && i != g.turn implies (
    #[trigger] g2.players[i]).position == g.players[i].position && g2.players[i].state
        == g.players[i].state by {
        assert(g1.players[i].position == g.players[i].position);
    }
    assert forall|slack: int| roomy(g, slack) implies roomy(g1, slack - first) by {
        assert forall|i: int| 0 <= i < g1.players.len() implies (#[trigger] g1.players[i]).money
            + (slack - first) <= u32::MAX by {
            assert(g.players[i].money + slack <= u32::MAX);
        }
    }
}

/// What a place can ask of the player who lands on it: never a move, never
/// more than $2,000, rent only for its owner and only from somebody else, and
/// an offer only of itself when it has no owner.
pub proof fn lemma_landing(b: Seq<PlaceModel>, here: int, turn: usize, roll: DiceResult)
    requires
        board_wf(b),
        0 <= here < 40,
        roll.valid(),
    ensures
        !(landing_effect(b[here], turn, b, roll) is Move),
        0 <= amount(landing_effect(b[here], turn, b, roll)) <= 2000,
        landing_effect(b[here], turn, b, roll) matches EventModel::PayToOther(_, owner, _)
            ==> b[here].owner == Some(owner) && owner != turn,
        landing_effect(b[here], turn, b, roll) matches EventModel::GivePlace(place, _) ==> place
            == here && b[here].is_property() && b[here].owner is None,
{
    lemma_place_shape(b, here);
}

/// The game after the token of the player whose turn it is went `count`
/// places on, before anything happens on the place where it stops. Passing
/// Go brings $200.
pub open spec fn arrived(g: GameModel, count: int) -> GameModel {
    let t = g.turn as int;
    let target = g.players[t].position + count;
    let rewarded = if target >= 40 {
        settled(g, EventModel::Reward("passing GO"@, 200))
    } else {
        g
    };
    with_player(
        rewarded,
        t,
        Player { position: (target % 40) as usize, ..rewarded.players[t] },
    )
}

/// The game after the place had its effect on which the token of the player
/// whose turn it is has stopped, having come from the place called `from`;
/// `roll` is the throw that a utility multiplies. The log tells of the move
/// first.
pub open spec fn landed(g: GameModel, from: Seq<char>, roll: DiceResult) -> GameModel {
    let place = g.board[g.players[g.turn as int].position as int];
    settled(
        logged(g, moves_text(g.turn, from, place.name)),
        landing_effect(place, g.turn, g.board, roll),
    )
}

/// The game after the token of the player whose turn it is went `count`
/// places on and the place where it stops had its effect; `roll` is the throw
/// that a utility multiplies.
pub open spec fn moved(g: GameModel, count: int, roll: DiceResult) -> GameModel {
    landed(arrived(g, count), g.board[g.players[g.turn as int].position as int].name, roll)
}

/// Passing Go always brings exactly $200, however far the token goes, and a
/// move that does not pass Go brings nothing; the token stops where the
/// count says, going round the board.
pub proof fn lemma_passing_go(g: GameModel, count: int)
    requires
        g.turn < g.players.len(),
        count >= 0,
        g.players[g.turn as int].money + 200 <= u32::MAX,
    ensures
        arrived(g, count).players[g.turn as int].money == g.players[g.turn as int].money + (
        if g.players[g.turn as int].position + count >= 40 {
            200int
        } else {
            0int
        }),
        arrived(g, count).players[g.turn as int].position == (g.players[g.turn as int].position
            + count) % 40,
        arrived(g, count).board == g.board,
        forall|i: int|
            0 <= i < g.players.len() && i != g.turn ==> arrived(g, count).players[i]
                == g.players[i],
{
}

/// What holds when the token has gone on: the game is still a game, the
/// board is as it was, and no player has gained more than the $200 of Go.
pub proof fn lemma_arrived(g: GameModel, count: int)
    requires
        game_wf(g),
        g.turn < g.players.len(),
        count >= 0,
        roomy(g, 200),
    ensures
        game_wf(arrived(g, count)),
        grown(g, arrived(g, count), 200),
        arrived(g, count).board == g.board,
        forall|slack: int| roomy(g, slack) ==> roomy(arrived(g, count), slack - 200),
{
    let there = arrived(g, count);
    assert(g.players[g.turn as int].money + 200 <= u32::MAX);
    assert(grown(g, there, 200));
    lemma_grown(g, there, there, 200, 0);
}

/// What the place asks for where the token has stopped can be applied, if
/// every player can gain $30,000.
pub proof fn lemma_landing_fits(g: GameModel, roll: DiceResult)
    requires
        game_wf(g),
        g.turn < g.players.len(),
        roll.valid(),
        roomy(g, 30_000),
    ensures
        ({
            let place = g.board[g.players[g.turn as int].position as int];
            let event = landing_effect(place, g.turn, g.board, roll);
            forall|line: Seq<char>| #[trigger] fits(logged(g, line), event)
        }),
{
    let t = g.turn as int;
    let here = g.players[t].position as int;
    let event = landing_effect(g.board[here], g.turn, g.board, roll);
    lemma_landing(g.board, here, g.turn, roll);
    lemma_liquid_value_bound(g.board, g.turn);
    assert(g.players[t].money + 30_000 <= u32::MAX);
    match event {
        EventModel::PayToOther(_, receiver, dollars) => {
            assert(g.players[receiver as int].money + 30_000 <= u32::MAX);
        },
        _ => {},
    }
}

/// What holds after a move: the game is still a game, and no player has
/// gained more than $30,200.
pub proof fn lemma_moved(g: GameModel, count: int, roll: DiceResult)
    requires
        game_wf(g),
        g.turn < g.players.len(),
        count >= 0,
        roll.valid(),
        roomy(g, 30_200),
    ensures
        game_wf(arrived(g, count)),
        game_wf(moved(g, count, roll)),
        grown(g, moved(g, count, roll), 30_200),
{
    let t = g.turn as int;
    let there = arrived(g, count);
    let here = there.players[t].position as int;
    let from = g.board[g.players[t].position as int].name;
    let line = moves_text(g.turn, from, there.board[here].name);
    let noted = logged(there, line);
    let event = landing_effect(there.board[here], g.turn, there.board, roll);
    assert(roomy(g, 200)) by {
        assert forall|i: int| 0 <= i < g.players.len() implies (#[trigger] g.players[i]).money + 200
            <= u32::MAX by {
            assert(g.players[i].money + 30_200 <= u32::MAX);
        }
    }
    lemma_arrived(g, count);
    assert(roomy(there, 30_000)) by {
        assert(roomy(there, 30_200 - 200));
    }
    lemma_landing(there.board, here, g.turn, roll);
    lemma_landing_fits(there, roll);
    assert(fits(noted, event));
    lemma_logged(there, line);
    lemma_settled(noted, event);
    lemma_grown(there, noted, settled(noted, event), 0, 28_000 + amount(event));
    lemma_grown(g, there, settled(noted, event), 200, 28_000 + amount(event));
}

/// The game after any event was applied to the player whose turn it is. A
/// move takes the token on to the place that the event names, round the
/// board if that lies behind.
pub open spec fn applied(g: GameModel, event: EventModel, roll: DiceResult) -> GameModel {
    match event {
        EventModel::Move(msg, place) => {
            let position = g.players[g.turn as int].position;
            let target = if place < position {
                place + 40
            } else {
                place as int
            };
            moved(logged(g, needs_text(g.turn, msg)), target - position, roll)
        },
        _ => settled(g, event),
    }
}

/// The game after the turn of the player whose turn it is, from the move
/// number `recursion` on; `throws` holds the dice of each move.
///
/// A free player moves by the dice, and moves again after doubles unless the
/// move took him to jail; the third doubles in a row send him to jail instead
/// of moving him. A player in jail leaves it on doubles, or after his third
/// stay for a fee of $50, and moves by the dice; otherwise he stays. A
/// bankrupt player does nothing.
pub open spec fn resolved(g: GameModel, throws: Seq<Throw>, recursion: int) -> GameModel
    decreases 3 - recursion,
{
    let t = g.turn as int;
    let me = g.players[t];
    if recursion >= 3 {
        jailed(logged(g, player_line_text(g.turn, "Breaks the speed limit."@)))
    } else {
        let throw = throws[recursion];
        let steps = throw.movement.total() as int;
        match me.state {
            PlayerState::Active => {
                let after = moved(g, steps, throw.rent);
                if throw.movement is Same && !(after.players[t].state is InJail) {
                    resolved(after, throws, recursion + 1)
                } else {
                    after
                }
            },
            PlayerState::Bankrupted => logged(g, player_line_text(g.turn, "Already bankrupted."@)),
            PlayerState::InJail(served) => {
                let free = with_player(g, t, Player { state: PlayerState::Active, ..me });
                if throw.movement is Same {
                    moved(
                        logged(free, player_line_text(g.turn, "Leaves the jail."@)),
                        steps,
                        throw.rent,
                    )
                } else if served == 2 {
                    moved(
                        settled(
                            logged(free, player_line_text(g.turn, "Completes their term of jail."@)),
                            EventModel::PayToBank("Jail fee"@, 50),
                        ),
                        steps,
                        throw.rent,
                    )
                } else {
                    logged(
                        with_player(
                            g,
                            t,
                            Player { state: PlayerState::InJail((served + 1) as u8), ..me },
                        ),
                        player_line_text(g.turn, "Stays in the jail."@),
                    )
                }
            },
        }
    }
}

/// A line more in the log leaves the game a game, with the cash of every
/// player as it was.
pub proof fn lemma_logged(g: GameModel, line: Seq<char>)
    requires
        game_wf(g),
    ensures
        game_wf(logged(g, line)),
        grown(g, logged(g, line), 0),
        logged(g, line).players == g.players,
        logged(g, line).board == g.board,
        forall|slack: int| roomy(g, slack) ==> roomy(logged(g, line), slack),
{
}

/// What holds after the turn of a player who leaves the jail: the game is
/// still a game, and no player has gained more than $60,000.
pub proof fn lemma_released(g: GameModel, throw: Throw, pays: bool)
    requires
        game_wf(g),
        g.turn < g.players.len(),
        throw.valid(),
        roomy(g, 60_000),
    ensures
        ({
            let me = g.players[g.turn as int];
            let free = with_player(g, g.turn as int, Player { state: PlayerState::Active, ..me });
            let steps = throw.movement.total() as int;
            let after = if pays {
                moved(
                    settled(
                        logged(free, player_line_text(g.turn, "Completes their term of jail."@)),
                        EventModel::PayToBank("Jail fee"@, 50),
                    ),
                    steps,
                    throw.rent,
                )
            } else {
                moved(
                    logged(free, player_line_text(g.turn, "Leaves the jail."@)),
                    steps,
                    throw.rent,
                )
            };
            game_wf(after) && grown(g, after, 60_000)
        }),
{
    let t = g.turn as int;
    let me = g.players[t];
    let free = with_player(g, t, Player { state: PlayerState::Active, ..me });
    let steps = throw.movement.total() as int;
    assert(game_wf(free));
    assert(grown(g, free, 0));
    assert(roomy(free, 60_000)) by {
        assert forall|i: int| 0 <= i < free.players.len() implies (#[trigger] free.players[i]).money
            + 60_000 <= u32::MAX by {
            assert(g.players[i].money + 60_000 <= u32::MAX);
        }
    }
    if pays {
        let noted = logged(free, player_line_text(g.turn, "Completes their term of jail."@));
        lemma_logged(free, player_line_text(g.turn, "Completes their term of jail."@));
        let fee = EventModel::PayToBank("Jail fee"@, 50);
        lemma_liquid_value_bound(noted.board, noted.turn);
        assert(noted.players[t].money + 60_000 <= u32::MAX);
        lemma_settled(noted, fee);
        let paid = settled(noted, fee);
        lemma_grown(noted, paid, paid, 28_050, 0);
        assert(roomy(paid, 30_200)) by {
            assert(roomy(paid, 60_000 - 28_050));
        }
        lemma_moved(paid, steps, throw.rent);
        let after = moved(paid, steps, throw.rent);
        lemma_grown(noted, paid, after, 28_050, 30_200);
        lemma_grown(free, noted, after, 0, 58_250);
        lemma_grown(g, free, after, 0, 58_250);
    } else {
        let noted = logged(free, player_line_text(g.turn, "Leaves the jail."@));
        lemma_logged(free, player_line_text(g.turn, "Leaves the jail."@));
        assert(roomy(noted, 30_200)) by {
            assert(roomy(free, 30_200));
        }
        lemma_moved(noted, steps, throw.rent);
        let after = moved(noted, steps, throw.rent);
        lemma_grown(free, noted, after, 0, 30_200);
        lemma_grown(g, free, after, 0, 30_200);
    }
}

/// What holds after the moves of a turn: the game is still a game, and no
/// player has gained more than $60,000 for each move that was still allowed.
pub proof fn lemma_resolved(g: GameModel, throws: Seq<Throw>, recursion: int)
    requires
        game_wf(g),
        g.turn < g.players.len(),
        0 <= recursion <= 3,
        throws.len() == 3,
        forall|k: int| 0 <= k < 3 ==> (#[trigger] throws[k]).valid(),
        roomy(g, (3 - recursion) * 60_000),
    ensures
        game_wf(resolved(g, throws, recursion)),
        grown(g, resolved(g, throws, recursion), (3 - recursion) * 60_000),
        recursion < 3 && g.players[g.turn as int].state is Bankrupted ==> resolved(
            g,
            throws,
            recursion,
        ).players == g.players && resolved(g, throws, recursion).board == g.board,
    decreases 3 - recursion,
{
    let t = g.turn as int;
    let me = g.players[t];
    if recursion < 3 {
        let throw = throws[recursion];
        assert(throw.valid());
        let steps = throw.movement.total() as int;
        match me.state {
            PlayerState::Active => {
                let after = moved(g, steps, throw.rent);
                lemma_moved(g, steps, throw.rent);
                if throw.movement is Same && !(after.players[t].state is InJail) {
                    lemma_grown(g, after, after, 30_200, 0);
                    assert(roomy(after, (3 - (recursion + 1)) * 60_000)) by {
                        assert(roomy(after, (3 - recursion) * 60_000 - 30_200));
                    }
                    lemma_resolved(after, throws, recursion + 1);
                    lemma_grown(
                        g,
                        after,
                        resolved(after, throws, recursion + 1),
                        30_200,
                        (3 - (recursion + 1)) * 60_000,
                    );
                }
            },
            PlayerState::Bankrupted => {
                lemma_logged(g, player_line_text(g.turn, "Already bankrupted."@));
            },
            PlayerState::InJail(served) => {
                assert(roomy(g, 60_000)) by {
                    assert forall|i: int| 0 <= i < g.players.len() implies (
                    #[trigger] g.players[i]).money + 60_000 <= u32::MAX by {
                        assert(g.players[i].money + (3 - recursion) * 60_000 <= u32::MAX);
                    }
                }
                if throw.movement is Same {
                    lemma_released(g, throw, false);
                } else if served == 2 {
                    lemma_released(g, throw, true);
                } else {
                    let stays = with_player(
                        g,
                        t,
                        Player { state: PlayerState::InJail((served + 1) as u8), ..me },
                    );
                    assert(game_wf(stays));
                    lemma_logged(stays, player_line_text(g.turn, "Stays in the jail."@));
                }
            },
        }
    } else {
        lemma_logged(g, player_line_text(g.turn, "Breaks the speed limit."@));
    }
}

/// Three doubles in a row end in jail: a player who is free before each of
/// three moves that all follow doubles is in jail afterwards, on the jail
/// place and with no stay served, wherever the third move took him.
pub proof fn lemma_speeding(g: GameModel, throws: Seq<Throw>)
    requires
        game_wf(g),
        g.turn < g.players.len(),
        roomy(g, 180_000),
        throws.len() == 3,
        forall|k: int| 0 <= k < 3 ==> (#[trigger] throws[k]).valid(),
        forall|k: int| 0 <= k < 3 ==> (#[trigger] throws[k]).movement is Same,
        g.players[g.turn as int].state is Active,
        moved(g, throws[0].movement.total() as int, throws[0].rent).players[g.turn as int].state is Active,
        moved(
            moved(g, throws[0].movement.total() as int, throws[0].rent),
            throws[1].movement.total() as int,
            throws[1].rent,
        ).players[g.turn as int].state is Active,
    ensures
        resolved(g, throws, 0).players[g.turn as int].state == PlayerState::InJail(0),
        resolved(g, throws, 0).players[g.turn as int].position == JAIL_POSITION,
{
    let t = g.turn as int;
    assert(throws[0].valid() && throws[1].valid() && throws[2].valid());
    assert(throws[0].movement is Same && throws[1].movement is Same && throws[2].movement is Same);
    let first = moved(g, throws[0].movement.total() as int, throws[0].rent);
    lemma_moved(g, throws[0].movement.total() as int, throws[0].rent);
    lemma_grown(g, first, first, 30_200, 0);
    assert(roomy(first, 180_000 - 30_200));
    let second = moved(first, throws[1].movement.total() as int, throws[1].rent);
    lemma_moved(first, throws[1].movement.total() as int, throws[1].rent);
    lemma_grown(first, second, second, 30_200, 0);
    assert(roomy(second, 180_000 - 30_200 - 30_200));
    let third = moved(second, throws[2].movement.total() as int, throws[2].rent);
    lemma_moved(second, throws[2].movement.total() as int, throws[2].rent);
    assert(resolved(g, throws, 0) == resolved(first, throws, 1));
    assert(resolved(first, throws, 1) == resolved(second, throws, 2));
    if third.players[t].state is InJail {
        assert(resolved(second, throws, 2) == third);
        lemma_jail_is_fresh(second, throws[2].movement.total() as int, throws[2].rent);
    } else {
        assert(resolved(second, throws, 2) == resolved(third, throws, 3));
        assert(resolved(third, throws, 3) == jailed(
            logged(third, player_line_text(third.turn, "Breaks the speed limit."@)),
        ));
    }
}

/// A free player whom a move leaves in jail was sent there by the move: he
/// stands on the jail place and has served no stay.
pub proof fn lemma_jail_is_fresh(g: GameModel, count: int, roll: DiceResult)
    requires
        game_wf(g),
        g.turn < g.players.len(),
        count >= 0,
        roll.valid(),
        g.players[g.turn as int].state is Active,
        moved(g, count, roll).players[g.turn as int].state is InJail,
    ensures
        moved(g, count, roll).players[g.turn as int].state == PlayerState::InJail(0),
        moved(g, count, roll).players[g.turn as int].position == JAIL_POSITION,
{
    let t = g.turn as int;
    let there = arrived(g, count);
    let here = there.players[t].position as int;
    let event = landing_effect(there.board[here], g.turn, there.board, roll);
    lemma_landing(there.board, here, g.turn, roll);
    assert(there.board[here].owner matches Some(o) ==> o < g.players.len());
    match event {
        EventModel::PayToOther(_, receiver, dollars) => {
            assert(receiver != g.turn && receiver < g.players.len());
        },
        _ => {},
    }
}

/// The number of players among the first `n` who are not bankrupt.
pub open spec fn active_count(players: Seq<Player>, n: int) -> nat
    decreases n,
{
    if n <= 0 {
        0
    } else {
        active_count(players, n - 1) + if players[n - 1].state is Bankrupted {
            0nat
        } else {
            1nat
        }
    }
}

/// The game after the first `n` players invested, one after another;
/// `exposures` holds for each player the throws that the utilities multiply
/// when the rents that threaten him are asked.
pub open spec fn invested_all(g: GameModel, exposures: Seq<UtilityDice>, n: int) -> GameModel
    decreases n,
{
    if n <= 0 {
        g
    } else {
        let before = invested_all(g, exposures, n - 1);
        let me = before.players[n - 1];
        let end = investment(
            before.board,
            me.player_id,
            me.money as int,
            most_expensive(before.board, me.player_id, exposures[n - 1], 40) as int,
        );
        GameModel {
            players: before.players.update(n - 1, Player { money: end.money as u32, ..me }),
            board: end.board,
            ..before
        }
    }
}

/// What holds after the players invested: the game is still a game, and no
/// player has more cash than before.
pub proof fn lemma_invested_all(g: GameModel, exposures: Seq<UtilityDice>, n: int)
    requires
        game_wf(g),
        0 <= n <= g.players.len(),
    ensures
        game_wf(invested_all(g, exposures, n)),
        grown(g, invested_all(g, exposures, n), 0),
        forall|i: int|
            0 <= i < g.players.len() ==> (#[trigger] invested_all(g, exposures, n).players[i]).state
                == g.players[i].state,
    decreases n,
{
    if n > 0 {
        let before = invested_all(g, exposures, n - 1);
        lemma_invested_all(g, exposures, n - 1);
        let me = before.players[n - 1];
        let exposure = most_expensive(before.board, me.player_id, exposures[n - 1], 40) as int;
        if me.money > exposure {
            lemma_invest_laws(before.board, me.player_id, me.money as int, me.money - exposure);
        }
        let after = invested_all(g, exposures, n);
        assert forall|i: int| 0 <= i < g.players.len() implies (#[trigger] after.players[i]).money
            <= g.players[i].money + 0 by {
            assert(before.players[i].money <= g.players[i].money + 0);
        }
        assert forall|i: int| 0 <= i < g.players.len() implies (#[trigger] after.players[i]).state
            == g.players[i].state by {
            assert(before.players[i].state == g.players[i].state);
        }
        assert forall|i: int| 0 <= i < after.players.len() implies (
        #[trigger] after.players[i]).player_id == i && after.players[i].wf() by {
            assert(before.players[i].player_id == i && before.players[i].wf());
        }
    }
}

/// The game with the turn passed on to the next player, round the table.
pub open spec fn advanced(g: GameModel) -> GameModel {
    GameModel {
        turn: if g.turn + 1 >= g.players.len() {
            (g.turn + 1 - g.players.len()) as usize
        } else {
            (g.turn + 1) as usize
        },
        ..g
    }
}

/// The game after one turn. Nothing happens when fewer than two players are
/// left. Otherwise the player whose turn it is makes his moves; then, if two
/// players are still left, every player invests, in the order of the list;
/// and the turn passes on, whether they invested or not.
pub open spec fn after_turn(
    g: GameModel,
    throws: Seq<Throw>,
    exposures: Seq<UtilityDice>,
) -> GameModel {
    if active_count(g.players, g.players.len() as int) > 1 {
        let played = resolved(g, throws, 0);
        if active_count(played.players, played.players.len() as int) > 1 {
            advanced(invested_all(played, exposures, played.players.len() as int))
        } else {
            advanced(played)
        }
    } else {
        g
    }
}

/// The dice of one whole turn: those of its moves, and for each player those
/// that the utilities multiply when he invests.
pub struct TurnThrows {
    pub throws: Seq<Throw>,
    pub exposures: Seq<UtilityDice>,
}

impl TurnThrows {
    /// Whether these are dice that a turn can be played with: three throws
    /// for the moves, all of them throws of two dice.
    pub open spec fn valid(self) -> bool {
        &&& self.throws.len() == 3
        &&& forall|k: int| 0 <= k < 3 ==> (#[trigger] self.throws[k]).valid()
        &&& forall|k: int| 0 <= k < self.exposures.len() ==> (#[trigger] self.exposures[k]).valid()
    }
}

/// The game after the first `n` turns that are played with `dice`.
pub open spec fn after_turns(g: GameModel, dice: Seq<TurnThrows>, n: int) -> GameModel
    decreases n,
{
    if n <= 0 {
        g
    } else {
        let before = after_turns(g, dice, n - 1);
        after_turn(before, dice[n - 1].throws, dice[n - 1].exposures)
    }
}

/// The first turns do not depend on the dice of those that follow.
pub proof fn lemma_after_turns_prefix(g: GameModel, dice: Seq<TurnThrows>, more: TurnThrows, n: int)
    requires
        0 <= n <= dice.len(),
    ensures
        after_turns(g, dice.push(more), n) == after_turns(g, dice, n),
    decreases n,
{
    if n > 0 {
        lemma_after_turns_prefix(g, dice, more, n - 1);
    }
}

/// What holds after a turn: the game is still a game, so the board obeys the
/// rule of building; no player has gained more than $180,000; the log goes on
/// from where it was; only the player whose turn it was has moved or changed
/// his state; whoever was bankrupt still is; and the turn has passed on to the
/// next player, round the table, unless fewer than two players were left, in
/// which case nothing has happened.
pub proof fn lemma_after_turn(g: GameModel, throws: Seq<Throw>, exposures: Seq<UtilityDice>)
    requires
        game_wf(g),
        throws.len() == 3,
        forall|k: int| 0 <= k < 3 ==> (#[trigger] throws[k]).valid(),
        roomy(g, 180_000),
    ensures
        game_wf(after_turn(g, throws, exposures)),
        after_turn(g, throws, exposures).players.len() == g.players.len(),
        extends(g.logs, after_turn(g, throws, exposures).logs),
        forall|i: int|
            0 <= i < g.players.len() ==> (#[trigger] after_turn(
                g,
                throws,
                exposures,
            ).players[i]).money <= g.players[i].money + 180_000,
        forall|i: int|
            0 <= i < g.players.len() && i != g.turn ==> (#[trigger] after_turn(
                g,
                throws,
                exposures,
            ).players[i]).position == g.players[i].position && after_turn(
                g,
                throws,
                exposures,
            ).players[i].state == g.players[i].state,
        forall|i: int|
            0 <= i < g.players.len() && g.players[i].state is Bankrupted ==> (#[trigger] after_turn(
                g,
                throws,
                exposures,
            ).players[i]).state is Bankrupted,
        active_count(g.players, g.players.len() as int) > 1 ==> after_turn(
            g,
            throws,
            exposures,
        ).turn == (g.turn + 1) % (g.players.len() as int),
        active_count(g.players, g.players.len() as int) <= 1 ==> after_turn(g, throws, exposures)
            == g,
{
    if active_count(g.players, g.players.len() as int) > 1 {
        lemma_active_count(g.players, g.players.len() as int);
        let played = resolved(g, throws, 0);
        lemma_resolved(g, throws, 0);
        let n = played.players.len() as int;
        let done = if active_count(played.players, n) > 1 {
            invested_all(played, exposures, n)
        } else {
            played
        };
        if active_count(played.players, n) > 1 {
            lemma_invested_all(played, exposures, n);
        }
        lemma_grown(g, played, done, 180_000, 0);
        let after = advanced(done);
        assert(after == after_turn(g, throws, exposures));
        assert(g.turn < g.players.len());
        let seats = g.players.len() as int;
        if g.turn + 1 < seats {
            lemma_small_mod((g.turn + 1) as nat, seats as nat);
        } else {
            lemma_mod_self_0(seats);
        }
        assert forall|i: int| 0 <= i < g.players.len() implies (#[trigger] after.players[i]).money
            <= g.players[i].money + 180_000 by {
            assert(done.players[i].money <= g.players[i].money + 180_000);
        }
        assert forall|i: int| 0 <= i < g.players.len() && i != g.turn implies (
        #[trigger] after.players[i]).position == g.players[i].position && after.players[i].state
            == g.players[i].state by {
            assert(done.players[i].position == g.players[i].position);
        }
        assert forall|i: int|
            0 <= i < g.players.len() && g.players[i].state is Bankrupted implies (
        #[trigger] after.players[i]).state is Bankrupted by {
            if i == g.turn {
                assert(played.players[i] == g.players[i]);
                if active_count(played.players, n) > 1 {
                    assert(done.players[i].state == played.players[i].state);
                }
            } else {
                assert(done.players[i].state == g.players[i].state);
            }
        }
    }
}

/// No more players are active than there are players.
pub proof fn lemma_active_count(players: Seq<Player>, n: int)
    requires
        0 <= n,
    ensures
        active_count(players, n) <= n,
    decreases n,
{
    if n > 0 {
        lemma_active_count(players, n - 1);
    }
}

/// The game before it starts: `player_num` players with $1500 each on Go, a
/// board that nobody has touched, and the turn on the first player.
pub open spec fn fresh_game(player_num: nat) -> GameModel {
    GameModel {
        players: Seq::new(
            player_num,
            |i: int|
                Player {
                    player_id: i as usize,
                    money: 1500,
                    state: PlayerState::Active,
                    position: 0,
                    strategy: ExpensiveHousesProtectionStrategy {  },
                },
        ),
        board: fresh_board(),
        turn: 0,
        logs: Seq::empty(),
    }
}

/// The first `n` places as `returned_to_bank` leaves them, the rest untouched.
pub open spec fn returned_upto(b: Seq<PlaceModel>, p: usize, n: int) -> Seq<PlaceModel> {
    Seq::new(
        b.len(),
        |j: int|
            if j < n && b[j].owner == Some(p) {
                b[j].pristine()
            } else {
                b[j]
            },
    )
}

/// The first `n` places as `handed_over` leaves them, the rest untouched.
pub open spec fn handed_upto(b: Seq<PlaceModel>, from: usize, to: usize, n: int) -> Seq<
    PlaceModel,
> {
    Seq::new(
        b.len(),
        |j: int|
            if j < n && b[j].owner == Some(from) {
                PlaceModel { owner: Some(to), ..b[j] }
            } else {
                b[j]
            },
    )
}

} // verus!
