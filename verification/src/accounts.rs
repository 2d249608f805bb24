use vstd::prelude::*;
use crate::dice_rolling::{DiceResult, UtilityDice};
use crate::events::EventModel;
use crate::investment::lemma_invest_laws;
use crate::liquidation::{
    lemma_liquid_bounds, lemma_liquid_value_bound, lemma_raise_laws, liquid_value, raise_outcome,
};
use crate::logs::{
    buys_text, gains_text, moves_text, pays_bank_text, pays_other_text, player_line_text,
};
use crate::places::landing_effect;
use crate::player::{Player, PlayerState};
use crate::board::most_expensive;
use crate::rules::{
    active_count, advanced, after_turn, arrived, fits, game_wf, invested_all, lemma_active_count,
    lemma_arrived, lemma_grown, lemma_invested_all, lemma_landing_fits, lemma_landing, lemma_logged, lemma_moved, lemma_resolved, lemma_settled,
    lemma_paid_bank, logged, moved, paid_bank, paid_other, acquired, resolved, roomy, settled, with_player, GameModel,
    Throw, JAIL_POSITION,
};

verus! {

/// Whether the bankrupt and the jailed are where they belong: a bankrupt
/// player has neither cash nor places, and a player in jail stands on the
/// jail place.
pub open spec fn settled_accounts(g: GameModel) -> bool {
    &&& forall|i: int|
        0 <= i < g.players.len() && (#[trigger] g.players[i]).state is Bankrupted
            ==> g.players[i].money == 0
    &&& forall|j: int|
        0 <= j < 40 ==> ((#[trigger] g.board[j]).owner matches Some(o) ==> !(g.players[o as int].state is Bankrupted))
    &&& forall|i: int|
        0 <= i < g.players.len() && (#[trigger] g.players[i]).state is InJail
            ==> g.players[i].position == JAIL_POSITION
}

/// Whether the player whose turn it is can be the subject of the event
/// without the accounts being upset: a bankrupt player is not rewarded, and
/// nobody pays a bankrupt player or himself.
pub open spec fn befits(g: GameModel, event: EventModel) -> bool {
    match event {
        EventModel::Reward(_, dollars) => !(g.players[g.turn as int].state is Bankrupted)
            || dollars == 0,
        EventModel::PayToOther(_, receiver, _) => receiver != g.turn && !(g.players[receiver as int].state is Bankrupted),
        _ => true,
    }
}

/// A payment to the bank leaves the accounts settled: a payer who goes
/// bankrupt over it loses his cash and his places.
pub proof fn lemma_paid_bank_accounts(g: GameModel, dollars: u32)
    requires
        game_wf(g),
        g.turn < g.players.len(),
        settled_accounts(g),
        g.players[g.turn as int].money + liquid_value(g.board, g.turn) <= u32::MAX,
    ensures
        settled_accounts(paid_bank(g, dollars)),
        forall|j: int|
            0 <= j < 40 ==> ((#[trigger] paid_bank(g, dollars).board[j]).owner == g.board[j].owner
                || paid_bank(g, dollars).board[j].owner is None),
        forall|i: int|
            0 <= i < g.players.len() && i != g.turn ==> (#[trigger] paid_bank(
                g,
                dollars,
            ).players[i]) == g.players[i],
{
    let t = g.turn as int;
    let me = g.players[t];
    let end = raise_outcome(g.board, g.turn, me.money as int, dollars as int);
    let after = paid_bank(g, dollars);
    lemma_payment(g, dollars);
    lemma_raise_laws(g.board, g.turn, me.money as int, dollars as int);
    lemma_paid_bank(g, dollars);
    assert forall|j: int| 0 <= j < 40 implies ((#[trigger] after.board[j]).owner matches Some(o)
        ==> !(after.players[o as int].state is Bankrupted)) by {
        if let Some(o) = after.board[j].owner {
            assert(end.board[j].owner == g.board[j].owner);
            assert(g.board[j].owner == Some(o));
            assert(!(g.players[o as int].state is Bankrupted));
        }
    }
    assert forall|i: int|
        0 <= i < after.players.len() && (#[trigger] after.players[i]).state is Bankrupted implies after.players[i].money
        == 0 by {
        if i != t {
            assert(g.players[i].state is Bankrupted);
        }
    }
    assert forall|i: int|
        0 <= i < after.players.len() && (#[trigger] after.players[i]).state is InJail implies after.players[i].position
        == JAIL_POSITION by {
        assert(g.players[i].state is InJail);
    }
}

/// A payment to another player leaves the accounts settled: a payer who
/// goes bankrupt over it loses his cash, and his places go to the receiver.
pub proof fn lemma_paid_other_accounts(g: GameModel, receiver: usize, dollars: u32)
    requires
        game_wf(g),
        fits(g, EventModel::PayToOther(Seq::empty(), receiver, dollars)),
        settled_accounts(g),
        receiver != g.turn,
        !(g.players[receiver as int].state is Bankrupted),
    ensures
        settled_accounts(paid_other(g, receiver, dollars)),
{
    let t = g.turn as int;
    let me = g.players[t];
    let after = paid_other(g, receiver, dollars);
    let end = raise_outcome(g.board, g.turn, me.money as int, dollars as int);
    lemma_payment(g, dollars);
    lemma_raise_laws(g.board, g.turn, me.money as int, dollars as int);
    assert(g.players[receiver as int].player_id == receiver);
    assert forall|j: int| 0 <= j < 40 implies ((#[trigger] after.board[j]).owner matches Some(o)
        ==> !(after.players[o as int].state is Bankrupted)) by {
        if let Some(o) = after.board[j].owner {
            assert(end.board[j].owner == g.board[j].owner);
            if g.board[j].owner == Some(g.turn) {
                assert(!(me.state is Bankrupted));
            } else {
                assert(g.board[j].owner == Some(o));
                assert(!(g.players[o as int].state is Bankrupted));
            }
        }
    }
    assert forall|i: int|
        0 <= i < after.players.len() && (#[trigger] after.players[i]).state is Bankrupted implies after.players[i].money
        == 0 by {
        if i != t {
            assert(g.players[i].state is Bankrupted);
        }
    }
    assert forall|i: int|
        0 <= i < after.players.len() && (#[trigger] after.players[i]).state is InJail implies after.players[i].position
        == JAIL_POSITION by {
        assert(g.players[i].state is InJail);
    }
}

/// A purchase leaves the accounts settled: a bankrupt buyer gets no place.
pub proof fn lemma_acquired_accounts(g: GameModel, place: usize, price: u32)
    requires
        game_wf(g),
        fits(g, EventModel::GivePlace(place, price)),
        settled_accounts(g),
    ensures
        settled_accounts(acquired(g, place, price)),
{
    let after = acquired(g, place, price);
    let name = g.board[place as int].name;
    let first = logged(g, buys_text(g.turn, name, price));
    lemma_logged(g, buys_text(g.turn, name, price));
    let noted = logged(first, pays_bank_text(g.turn, price, name));
    lemma_logged(first, pays_bank_text(g.turn, price, name));
    lemma_paid_bank_accounts(noted, price);
    lemma_paid_bank(noted, price);
    let paid = paid_bank(noted, price);
    assert forall|j: int| 0 <= j < 40 implies ((#[trigger] after.board[j]).owner matches Some(o)
        ==> !(after.players[o as int].state is Bankrupted)) by {
        if let Some(o) = after.board[j].owner {
            if j != place {
                assert(paid.board[j].owner == Some(o));
            }
        }
    }
}

/// A change of the player whose turn it is leaves the accounts settled if it
/// leaves him neither bankrupt with cash nor in jail away from it.
pub proof fn lemma_changed_accounts(g: GameModel, p: Player)
    requires
        game_wf(g),
        g.turn < g.players.len(),
        settled_accounts(g),
        p.state is Bankrupted ==> g.players[g.turn as int].state is Bankrupted && p.money == 0,
        p.state is InJail ==> p.position == JAIL_POSITION,
    ensures
        settled_accounts(with_player(g, g.turn as int, p)),
{
    let t = g.turn as int;
    let after = with_player(g, t, p);
    assert forall|i: int|
        0 <= i < after.players.len() && (#[trigger] after.players[i]).state is Bankrupted implies after.players[i].money
        == 0 by {
        if i != t {
            assert(g.players[i].state is Bankrupted);
        }
    }
    assert forall|i: int|
        0 <= i < after.players.len() && (#[trigger] after.players[i]).state is InJail implies after.players[i].position
        == JAIL_POSITION by {
        if i != t {
            assert(g.players[i].state is InJail);
        }
    }
    assert forall|j: int| 0 <= j < 40 implies ((#[trigger] after.board[j]).owner matches Some(o)
        ==> !(after.players[o as int].state is Bankrupted)) by {
        if let Some(o) = after.board[j].owner {
            assert(g.board[j].owner == Some(o));
            assert(o < g.players.len());
            assert(!(g.players[o as int].state is Bankrupted));
        }
    }
}

/// An event leaves the accounts settled: whoever goes bankrupt over it loses
/// his cash and his places, and whoever is bankrupt already gains nothing.
pub proof fn lemma_settled_accounts(g: GameModel, event: EventModel)
    requires
        game_wf(g),
        fits(g, event),
        settled_accounts(g),
        befits(g, event),
    ensures
        settled_accounts(settled(g, event)),
{
    let t = g.turn as int;
    let me = g.players[t];
    match event {
        EventModel::Nothing(msg) => {},
        EventModel::PayToBank(msg, dollars) => {
            lemma_logged(g, pays_bank_text(g.turn, dollars, msg));
            lemma_paid_bank_accounts(logged(g, pays_bank_text(g.turn, dollars, msg)), dollars);
        },
        EventModel::PayToOther(msg, receiver, dollars) => {
            lemma_logged(g, pays_other_text(g.turn, dollars, receiver, msg));
            lemma_paid_other_accounts(
                logged(g, pays_other_text(g.turn, dollars, receiver, msg)),
                receiver,
                dollars,
            );
        },
        EventModel::Reward(msg, dollars) => {
            let noted = logged(g, gains_text(g.turn, dollars, msg));
            lemma_logged(g, gains_text(g.turn, dollars, msg));
            lemma_changed_accounts(
                noted,
                Player { money: (me.money + dollars) as u32, ..me },
            );
        },
        EventModel::GivePlace(place, price) => {
            lemma_acquired_accounts(g, place, price);
        },
        EventModel::Move(_, _) => {},
        EventModel::GetJailed => {
            let noted = logged(g, player_line_text(g.turn, "Gets jailed."@));
            lemma_logged(g, player_line_text(g.turn, "Gets jailed."@));
            lemma_changed_accounts(
                noted,
                Player { state: PlayerState::InJail(0), position: JAIL_POSITION, ..me },
            );
        },
    }
}

/// What a payment does to the payer: he keeps his places and is no more
/// bankrupt than before if he pays, and a bankrupt payer who pays has paid
/// nothing; if he does not pay he is bankrupt without cash, and every place
/// that he still owns is mortgaged.
pub proof fn lemma_payment(g: GameModel, dollars: u32)
    requires
        game_wf(g),
        g.turn < g.players.len(),
        settled_accounts(g),
        g.players[g.turn as int].money + liquid_value(g.board, g.turn) <= u32::MAX,
    ensures
        ({
            let me = g.players[g.turn as int];
            let end = raise_outcome(g.board, g.turn, me.money as int, dollars as int);
            &&& forall|j: int| 0 <= j < 40 ==> (#[trigger] end.board[j]).owner == g.board[j].owner
            &&& me.state is Bankrupted ==> end.money == 0
            &&& 0 <= end.money <= u32::MAX
        }),
{
    let me = g.players[g.turn as int];
    let end = raise_outcome(g.board, g.turn, me.money as int, dollars as int);
    lemma_raise_laws(g.board, g.turn, me.money as int, dollars as int);
    lemma_liquid_bounds(g.board, g.turn);
    lemma_liquid_bounds(end.board, g.turn);
    lemma_liquid_value_bound(g.board, g.turn);
    if me.state is Bankrupted {
        assert forall|j: int| 0 <= j < 40 && g.board[j].owner == Some(g.turn) implies g.board[j].mortgaged by {
            assert(!(g.players[g.turn as int].state is Bankrupted));
        }
    }
}

/// A move leaves the accounts settled, unless it takes a bankrupt player
/// past Go or a player in jail away from it.
pub proof fn lemma_moved_accounts(g: GameModel, count: int, roll: DiceResult)
    requires
        game_wf(g),
        g.turn < g.players.len(),
        count >= 0,
        roll.valid(),
        roomy(g, 30_200),
        settled_accounts(g),
        !(g.players[g.turn as int].state is InJail),
        g.players[g.turn as int].state is Bankrupted ==> g.players[g.turn as int].position + count
            < 40,
    ensures
        settled_accounts(moved(g, count, roll)),
{
    let t = g.turn as int;
    let there = arrived(g, count);
    let here = there.players[t].position as int;
    let from = g.board[g.players[t].position as int];
    let line = moves_text(g.turn, from.name, there.board[here].name);
    let noted = logged(there, line);
    let event = landing_effect(there.board[here], g.turn, there.board, roll);
    assert(roomy(g, 200)) by {
        assert forall|i: int| 0 <= i < g.players.len() implies (#[trigger] g.players[i]).money + 200
            <= u32::MAX by {
            assert(g.players[i].money + 30_200 <= u32::MAX);
        }
    }
    lemma_arrived(g, count);
    assert(roomy(there, 30_000)) by {
        assert(roomy(there, 30_200 - 200));
    }
    lemma_landing(there.board, here, g.turn, roll);
    lemma_landing_fits(there, roll);
    lemma_logged(there, line);
    assert(settled_accounts(there));
    assert(settled_accounts(noted));
    assert(fits(noted, event));
    assert(befits(noted, event));
    lemma_settled_accounts(noted, event);
}

/// The moves of a turn leave the accounts settled.
pub proof fn lemma_resolved_accounts(g: GameModel, throws: Seq<Throw>, recursion: int)
    requires
        game_wf(g),
        g.turn < g.players.len(),
        0 <= recursion <= 3,
        throws.len() == 3,
        forall|k: int| 0 <= k < 3 ==> (#[trigger] throws[k]).valid(),
        roomy(g, (3 - recursion) * 60_000),
        settled_accounts(g),
    ensures
        settled_accounts(resolved(g, throws, recursion)),
    decreases 3 - recursion,
{
    let t = g.turn as int;
    let me = g.players[t];
    if recursion >= 3 {
        let noted = logged(g, player_line_text(g.turn, "Breaks the speed limit."@));
        lemma_logged(g, player_line_text(g.turn, "Breaks the speed limit."@));
        lemma_settled_accounts(noted, EventModel::GetJailed);
    } else {
        let throw = throws[recursion];
        assert(throw.valid());
        let steps = throw.movement.total() as int;
        assert(roomy(g, 60_000)) by {
            assert forall|i: int| 0 <= i < g.players.len() implies (#[trigger] g.players[i]).money
                + 60_000 <= u32::MAX by {
                assert(g.players[i].money + (3 - recursion) * 60_000 <= u32::MAX);
            }
        }
        match me.state {
            PlayerState::Active => {
                let after = moved(g, steps, throw.rent);
                lemma_moved(g, steps, throw.rent);
                lemma_moved_accounts(g, steps, throw.rent);
                if throw.movement is Same && !(after.players[t].state is InJail) {
                    lemma_grown(g, after, after, 30_200, 0);
                    assert(roomy(after, (3 - (recursion + 1)) * 60_000)) by {
                        assert(roomy(after, (3 - recursion) * 60_000 - 30_200));
                    }
                    lemma_resolved_accounts(after, throws, recursion + 1);
                }
            },
            PlayerState::Bankrupted => {
                lemma_logged(g, player_line_text(g.turn, "Already bankrupted."@));
            },
            PlayerState::InJail(served) => {
                let free = with_player(g, t, Player { state: PlayerState::Active, ..me });
                assert(game_wf(free));
                lemma_changed_accounts(g, Player { state: PlayerState::Active, ..me });
                assert(roomy(free, 60_000)) by {
                    assert forall|i: int| 0 <= i < free.players.len() implies (
                    #[trigger] free.players[i]).money + 60_000 <= u32::MAX by {
                        assert(g.players[i].money + 60_000 <= u32::MAX);
                    }
                }
                if throw.movement is Same {
                    let noted = logged(free, player_line_text(g.turn, "Leaves the jail."@));
                    lemma_logged(free, player_line_text(g.turn, "Leaves the jail."@));
                    assert(roomy(noted, 30_200)) by {
                        assert(roomy(free, 30_200));
                    }
                    lemma_moved_accounts(noted, steps, throw.rent);
                } else if served == 2 {
                    let noted = logged(
                        free,
                        player_line_text(g.turn, "Completes their term of jail."@),
                    );
                    lemma_logged(free, player_line_text(g.turn, "Completes their term of jail."@));
                    let fee = EventModel::PayToBank("Jail fee"@, 50);
                    lemma_liquid_value_bound(noted.board, noted.turn);
                    assert(noted.players[t].money + 60_000 <= u32::MAX);
                    lemma_settled(noted, fee);
                    lemma_settled_accounts(noted, fee);
                    let paid = settled(noted, fee);
                    lemma_grown(noted, paid, paid, 28_050, 0);
                    assert(roomy(paid, 30_200)) by {
                        assert(roomy(paid, 60_000 - 28_050));
                    }
                    assert(paid.players[t].position == JAIL_POSITION);
                    assert(!(paid.players[t].state is InJail));
                    lemma_moved_accounts(paid, steps, throw.rent);
                } else {
                    let stays = with_player(
                        g,
                        t,
                        Player { state: PlayerState::InJail((served + 1) as u8), ..me },
                    );
                    lemma_changed_accounts(
                        g,
                        Player { state: PlayerState::InJail((served + 1) as u8), ..me },
                    );
                }
            },
        }
    }
}

/// Investing leaves the accounts settled: a bankrupt player has nothing to
/// invest.
pub proof fn lemma_invested_accounts(g: GameModel, exposures: Seq<UtilityDice>, n: int)
    requires
        game_wf(g),
        0 <= n <= g.players.len(),
        settled_accounts(g),
    ensures
        settled_accounts(invested_all(g, exposures, n)),
        forall|i: int|
            0 <= i < g.players.len() ==> (#[trigger] invested_all(g, exposures, n).players[i]).position
                == g.players[i].position,
        forall|j: int|
            0 <= j < 40 ==> (#[trigger] invested_all(g, exposures, n).board[j]).owner
                == g.board[j].owner,
    decreases n,
{
    if n > 0 {
        let before = invested_all(g, exposures, n - 1);
        lemma_invested_accounts(g, exposures, n - 1);
        lemma_invested_all(g, exposures, n - 1);
        lemma_invested_all(g, exposures, n);
        let me = before.players[n - 1];
        let exposure = most_expensive(before.board, me.player_id, exposures[n - 1], 40) as int;
        if me.money > exposure {
            lemma_invest_laws(before.board, me.player_id, me.money as int, me.money - exposure);
        }
        let after = invested_all(g, exposures, n);
        assert forall|i: int| 0 <= i < g.players.len() implies (#[trigger] after.players[i]).position
            == g.players[i].position by {
            assert(before.players[i].position == g.players[i].position);
        }
        assert forall|j: int| 0 <= j < 40 implies (#[trigger] after.board[j]).owner
            == g.board[j].owner by {
            assert(before.board[j].owner == g.board[j].owner);
        }
        assert forall|i: int|
            0 <= i < after.players.len() && (#[trigger] after.players[i]).state is Bankrupted implies after.players[i].money
            == 0 by {
            assert(before.players[i].state == g.players[i].state);
            assert(before.players[i].state is Bankrupted);
        }
        assert forall|i: int|
            0 <= i < after.players.len() && (#[trigger] after.players[i]).state is InJail implies after.players[i].position
            == JAIL_POSITION by {
            assert(g.players[i].state is InJail);
        }
        assert forall|j: int| 0 <= j < 40 implies ((#[trigger] after.board[j]).owner matches Some(o)
            ==> !(after.players[o as int].state is Bankrupted)) by {
            if let Some(o) = after.board[j].owner {
                assert(g.board[j].owner == Some(o));
                assert(!(g.players[o as int].state is Bankrupted));
            }
        }
    }
}

/// A turn leaves the accounts settled: bankruptcy is for good. A bankrupt
/// player has neither cash nor places when the turn starts, and has neither
/// when it ends; and whoever is in jail stands on the jail place.
pub proof fn lemma_after_turn_accounts(
    g: GameModel,
    throws: Seq<Throw>,
    exposures: Seq<UtilityDice>,
)
    requires
        game_wf(g),
        throws.len() == 3,
        forall|k: int| 0 <= k < 3 ==> (#[trigger] throws[k]).valid(),
        roomy(g, 180_000),
        settled_accounts(g),
    ensures
        settled_accounts(after_turn(g, throws, exposures)),
{
    if active_count(g.players, g.players.len() as int) > 1 {
        lemma_active_count(g.players, g.players.len() as int);
        let played = resolved(g, throws, 0);
        lemma_resolved(g, throws, 0);
        lemma_resolved_accounts(g, throws, 0);
        if active_count(played.players, played.players.len() as int) > 1 {
            let n = played.players.len() as int;
            lemma_invested_all(played, exposures, n);
            lemma_invested_accounts(played, exposures, n);
            let done = invested_all(played, exposures, n);
            assert(settled_accounts(advanced(done)));
        } else {
            assert(settled_accounts(advanced(played)));
        }
    }
}

} // verus!
