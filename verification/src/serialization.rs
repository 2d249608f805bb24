use vstd::prelude::*;
use crate::board::{board_wf, fresh_board, lemma_place_shape, place_wf, Board};
use crate::dice_rolling::DiceResult;
use crate::game::MonopolyGame;
use crate::logs::same_text;
use crate::places::{
    lemma_standard_shape, rent_of, standard_place, BoardColor, BoardPlace, OwnablePlace, Place,
    PlaceModel,
};
use crate::player::{Player, PlayerState};
use crate::rules::{game_wf, GameModel};
use crate::strategy::{ExpensiveHousesProtectionStrategy, PlayerStrategy};

verus! {

/// A game as it is written down: whose turn it is, the players, and the
/// places that can be owned.
pub struct GameInfo {
    pub turn: usize,
    pub players: Vec<PlayerInfo>,
    pub places: Vec<PlaceInfo>,
}

/// A player as he is written down. `jail_turn` is absent unless he is in jail.
#[derive(Clone, Copy, Debug, PartialEq, Eq, Structural)]
pub struct PlayerInfo {
    pub player_id: usize,
    pub money: u32,
    pub is_bankrupted: bool,
    pub jail_turn: Option<u8>,
    pub position: usize,
}

/// A place that can be owned, as it is written down. `owner` is absent when
/// the place has none, `houses` when none can be built on it.
#[derive(Clone, Copy, Debug, PartialEq, Eq, Structural)]
pub struct PlaceInfo {
    pub place_id: usize,
    pub owner: Option<usize>,
    pub is_mortgaged: bool,
    pub houses: Option<u8>,
}

/// What a place is and what it asks, to be shown.
pub struct PlaceProp {
    pub place_id: usize,
    pub name: String,
    pub color: BoardColor,
    pub price: Option<u32>,
    pub house_price: Option<u32>,
    pub rent: Option<u32>,
}

/// A written game, with its lists as sequences.
pub struct GameInfoModel {
    pub turn: usize,
    pub players: Seq<PlayerInfo>,
    pub places: Seq<PlaceInfo>,
}

impl View for GameInfo {
    type V = GameInfoModel;

    open spec fn view(&self) -> GameInfoModel {
        GameInfoModel { turn: self.turn, players: self.players@, places: self.places@ }
    }
}

/// The player that `info` describes, with the strategy `strategy`.
pub open spec fn player_of<S: PlayerStrategy>(info: PlayerInfo, strategy: S) -> Player<S> {
    Player {
        player_id: info.player_id,
        money: info.money,
        state: if info.is_bankrupted {
            PlayerState::Bankrupted
        } else {
            match info.jail_turn {
                Some(served) => PlayerState::InJail(served),
                None => PlayerState::Active,
            }
        },
        position: info.position,
        strategy,
    }
}

/// What is written down of the player `p`.
pub open spec fn info_of_player<S: PlayerStrategy>(p: Player<S>) -> PlayerInfo {
    PlayerInfo {
        player_id: p.player_id,
        money: p.money,
        is_bankrupted: p.state is Bankrupted,
        jail_turn: match p.state {
            PlayerState::InJail(served) => Some(served),
            _ => None,
        },
        position: p.position,
    }
}

/// What is written down of the place `m`.
pub open spec fn info_of_place(m: PlaceModel) -> PlaceInfo {
    PlaceInfo { place_id: m.id, owner: m.owner, is_mortgaged: m.mortgaged, houses: m.houses }
}

/// Whether `info` can be read into a board: it names a place that can be
/// owned, and houses, five at most, only where they can be built.
pub open spec fn place_info_fits(info: PlaceInfo) -> bool {
    &&& info.place_id < 40
    &&& standard_place(info.place_id as int).is_property()
    &&& info.houses matches Some(h) ==> (standard_place(info.place_id as int).is_estate() && h
        <= 5)
}

/// The board `b` after `info` was read into it: the place that it names gets
/// its mortgage, and its owner and houses where they are given.
pub open spec fn with_info(b: Seq<PlaceModel>, info: PlaceInfo) -> Seq<PlaceModel> {
    let at = info.place_id as int;
    b.update(
        at,
        PlaceModel {
            owner: if info.owner is Some {
                info.owner
            } else {
                b[at].owner
            },
            houses: if info.houses is Some {
                info.houses
            } else {
                b[at].houses
            },
            mortgaged: info.is_mortgaged,
            ..b[at]
        },
    )
}

/// The board that the first `n` of `infos` describe: the untouched board with
/// each of them read into it, one after another.
pub open spec fn restored(infos: Seq<PlaceInfo>, n: int) -> Seq<PlaceModel>
    decreases n,
{
    if n <= 0 {
        fresh_board()
    } else {
        with_info(restored(infos, n - 1), infos[n - 1])
    }
}

/// What is written down of the first `n` places of the board `b`: the places
/// that can be owned, in the order of the board.
pub open spec fn infos_of(b: Seq<PlaceModel>, n: int) -> Seq<PlaceInfo>
    decreases n,
{
    if n <= 0 {
        Seq::empty()
    } else if b[n - 1].is_property() {
        infos_of(b, n - 1).push(info_of_place(b[n - 1]))
    } else {
        infos_of(b, n - 1)
    }
}

/// The game that `info` describes, with nothing in its log.
pub open spec fn game_of(info: GameInfoModel) -> GameModel {
    GameModel {
        players: Seq::new(
            info.players.len(),
            |i: int| player_of(info.players[i], ExpensiveHousesProtectionStrategy {  }),
        ),
        board: restored(info.places, info.places.len() as int),
        turn: info.turn,
        logs: Seq::empty(),
    }
}

/// What is written down of the game `g`.
pub open spec fn info_of(g: GameModel) -> GameInfoModel {
    GameInfoModel {
        turn: g.turn,
        players: Seq::new(g.players.len(), |i: int| info_of_player(g.players[i])),
        places: infos_of(g.board, g.board.len() as int),
    }
}

/// Whether `info` describes a game that can be played: no player is both
/// bankrupt and in jail, every place is one that can be read, and the game
/// that comes out is a game.
pub open spec fn info_fits(info: GameInfoModel) -> bool {
    &&& forall|i: int|
        0 <= i < info.players.len() ==> !((#[trigger] info.players[i]).is_bankrupted
            && info.players[i].jail_turn is Some)
    &&& forall|k: int| 0 <= k < info.places.len() ==> place_info_fits(#[trigger] info.places[k])
    &&& game_wf(game_of(info))
}

/// What is read depends only on what was written so far.
pub proof fn lemma_restored_prefix(infos: Seq<PlaceInfo>, more: Seq<PlaceInfo>, n: int)
    requires
        0 <= n <= infos.len() <= more.len(),
        forall|k: int| 0 <= k < infos.len() ==> more[k] == infos[k],
    ensures
        restored(more, n) == restored(infos, n),
    decreases n,
{
    if n > 0 {
        lemma_restored_prefix(infos, more, n - 1);
    }
}

/// The board `b` on its first `n` places, untouched on the rest.
pub open spec fn played_upto(b: Seq<PlaceModel>, n: int) -> Seq<PlaceModel> {
    Seq::new(
        40,
        |j: int|
            if j < n {
                b[j]
            } else {
                standard_place(j)
            },
    )
}

/// Writing the first `n` places of a board down and reading them again gives
/// those places back, on a board that is untouched otherwise.
pub proof fn lemma_board_round_trip(b: Seq<PlaceModel>, n: int)
    requires
        board_wf(b),
        0 <= n <= 40,
    ensures
        restored(infos_of(b, n), infos_of(b, n).len() as int) == played_upto(b, n),
        infos_of(b, n).len() <= n,
        forall|k: int| 0 <= k < infos_of(b, n).len() ==> place_info_fits(#[trigger] infos_of(b, n)[k]),
    decreases n,
{
    if n <= 0 {
        assert(fresh_board() =~= played_upto(b, 0));
    } else {
        lemma_board_round_trip(b, n - 1);
        let before = infos_of(b, n - 1);
        let m = b[n - 1];
        assert(place_wf(m, n - 1));
        lemma_standard_shape(n - 1);
        lemma_place_shape(b, n - 1);
        if m.is_property() {
            let all = infos_of(b, n);
            lemma_restored_prefix(before, all, before.len() as int);
            assert(restored(all, all.len() as int) == with_info(
                restored(all, before.len() as int),
                info_of_place(m),
            ));
            assert(with_info(played_upto(b, n - 1), info_of_place(m)) =~= played_upto(b, n));
        } else {
            assert(played_upto(b, n - 1) =~= played_upto(b, n));
        }
    }
}

/// A game that is written down and read again is the same game but for its
/// log, which is not written: the same turn, the same players, and the same
/// owner, mortgage and houses on every place.
pub proof fn lemma_round_trip(g: GameModel)
    requires
        game_wf(g),
    ensures
        info_fits(info_of(g)),
        game_of(info_of(g)) == (GameModel { logs: Seq::empty(), ..g }),
{
    let info = info_of(g);
    lemma_board_round_trip(g.board, 40);
    assert(played_upto(g.board, 40) =~= g.board);
    assert(game_of(info).players =~= g.players) by {
        assert forall|i: int| 0 <= i < g.players.len() implies player_of(
            info_of_player(g.players[i]),
            ExpensiveHousesProtectionStrategy {  },
        ) == g.players[i] by {
            assert(g.players[i].strategy == ExpensiveHousesProtectionStrategy {  });
        }
    }
}

impl<S: PlayerStrategy> Player<S> {
    /// Makes the player that `info` describes, with the strategy `strategy`.
    pub fn from_info(info: &PlayerInfo, strategy: S) -> (player: Player<S>)
        requires
            !(info.is_bankrupted && info.jail_turn is Some),
        ensures
            player == player_of(*info, strategy),
    {
        let mut player = Player::new(info.player_id, strategy);
        player.money = info.money;
        if info.is_bankrupted {
            player.state = PlayerState::Bankrupted;
        } else {
            player.state = if let Some(jail_turn) = info.jail_turn {
                PlayerState::InJail(jail_turn)
            } else {
                PlayerState::Active
            };
        }
        player.position = info.position;
        player
    }

    /// Writes the player down.
    pub fn get_info(&self) -> (info: PlayerInfo)
        ensures
            info == info_of_player(*self),
    {
        let (is_bankrupted, jail_turn) = match self.state {
            PlayerState::Active => (false, None),
            PlayerState::Bankrupted => (true, None),
            PlayerState::InJail(turn) => (false, Some(turn)),
        };
        PlayerInfo {
            player_id: self.player_id,
            money: self.money,
            is_bankrupted,
            jail_turn,
            position: self.position,
        }
    }
}

/// Tells whether a cell of a table says yes.
pub fn says_yes(cell: &str) -> (yes: bool)
    ensures
        yes == (cell@ == "yes"@),
{
    same_text(cell, "yes")
}

impl PlayerInfo {
    /// Reads a player from a row of a table: his number, his cash, whether he
    /// is bankrupt ("yes" or anything else), the turns that he has spent in
    /// jail (negative when he is free), and the place where he stands. A
    /// number that its field cannot hold is cut down to the field's width.
    pub fn from_row(
        player_id: i64,
        money: i64,
        is_bankrupted: &str,
        jail_turn: i64,
        position: i64,
    ) -> (info: PlayerInfo)
        ensures
            info == (PlayerInfo {
                player_id: player_id as usize,
                money: money as u32,
                is_bankrupted: is_bankrupted@ == "yes"@,
                jail_turn: if jail_turn >= 0 {
                    Some(jail_turn as u8)
                } else {
                    None
                },
                position: position as usize,
            }),
    {
        PlayerInfo {
            player_id: #[verifier::truncate]
            (player_id as usize),
            money: #[verifier::truncate]
            (money as u32),
            is_bankrupted: says_yes(is_bankrupted),
            jail_turn: if jail_turn >= 0 {
                Some(#[verifier::truncate] (jail_turn as u8))
            } else {
                None
            },
            position: #[verifier::truncate]
            (position as usize),
        }
    }
}

impl PlaceInfo {
    /// Reads a place from a row of a table: its position, its owner (negative
    /// when it has none), whether it is mortgaged ("yes" or anything else),
    /// and its houses (negative where none can be built). A number that its
    /// field cannot hold is cut down to the field's width.
    pub fn from_row(place_id: i64, owner: i64, is_mortgaged: &str, houses: i64) -> (info:
        PlaceInfo)
        ensures
            info == (PlaceInfo {
                place_id: place_id as usize,
                owner: if owner >= 0 {
                    Some(owner as usize)
                } else {
                    None
                },
                is_mortgaged: is_mortgaged@ == "yes"@,
                houses: if houses >= 0 {
                    Some(houses as u8)
                } else {
                    None
                },
            }),
    {
        PlaceInfo {
            place_id: #[verifier::truncate]
            (place_id as usize),
            owner: if owner >= 0 {
                Some(#[verifier::truncate] (owner as usize))
            } else {
                None
            },
            is_mortgaged: says_yes(is_mortgaged),
            houses: if houses >= 0 {
                Some(#[verifier::truncate] (houses as u8))
            } else {
                None
            },
        }
    }

    /// Tells whether the place can be read into a board.
    pub fn is_fit(&self) -> (ok: bool)
        ensures
            ok == place_info_fits(*self),
    {
        if self.place_id >= 40 {
            return false;
        }
        let board = Board::new();
        let place = &board.places[self.place_id];
        assert(place.model() == board@[self.place_id as int]);
        if !place.is_property() {
            return false;
        }
        match self.houses {
            Some(h) => place.is_estate() && h <= 5,
            None => true,
        }
    }
}

impl Board {
    /// Makes the board that `infos` describe: the untouched board with each of
    /// them read into it, one after another.
    pub fn from_infos(infos: &Vec<PlaceInfo>) -> (board: Board)
        requires
            forall|k: int| 0 <= k < infos@.len() ==> place_info_fits(#[trigger] infos@[k]),
        ensures
            board@ == restored(infos@, infos@.len() as int),
            board.wf(),
    {
        let mut board = Board::new();
        let mut k: usize = 0;
        while k < infos.len()
            invariant
                k <= infos@.len(),
                forall|j: int| 0 <= j < infos@.len() ==> place_info_fits(#[trigger] infos@[j]),
                board.wf(),
                board@ == restored(infos@, k as int),
            decreases infos@.len() - k,
        {
            let info = &infos[k];
            assert(place_info_fits(*info));
            let ghost before = board@;
            proof {
                lemma_standard_shape(info.place_id as int);
                lemma_place_shape(board@, info.place_id as int);
                assert(place_wf(board@[info.place_id as int], info.place_id as int));
            }
            if let Some(owner) = info.owner {
                board.set_owner(info.place_id, Some(owner));
            }
            if let Some(houses) = info.houses {
                board.set_num_houses(info.place_id, houses);
            }
            board.set_mortgaged(info.place_id, info.is_mortgaged);
            assert(board@ =~= with_info(before, *info));
            k += 1;
        }
        board
    }

    /// Writes the board down: the places that can be owned, in the order of
    /// the board.
    pub fn get_infos(&self) -> (infos: Vec<PlaceInfo>)
        requires
            self.wf(),
        ensures
            infos@ == infos_of(self@, 40),
    {
        let mut infos: Vec<PlaceInfo> = Vec::new();
        let mut i: usize = 0;
        while i < self.places.len()
            invariant
                self.wf(),
                i <= 40,
                infos@ == infos_of(self@, i as int),
            decreases 40 - i,
        {
            let place = &self.places[i];
            assert(place.model() == self@[i as int]);
            if place.is_property() {
                infos.push(
                    PlaceInfo {
                        place_id: place.get_id(),
                        owner: place.get_owner(),
                        is_mortgaged: place.is_mortgaged(),
                        houses: place.get_num_houses(),
                    },
                );
            }
            i += 1;
        }
        infos
    }
}

impl Place {
    /// Says what the place is and what it asks, to be shown; `roll` is the
    /// throw that a utility multiplies.
    pub fn to_place_prop(&self, board: &Board, roll: DiceResult) -> (prop: PlaceProp)
        requires
            board.wf(),
            self.model().id < 40,
            board@[self.model().id as int] == self.model(),
            roll.valid(),
        ensures
            prop.place_id == self.model().id,
            prop.name@ == self.model().name,
            prop.color == self.model().color,
            prop.price == if self.model().is_property() {
                Some(self.model().price)
            } else {
                None
            },
            prop.house_price == self.model().house_price,
            prop.rent == rent_of(self.model(), board@, roll),
    {
        let place_id = self.get_id();
        let name = String::from_str(self.get_place_name());
        let color = self.get_color();
        let price = if self.is_property() {
            Some(self.get_price())
        } else {
            None
        };
        let house_price = self.get_price_of_house();
        let rent = self.get_rent(board, roll);
        PlaceProp { place_id, name, color, price, house_price, rent }
    }
}

impl GameInfo {
    /// Tells whether the written game can be read: no player is both
    /// bankrupt and in jail, every place is one that can be read, and the game
    /// that comes out is one that can be played.
    pub fn is_fit(&self) -> (ok: bool)
        ensures
            ok == info_fits(self@),
    {
        match MonopolyGame::try_from_info(self) {
            Some(_) => true,
            None => false,
        }
    }
}

impl MonopolyGame {
    /// Reads a written game, if it describes one that can be played.
    pub fn try_from_info(game_info: &GameInfo) -> (game: Option<MonopolyGame>)
        ensures
            game is Some <==> info_fits(game_info@),
            game matches Some(g) ==> g@ == game_of(game_info@) && g.wf(),
    {
        let mut players: Vec<Player> = Vec::new();
        let mut i: usize = 0;
        while i < game_info.players.len()
            invariant
                i <= game_info.players@.len(),
                players@.len() == i,
                forall|j: int|
                    0 <= j < i ==> !((#[trigger] game_info.players@[j]).is_bankrupted
                        && game_info.players@[j].jail_turn is Some),
                forall|j: int| 0 <= j < i ==> (#[trigger] players@[j]) == player_of(
                    game_info.players@[j],
                    ExpensiveHousesProtectionStrategy {  },
                ),
            decreases game_info.players@.len() - i,
        {
            let info = &game_info.players[i];
            if info.is_bankrupted && info.jail_turn.is_some() {
                return None;
            }
            players.push(Player::from_info(info, ExpensiveHousesProtectionStrategy::new()));
            i += 1;
        }
        let mut k: usize = 0;
        while k < game_info.places.len()
            invariant
                k <= game_info.places@.len(),
                forall|j: int| 0 <= j < k ==> place_info_fits(#[trigger] game_info.places@[j]),
            decreases game_info.places@.len() - k,
        {
            if !game_info.places[k].is_fit() {
                return None;
            }
            k += 1;
        }
        let board = Board::from_infos(&game_info.places);
        let game = MonopolyGame { players, board, turn: game_info.turn, logs: Vec::new() };
        assert(game@.players =~= game_of(game_info@).players);
        assert(game@.logs =~= game_of(game_info@).logs);
        if game.is_well_formed() {
            Some(game)
        } else {
            None
        }
    }

    /// Reads a written game.
    pub fn from_info(game_info: &GameInfo) -> (game: MonopolyGame)
        requires
            info_fits(game_info@),
        ensures
            game@ == game_of(game_info@),
            game.wf(),
    {
        let mut players: Vec<Player> = Vec::new();
        let mut i: usize = 0;
        while i < game_info.players.len()
            invariant
                info_fits(game_info@),
                i <= game_info.players@.len(),
                players@.len() == i,
                forall|j: int| 0 <= j < i ==> (#[trigger] players@[j]) == player_of(
                    game_info.players@[j],
                    ExpensiveHousesProtectionStrategy {  },
                ),
            decreases game_info.players@.len() - i,
        {
            let info = &game_info.players[i];
            players.push(Player::from_info(info, ExpensiveHousesProtectionStrategy::new()));
            i += 1;
        }
        let board = Board::from_infos(&game_info.places);
        let game = MonopolyGame { players, board, turn: game_info.turn, logs: Vec::new() };
        assert(game@.players =~= game_of(game_info@).players);
        assert(game@.logs =~= game_of(game_info@).logs);
        game
    }

    /// Writes the game down.
    pub fn get_info(&self) -> (info: GameInfo)
        requires
            self.wf(),
        ensures
            info@ == info_of(self@),
            info_fits(info@),
            game_of(info@) == (GameModel { logs: Seq::empty(), ..self@ }),
    {
        let mut players: Vec<PlayerInfo> = Vec::new();
        let mut i: usize = 0;
        while i < self.players.len()
            invariant
                i <= self.players@.len(),
                players@.len() == i,
                forall|j: int| 0 <= j < i ==> (#[trigger] players@[j]) == info_of_player(
                    self.players@[j],
                ),
            decreases self.players@.len() - i,
        {
            players.push(self.players[i].get_info());
            i += 1;
        }
        let places = self.board.get_infos();
        let info = GameInfo { turn: self.turn, players, places };
        assert(info@.players =~= info_of(self@).players);
        proof {
            lemma_round_trip(self@);
        }
        info
    }
}

} // verus!
