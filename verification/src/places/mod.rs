pub mod chance;
pub mod community_chest;
pub mod estate;
pub mod go_to_jail;
pub mod income_tax;
pub mod luxury_tax;
pub mod nothing;
pub mod railroad;
pub mod utilities;

use vstd::prelude::*;
use crate::board::{Board, board_wf, count_owned, is_monopolized};
use crate::dice_rolling::DiceResult;
use vstd::string::StringExecFns;
use crate::events::{EventKind, EventModel};
use crate::logs::{decimal, decimal_text};
use crate::places::chance::Chance;
use crate::places::community_chest::CommunityChest;
use crate::places::estate::Estate;
use crate::places::go_to_jail::GoToJail;
use crate::places::income_tax::IncomeTax;
use crate::places::luxury_tax::LuxuryTax;
use crate::places::nothing::Nothing;
use crate::places::railroad::Railroad;
use crate::places::utilities::Utilities;

verus! {

/// The group that a place belongs to. Places that nobody can own are neutral.
#[derive(Clone, Copy, Debug, PartialEq, Eq, Hash, Structural)]
pub enum BoardColor {
    Neutral,
    Railroad,
    Utilities,
    Brown,
    LightBlue,
    LightPurple,
    Orange,
    Red,
    Yellow,
    Green,
    Blue,
}

impl BoardColor {
    /// Whether houses can stand on places of this color.
    pub open spec fn is_estate(self) -> bool {
        self != BoardColor::Neutral && self != BoardColor::Railroad && self != BoardColor::Utilities
    }

    /// The colors on which houses can be built, in the order of the board.
    pub open spec fn estate_colors() -> Seq<BoardColor> {
        seq![
            BoardColor::Brown,
            BoardColor::LightBlue,
            BoardColor::LightPurple,
            BoardColor::Orange,
            BoardColor::Red,
            BoardColor::Yellow,
            BoardColor::Green,
            BoardColor::Blue,
        ]
    }

    /// The colors of the places that can be owned: railroads and utilities
    /// first, then the estate colors in the order of the board.
    pub open spec fn property_colors() -> Seq<BoardColor> {
        seq![BoardColor::Railroad, BoardColor::Utilities] + Self::estate_colors()
    }

    /// Lists the colors on which houses can be built, in the order of the board.
    pub fn get_estate_colors() -> (colors: Vec<BoardColor>)
        ensures
            colors@ == Self::estate_colors(),
    {
        let colors = vec![
            BoardColor::Brown,
            BoardColor::LightBlue,
            BoardColor::LightPurple,
            BoardColor::Orange,
            BoardColor::Red,
            BoardColor::Yellow,
            BoardColor::Green,
            BoardColor::Blue,
        ];
        assert(colors@ =~= Self::estate_colors());
        colors
    }

    /// Lists the colors of the places that can be owned.
    pub fn get_property_colors() -> (colors: Vec<BoardColor>)
        ensures
            colors@ == Self::property_colors(),
    {
        let colors = vec![
            BoardColor::Railroad,
            BoardColor::Utilities,
            BoardColor::Brown,
            BoardColor::LightBlue,
            BoardColor::LightPurple,
            BoardColor::Orange,
            BoardColor::Red,
            BoardColor::Yellow,
            BoardColor::Green,
            BoardColor::Blue,
        ];
        assert(colors@ =~= Self::property_colors());
        colors
    }
}

/// The sort of a place: what happens to a player who lands on it.
pub enum PlaceKind {
    Nothing,
    Estate,
    Railroad,
    Utilities,
    IncomeTax,
    LuxuryTax,
    Chance,
    CommunityChest,
    GoToJail,
}

/// Everything that is known of one place, as a mathematical record.
///
/// `price` is 0 and `rents` is empty where the place has none; `houses` is
/// `None` where no house can be built.
pub struct PlaceModel {
    pub id: usize,
    pub kind: PlaceKind,
    pub name: Seq<char>,
    pub color: BoardColor,
    pub price: u32,
    pub house_price: Option<u32>,
    pub rents: Seq<u32>,
    pub owner: Option<usize>,
    pub houses: Option<u8>,
    pub mortgaged: bool,
}

impl PlaceModel {
    /// Whether the place can be owned.
    pub open spec fn is_property(self) -> bool {
        self.color != BoardColor::Neutral
    }

    /// Whether houses can be built on the place.
    pub open spec fn is_estate(self) -> bool {
        self.color.is_estate()
    }

    /// The number of houses on the place; none where none can be built.
    pub open spec fn house_count(self) -> nat {
        match self.houses {
            Some(h) => h as nat,
            None => 0,
        }
    }

    /// What the bank lends on the place: half of its price.
    pub open spec fn mortgage_value(self) -> nat {
        (self.price / 2) as nat
    }

    /// What the sale of one house brings: half of its price.
    pub open spec fn house_resale(self) -> nat {
        match self.house_price {
            Some(p) => (p / 2) as nat,
            None => 0,
        }
    }

    /// What the sale of all the houses on the place brings: half of their price.
    pub open spec fn house_equity(self) -> nat {
        if self.house_count() == 0 {
            0
        } else {
            self.house_count() * self.house_resale()
        }
    }

    /// What lifting the mortgage costs: 110% of the mortgage value, rounded down.
    pub open spec fn return_cost(self) -> nat {
        (self.price / 2 * 11 / 10) as nat
    }

    /// The place as it is when nobody has touched it.
    pub open spec fn pristine(self) -> PlaceModel {
        PlaceModel {
            owner: None,
            houses: if self.kind is Estate {
                Some(0u8)
            } else {
                None
            },
            mortgaged: false,
            ..self
        }
    }

    /// Whether `self` is `other` but for its owner, its houses and its mortgage.
    pub open spec fn same_place(self, other: PlaceModel) -> bool {
        self == (PlaceModel {
            owner: self.owner,
            houses: self.houses,
            mortgaged: self.mortgaged,
            ..other
        })
    }
}

/// A place that nobody can own.
pub open spec fn simple_model(id: usize, kind: PlaceKind, name: Seq<char>) -> PlaceModel {
    PlaceModel {
        id,
        kind,
        name,
        color: BoardColor::Neutral,
        price: 0,
        house_price: None,
        rents: Seq::empty(),
        owner: None,
        houses: None,
        mortgaged: false,
    }
}

/// A railroad or a utility that nobody owns yet.
pub open spec fn owned_model(id: usize, kind: PlaceKind, name: Seq<char>) -> PlaceModel {
    PlaceModel {
        id,
        kind,
        name,
        color: if kind is Railroad {
            BoardColor::Railroad
        } else {
            BoardColor::Utilities
        },
        price: if kind is Railroad {
            200
        } else {
            150
        },
        house_price: None,
        rents: Seq::empty(),
        owner: None,
        houses: None,
        mortgaged: false,
    }
}

/// An estate that nobody owns yet.
pub open spec fn estate_model(
    id: usize,
    color: BoardColor,
    name: Seq<char>,
    price: u32,
    house_price: u32,
    rents: Seq<u32>,
) -> PlaceModel {
    PlaceModel {
        id,
        kind: PlaceKind::Estate,
        name,
        color,
        price,
        house_price: Some(house_price),
        rents,
        owner: None,
        houses: Some(0u8),
        mortgaged: false,
    }
}

/// A railroad's rent, by the number of railroads that its owner holds unmortgaged.
pub open spec fn railroad_rent(owned: nat) -> u32 {
    if owned <= 1 {
        25
    } else if owned == 2 {
        50
    } else if owned == 3 {
        100
    } else {
        200
    }
}

/// A utility's rent for a throw of the dice, by the number of utilities that
/// its owner holds unmortgaged: four times the throw, or ten times with both.
pub open spec fn utility_rent(owned: nat, roll: DiceResult) -> u32 {
    if owned <= 1 {
        (roll.total() * 4) as u32
    } else {
        (roll.total() * 10) as u32
    }
}

/// An estate's rent: the entry of its table for its houses, one further when
/// its color is in one hand.
pub open spec fn estate_rent(m: PlaceModel, b: Seq<PlaceModel>) -> u32 {
    m.rents[(if is_monopolized(b, m.color) {
        1int
    } else {
        0int
    }) + m.house_count()]
}

/// The rent that the place `m` of the board `b` charges now, `roll` being the throw
/// that a utility multiplies.
pub open spec fn current_rent(m: PlaceModel, b: Seq<PlaceModel>, roll: DiceResult) -> u32 {
    match m.kind {
        PlaceKind::Estate => estate_rent(m, b),
        PlaceKind::Railroad => railroad_rent(
            count_owned(b, BoardColor::Railroad, m.owner, b.len() as int),
        ),
        PlaceKind::Utilities => utility_rent(
            count_owned(b, BoardColor::Utilities, m.owner, b.len() as int),
            roll,
        ),
        _ => 0,
    }
}

/// What happens to the player `turn` who lands on the place `m` of the board `b`.
///
/// A place that belongs to somebody else charges its rent unless it is
/// mortgaged, a place without owner is offered for its price, the taxes go to
/// the bank, and the rest changes nothing but the log.
pub open spec fn landing_effect(
    m: PlaceModel,
    turn: usize,
    b: Seq<PlaceModel>,
    roll: DiceResult,
) -> EventModel {
    match m.kind {
        PlaceKind::Nothing => EventModel::Nothing(m.name),
        PlaceKind::Chance => EventModel::Nothing("Lands Chance."@),
        PlaceKind::CommunityChest => EventModel::Nothing("Lands Community Chest."@),
        PlaceKind::IncomeTax => EventModel::PayToBank("Income Tax"@, 200),
        PlaceKind::LuxuryTax => EventModel::PayToBank("Luxury Tax"@, 100),
        PlaceKind::GoToJail => EventModel::GetJailed,
        _ => match m.owner {
            None => EventModel::GivePlace(m.id, m.price),
            Some(owner) => if owner == turn {
                EventModel::Nothing("Lands their place."@)
            } else if m.mortgaged {
                EventModel::Nothing("The place is mortgaged."@)
            } else {
                EventModel::PayToOther(m.name, owner, current_rent(m, b, roll))
            },
        },
    }
}

/// The rent that a visitor who owns nothing would be charged on `m`, if any.
pub open spec fn rent_of(m: PlaceModel, b: Seq<PlaceModel>, roll: DiceResult) -> Option<u32> {
    match landing_effect(m, usize::MAX, b, roll) {
        EventModel::PayToBank(_, dollars) => Some(dollars),
        EventModel::PayToOther(_, _, dollars) => Some(dollars),
        _ => None,
    }
}

/// The name of a color as it is written; a place that nobody can own shows
/// the word None.
pub open spec fn color_text(color: BoardColor) -> Seq<char> {
    match color {
        BoardColor::Neutral => "None"@,
        BoardColor::Railroad => "Railroad"@,
        BoardColor::Utilities => "Utilities"@,
        BoardColor::Brown => "Brown"@,
        BoardColor::LightBlue => "LightBlue"@,
        BoardColor::LightPurple => "LightPurple"@,
        BoardColor::Orange => "Orange"@,
        BoardColor::Red => "Red"@,
        BoardColor::Yellow => "Yellow"@,
        BoardColor::Green => "Green"@,
        BoardColor::Blue => "Blue"@,
    }
}

/// Yes or no as it is written.
pub open spec fn bool_text(value: bool) -> Seq<char> {
    if value {
        "true"@
    } else {
        "false"@
    }
}

/// What a place says of itself: its name, for an estate its color, and who
/// owns it if somebody does, with the mortgage and the houses of an estate.
pub open spec fn info_text(m: PlaceModel) -> Seq<char> {
    match m.kind {
        PlaceKind::Estate => match m.owner {
            Some(owner) => m.name + " ["@ + color_text(m.color) + "] owner:"@ + decimal(owner as nat)
                + " mortgaged:"@ + bool_text(m.mortgaged) + " houses:"@ + decimal(m.house_count()),
            None => m.name + " ["@ + color_text(m.color) + "]"@,
        },
        PlaceKind::Railroad | PlaceKind::Utilities => match m.owner {
            Some(owner) => m.name + " owner:"@ + decimal(owner as nat),
            None => m.name,
        },
        _ => m.name,
    }
}

/// Writes the name of a color.
pub fn color_name(color: BoardColor) -> (name: &'static str)
    ensures
        name@ == color_text(color),
{
    match color {
        BoardColor::Neutral => "None",
        BoardColor::Railroad => "Railroad",
        BoardColor::Utilities => "Utilities",
        BoardColor::Brown => "Brown",
        BoardColor::LightBlue => "LightBlue",
        BoardColor::LightPurple => "LightPurple",
        BoardColor::Orange => "Orange",
        BoardColor::Red => "Red",
        BoardColor::Yellow => "Yellow",
        BoardColor::Green => "Green",
        BoardColor::Blue => "Blue",
    }
}

/// Writes a name and the owner behind it.
pub fn owned_text(name: &str, owner: usize) -> (text: String)
    ensures
        text@ == name@ + " owner:"@ + decimal(owner as nat),
{
    let number = decimal_text(owner as u64);
    let mut text = String::from_str(name);
    text.append(" owner:");
    text.append(number.as_str());
    text
}

/// What every place of the board can do.
pub trait BoardPlace {
    /// The place as a mathematical record.
    spec fn model(&self) -> PlaceModel;

    /// Gets the position of the place on the board.
    fn get_id(&self) -> (id: usize)
        ensures
            id == self.model().id,
    ;

    /// Gets the name of the place.
    fn get_place_name(&self) -> (name: &'static str)
        ensures
            name@ == self.model().name,
    ;

    /// Says what the place is and whose.
    fn info(&self) -> (text: String)
        ensures
            text@ == info_text(self.model()),
    ;

    /// Says what happens to the player `turn` who lands here, `roll` being the
    /// throw that a utility multiplies. Nothing is changed.
    fn get_action(&self, turn: usize, board: &Board, roll: DiceResult) -> (event: EventKind<
        'static,
    >)
        requires
            board_wf(board@),
            self.model().id < 40,
            board@[self.model().id as int] == self.model(),
            roll.valid(),
        ensures
            event@ == landing_effect(self.model(), turn, board@, roll),
    ;

    /// Gets the owner, if the place has one.
    fn get_owner(&self) -> (owner: Option<usize>)
        ensures
            owner == self.model().owner,
    ;

    /// Gets the number of houses, where houses can be built.
    fn get_num_houses(&self) -> (houses: Option<u8>)
        ensures
            houses == self.model().houses,
    ;

    /// Gets the price of one house, where houses can be built.
    fn get_price_of_house(&self) -> (price: Option<u32>)
        ensures
            price == self.model().house_price,
    ;

    /// Gets the color of the place.
    fn get_color(&self) -> (color: BoardColor)
        ensures
            color == self.model().color,
    ;

    /// Tells whether the place is mortgaged.
    fn is_mortgaged(&self) -> (mortgaged: bool)
        ensures
            mortgaged == self.model().mortgaged,
    ;

    /// Tells whether the place can be owned.
    fn is_property(&self) -> (yes: bool)
        ensures
            yes == self.model().is_property(),
    {
        self.get_color() != BoardColor::Neutral
    }

    /// Tells whether houses can be built on the place.
    fn is_estate(&self) -> (yes: bool)
        ensures
            yes == self.model().is_estate(),
    {
        let color = self.get_color();
        color != BoardColor::Neutral && color != BoardColor::Railroad && color
            != BoardColor::Utilities
    }

    /// Gets the rent that a visitor who owns nothing would be charged, if any.
    fn get_rent(&self, board: &Board, roll: DiceResult) -> (rent: Option<u32>)
        requires
            board_wf(board@),
            self.model().id < 40,
            board@[self.model().id as int] == self.model(),
            roll.valid(),
        ensures
            rent == rent_of(self.model(), board@, roll),
    {
        match self.get_action(usize::MAX, board, roll) {
            EventKind::PayToBank(_, money) => Some(money),
            EventKind::PayToOther(_, _, money) => Some(money),
            _ => None,
        }
    }
}

/// What a place that can be owned can do besides.
pub trait OwnablePlace: BoardPlace {
    /// Hands the place to `owner`, or back to the bank.
    fn set_owner(&mut self, owner: Option<usize>)
        requires
            old(self).model().is_property(),
        ensures
            final(self).model() == (PlaceModel { owner, ..old(self).model() }),
    ;

    /// Gets the price of the place.
    fn get_price(&self) -> (price: u32)
        requires
            self.model().is_property(),
        ensures
            price == self.model().price,
    ;

    /// Mortgages the place or lifts the mortgage, and returns the mortgage value.
    fn set_mortgaged(&mut self, mortgaged: bool) -> (value: u32)
        requires
            old(self).model().is_property(),
        ensures
            final(self).model() == (PlaceModel { mortgaged, ..old(self).model() }),
            value == old(self).model().mortgage_value(),
    ;

    /// Gets the cost of lifting the mortgage.
    fn get_return_cost(&self) -> (cost: u32)
        requires
            self.model().is_property(),
        ensures
            cost == self.model().return_cost(),
    {
        let half: u64 = (self.get_price() / 2) as u64;
        (half * 11 / 10) as u32
    }
}

/// The color of the place that stands at `id` on the board.
pub open spec fn color_at(id: int) -> BoardColor {
    if id == 1 || id == 3 {
        BoardColor::Brown
    } else if id == 6 || id == 8 || id == 9 {
        BoardColor::LightBlue
    } else if id == 11 || id == 13 || id == 14 {
        BoardColor::LightPurple
    } else if id == 16 || id == 18 || id == 19 {
        BoardColor::Orange
    } else if id == 21 || id == 23 || id == 24 {
        BoardColor::Red
    } else if id == 26 || id == 27 || id == 29 {
        BoardColor::Yellow
    } else if id == 31 || id == 32 || id == 34 {
        BoardColor::Green
    } else if id == 37 || id == 39 {
        BoardColor::Blue
    } else if id == 5 || id == 15 || id == 25 || id == 35 {
        BoardColor::Railroad
    } else if id == 12 || id == 28 {
        BoardColor::Utilities
    } else {
        BoardColor::Neutral
    }
}

/// The sort of the place that stands at `id` on the board.
pub open spec fn kind_at(id: int) -> PlaceKind {
    if color_at(id).is_estate() {
        PlaceKind::Estate
    } else if color_at(id) == BoardColor::Railroad {
        PlaceKind::Railroad
    } else if color_at(id) == BoardColor::Utilities {
        PlaceKind::Utilities
    } else if id == 4 {
        PlaceKind::IncomeTax
    } else if id == 38 {
        PlaceKind::LuxuryTax
    } else if id == 30 {
        PlaceKind::GoToJail
    } else if id == 7 || id == 22 || id == 36 {
        PlaceKind::Chance
    } else if id == 2 || id == 17 || id == 33 {
        PlaceKind::CommunityChest
    } else {
        PlaceKind::Nothing
    }
}

/// The price of the place that stands at `id` on the board; nothing where the
/// place cannot be owned.
pub open spec fn price_at(id: int) -> u32 {
    if id == 1 || id == 3 {
        60
    } else if id == 6 || id == 8 {
        100
    } else if id == 9 {
        120
    } else if id == 11 || id == 13 {
        140
    } else if id == 14 {
        160
    } else if id == 16 || id == 18 {
        180
    } else if id == 19 {
        200
    } else if id == 21 || id == 23 {
        220
    } else if id == 24 {
        240
    } else if id == 26 || id == 27 {
        260
    } else if id == 29 {
        280
    } else if id == 31 || id == 32 {
        300
    } else if id == 34 {
        320
    } else if id == 37 {
        350
    } else if id == 39 {
        400
    } else if color_at(id) == BoardColor::Railroad {
        200
    } else if color_at(id) == BoardColor::Utilities {
        150
    } else {
        0
    }
}

/// The price of a house on a place of the color `color`, where houses can be
/// built.
pub open spec fn house_price_of(color: BoardColor) -> Option<u32> {
    match color {
        BoardColor::Brown | BoardColor::LightBlue => Some(50u32),
        BoardColor::LightPurple | BoardColor::Orange => Some(100u32),
        BoardColor::Red | BoardColor::Yellow => Some(150u32),
        BoardColor::Green | BoardColor::Blue => Some(200u32),
        _ => None,
    }
}

/// A rent table: the rent without a monopoly, with one, and with one to five houses.
pub open spec fn rent_table(
    plain: u32,
    monopoly: u32,
    one: u32,
    two: u32,
    three: u32,
    four: u32,
    five: u32,
) -> Seq<u32> {
    seq![plain, monopoly, one, two, three, four, five]
}

/// The place that stands at `id` on the board, as it is before the game starts.
#[verifier::opaque]
pub open spec fn standard_place(id: int) -> PlaceModel {
    match id as usize {
        0 => simple_model(0, PlaceKind::Nothing, "Go"@),
        1 => estate_model(
            1,
            BoardColor::Brown,
            "Mediterranean Avenue"@,
            60,
            50,
            rent_table(2, 4, 10, 30, 90, 160, 250),
        ),
        2 => simple_model(2, PlaceKind::CommunityChest, "Community Chest"@),
        3 => estate_model(
            3,
            BoardColor::Brown,
            "Baltic Avenue"@,
            60,
            50,
            rent_table(4, 8, 20, 60, 180, 320, 450),
        ),
        4 => simple_model(4, PlaceKind::IncomeTax, "Income Tax"@),
        5 => owned_model(5, PlaceKind::Railroad, "Reading Railroad"@),
        6 => estate_model(
            6,
            BoardColor::LightBlue,
            "Oriental Avenue"@,
            100,
            50,
            rent_table(6, 12, 30, 90, 270, 400, 550),
        ),
        7 => simple_model(7, PlaceKind::Chance, "Chance"@),
        8 => estate_model(
            8,
            BoardColor::LightBlue,
            "Vermont Avenue"@,
            100,
            50,
            rent_table(6, 12, 30, 90, 270, 400, 550),
        ),
        9 => estate_model(
            9,
            BoardColor::LightBlue,
            "Connecticut Avenue"@,
            120,
            50,
            rent_table(8, 16, 40, 100, 300, 450, 600),
        ),
        10 => simple_model(10, PlaceKind::Nothing, "Just Visiting"@),
        11 => estate_model(
            11,
            BoardColor::LightPurple,
            "St. Charles Place"@,
            140,
            100,
            rent_table(10, 20, 50, 150, 450, 625, 750),
        ),
        12 => owned_model(12, PlaceKind::Utilities, "Electric Company"@),
        13 => estate_model(
            13,
            BoardColor::LightPurple,
            "States Avenue"@,
            140,
            100,
            rent_table(10, 20, 50, 150, 450, 625, 750),
        ),
        14 => estate_model(
            14,
            BoardColor::LightPurple,
            "Virginia Avenue"@,
            160,
            100,
            rent_table(12, 24, 60, 180, 500, 700, 900),
        ),
        15 => owned_model(15, PlaceKind::Railroad, "Pennsylvania Railroad"@),
        16 => estate_model(
            16,
            BoardColor::Orange,
            "St. James Place"@,
            180,
            100,
            rent_table(14, 28, 70, 200, 550, 750, 950),
        ),
        17 => simple_model(17, PlaceKind::CommunityChest, "Community Chest"@),
        18 => estate_model(
            18,
            BoardColor::Orange,
            "Tennessee Avenue"@,
            180,
            100,
            rent_table(14, 28, 70, 200, 550, 750, 950),
        ),
        19 => estate_model(
            19,
            BoardColor::Orange,
            "New York Avenue"@,
            200,
            100,
            rent_table(16, 32, 80, 220, 600, 800, 1000),
        ),
        20 => simple_model(20, PlaceKind::Nothing, "Free Parking"@),
        21 => estate_model(
            21,
            BoardColor::Red,
            "Kentucky Avenue"@,
            220,
            150,
            rent_table(18, 36, 90, 250, 700, 875, 1050),
        ),
        22 => simple_model(22, PlaceKind::Chance, "Chance"@),
        23 => estate_model(
            23,
            BoardColor::Red,
            "Indiana Avenue"@,
            220,
            150,
            rent_table(18, 36, 90, 250, 700, 875, 1050),
        ),
        24 => estate_model(
            24,
            BoardColor::Red,
            "Illinois Avenue"@,
            240,
            150,
            rent_table(20, 40, 100, 300, 750, 925, 1100),
        ),
        25 => owned_model(25, PlaceKind::Railroad, "B. & O. Railroad"@),
        26 => estate_model(
            26,
            BoardColor::Yellow,
            "Atlantic Avenue"@,
            260,
            150,
            rent_table(22, 44, 110, 330, 800, 975, 1150),
        ),
        27 => estate_model(
            27,
            BoardColor::Yellow,
            "Ventnor Avenue"@,
            260,
            150,
            rent_table(22, 44, 110, 330, 800, 975, 1150),
        ),
        28 => owned_model(28, PlaceKind::Utilities, "Water Works"@),
        29 => estate_model(
            29,
            BoardColor::Yellow,
            "Marvin Gardens"@,
            280,
            150,
            rent_table(24, 48, 120, 360, 850, 1025, 1200),
        ),
        30 => simple_model(30, PlaceKind::GoToJail, "Go to Jail"@),
        31 => estate_model(
            31,
            BoardColor::Green,
            "Pacific Avenue"@,
            300,
            200,
            rent_table(26, 52, 130, 390, 900, 1100, 1275),
        ),
        32 => estate_model(
            32,
            BoardColor::Green,
            "North Carolina Avenue"@,
            300,
            200,
            rent_table(26, 52, 130, 390, 900, 1100, 1275),
        ),
        33 => simple_model(33, PlaceKind::CommunityChest, "Community Chest"@),
        34 => estate_model(
            34,
            BoardColor::Green,
            "Pennsylvania Avenue"@,
            320,
            200,
            rent_table(28, 56, 150, 450, 1000, 1200, 1400),
        ),
        35 => owned_model(35, PlaceKind::Railroad, "Short Line"@),
        36 => simple_model(36, PlaceKind::Chance, "Chance"@),
        37 => estate_model(
            37,
            BoardColor::Blue,
            "Park Place"@,
            350,
            200,
            rent_table(35, 70, 175, 500, 1100, 1300, 1500),
        ),
        38 => simple_model(38, PlaceKind::LuxuryTax, "Luxury Tax"@),
        _ => estate_model(
            39,
            BoardColor::Blue,
            "Boardwalk"@,
            400,
            200,
            rent_table(50, 100, 200, 600, 1400, 1700, 2000),
        ),
    }
}

/// What holds of every place of the board: it stands where its id says, its
/// kind goes with its color, only estates have houses and a rent table of seven
/// entries, and no amount is beyond what the most expensive place asks.
pub proof fn lemma_standard_shape(id: int)
    requires
        0 <= id < 40,
    ensures
        standard_place(id).id == id,
        standard_place(id).kind == kind_at(id),
        standard_place(id).color == color_at(id),
        standard_place(id).price == price_at(id),
        standard_place(id).house_price == house_price_of(color_at(id)),
        standard_place(id) == standard_place(id).pristine(),
        standard_place(id).kind is Estate <==> standard_place(id).color.is_estate(),
        standard_place(id).kind is Railroad <==> standard_place(id).color == BoardColor::Railroad,
        standard_place(id).kind is Utilities <==> standard_place(id).color
            == BoardColor::Utilities,
        standard_place(id).kind is Estate ==> standard_place(id).rents.len() == 7,
        standard_place(id).kind is Estate <==> standard_place(id).house_price is Some,
        standard_place(id).price <= 400,
        standard_place(id).is_property() ==> standard_place(id).price >= 60,
        standard_place(id).house_price matches Some(p) ==> (50 <= p <= 200 && p % 2 == 0),
        forall|k: int|
            0 <= k < standard_place(id).rents.len() ==> 2 <= #[trigger] standard_place(
                id,
            ).rents[k] <= 2000,
{
    reveal(standard_place);
}

/// One place of the board, whatever its sort.
pub enum Place {
    Nothing(Nothing),
    Estate(Estate),
    Railroad(Railroad),
    Utilities(Utilities),
    IncomeTax(IncomeTax),
    LuxuryTax(LuxuryTax),
    Chance(Chance),
    CommunityChest(CommunityChest),
    GoToJail(GoToJail),
}

impl Place {
    /// The place as a mathematical record.
    pub open spec fn as_model(&self) -> PlaceModel {
        match self {
            Place::Nothing(p) => p.as_model(),
            Place::Estate(p) => p.as_model(),
            Place::Railroad(p) => p.as_model(),
            Place::Utilities(p) => p.as_model(),
            Place::IncomeTax(p) => p.as_model(),
            Place::LuxuryTax(p) => p.as_model(),
            Place::Chance(p) => p.as_model(),
            Place::CommunityChest(p) => p.as_model(),
            Place::GoToJail(p) => p.as_model(),
        }
    }
}

impl BoardPlace for Place {
    open spec fn model(&self) -> PlaceModel {
        self.as_model()
    }

    fn get_id(&self) -> (id: usize) {
        match self {
            Place::Nothing(p) => p.get_id(),
            Place::Estate(p) => p.get_id(),
            Place::Railroad(p) => p.get_id(),
            Place::Utilities(p) => p.get_id(),
            Place::IncomeTax(p) => p.get_id(),
            Place::LuxuryTax(p) => p.get_id(),
            Place::Chance(p) => p.get_id(),
            Place::CommunityChest(p) => p.get_id(),
            Place::GoToJail(p) => p.get_id(),
        }
    }

    fn get_place_name(&self) -> (name: &'static str) {
        match self {
            Place::Nothing(p) => p.get_place_name(),
            Place::Estate(p) => p.get_place_name(),
            Place::Railroad(p) => p.get_place_name(),
            Place::Utilities(p) => p.get_place_name(),
            Place::IncomeTax(p) => p.get_place_name(),
            Place::LuxuryTax(p) => p.get_place_name(),
            Place::Chance(p) => p.get_place_name(),
            Place::CommunityChest(p) => p.get_place_name(),
            Place::GoToJail(p) => p.get_place_name(),
        }
    }

    fn info(&self) -> (text: String) {
        match self {
            Place::Nothing(p) => p.info(),
            Place::Estate(p) => p.info(),
            Place::Railroad(p) => p.info(),
            Place::Utilities(p) => p.info(),
            Place::IncomeTax(p) => p.info(),
            Place::LuxuryTax(p) => p.info(),
            Place::Chance(p) => p.info(),
            Place::CommunityChest(p) => p.info(),
            Place::GoToJail(p) => p.info(),
        }
    }

    fn get_action(&self, turn: usize, board: &Board, roll: DiceResult) -> (event: EventKind<
        'static,
    >) {
        match self {
            Place::Nothing(p) => p.get_action(turn, board, roll),
            Place::Estate(p) => p.get_action(turn, board, roll),
            Place::Railroad(p) => p.get_action(turn, board, roll),
            Place::Utilities(p) => p.get_action(turn, board, roll),
            Place::IncomeTax(p) => p.get_action(turn, board, roll),
            Place::LuxuryTax(p) => p.get_action(turn, board, roll),
            Place::Chance(p) => p.get_action(turn, board, roll),
            Place::CommunityChest(p) => p.get_action(turn, board, roll),
            Place::GoToJail(p) => p.get_action(turn, board, roll),
        }
    }

    fn get_owner(&self) -> (owner: Option<usize>) {
        assert(self.model() == self.as_model());
        match self {
            Place::Nothing(p) => p.get_owner(),
            Place::Estate(p) => p.get_owner(),
            Place::Railroad(p) => p.get_owner(),
            Place::Utilities(p) => p.get_owner(),
            Place::IncomeTax(p) => p.get_owner(),
            Place::LuxuryTax(p) => p.get_owner(),
            Place::Chance(p) => p.get_owner(),
            Place::CommunityChest(p) => p.get_owner(),
            Place::GoToJail(p) => p.get_owner(),
        }
    }

    fn get_num_houses(&self) -> (houses: Option<u8>) {
        match self {
            Place::Nothing(p) => p.get_num_houses(),
            Place::Estate(p) => p.get_num_houses(),
            Place::Railroad(p) => p.get_num_houses(),
            Place::Utilities(p) => p.get_num_houses(),
            Place::IncomeTax(p) => p.get_num_houses(),
            Place::LuxuryTax(p) => p.get_num_houses(),
            Place::Chance(p) => p.get_num_houses(),
            Place::CommunityChest(p) => p.get_num_houses(),
            Place::GoToJail(p) => p.get_num_houses(),
        }
    }

    fn get_price_of_house(&self) -> (price: Option<u32>) {
        match self {
            Place::Nothing(p) => p.get_price_of_house(),
            Place::Estate(p) => p.get_price_of_house(),
            Place::Railroad(p) => p.get_price_of_house(),
            Place::Utilities(p) => p.get_price_of_house(),
            Place::IncomeTax(p) => p.get_price_of_house(),
            Place::LuxuryTax(p) => p.get_price_of_house(),
            Place::Chance(p) => p.get_price_of_house(),
            Place::CommunityChest(p) => p.get_price_of_house(),
            Place::GoToJail(p) => p.get_price_of_house(),
        }
    }

    fn get_color(&self) -> (color: BoardColor) {
        assert(self.model() == self.as_model());
        match self {
            Place::Nothing(p) => p.get_color(),
            Place::Estate(p) => p.get_color(),
            Place::Railroad(p) => p.get_color(),
            Place::Utilities(p) => p.get_color(),
            Place::IncomeTax(p) => p.get_color(),
            Place::LuxuryTax(p) => p.get_color(),
            Place::Chance(p) => p.get_color(),
            Place::CommunityChest(p) => p.get_color(),
            Place::GoToJail(p) => p.get_color(),
        }
    }

    fn is_mortgaged(&self) -> (mortgaged: bool) {
        assert(self.model() == self.as_model());
        match self {
            Place::Nothing(p) => p.is_mortgaged(),
            Place::Estate(p) => p.is_mortgaged(),
            Place::Railroad(p) => p.is_mortgaged(),
            Place::Utilities(p) => p.is_mortgaged(),
            Place::IncomeTax(p) => p.is_mortgaged(),
            Place::LuxuryTax(p) => p.is_mortgaged(),
            Place::Chance(p) => p.is_mortgaged(),
            Place::CommunityChest(p) => p.is_mortgaged(),
            Place::GoToJail(p) => p.is_mortgaged(),
        }
    }

}

impl OwnablePlace for Place {
    fn set_owner(&mut self, owner: Option<usize>) {
        match self {
            Place::Nothing(p) => {
                proof {
                    p.lemma_kind();
                }
            },
            Place::Estate(p) => p.set_owner(owner),
            Place::Railroad(p) => p.set_owner(owner),
            Place::Utilities(p) => p.set_owner(owner),
            Place::IncomeTax(p) => {
                proof {
                    p.lemma_kind();
                }
            },
            Place::LuxuryTax(p) => {
                proof {
                    p.lemma_kind();
                }
            },
            Place::Chance(p) => {
                proof {
                    p.lemma_kind();
                }
            },
            Place::CommunityChest(p) => {
                proof {
                    p.lemma_kind();
                }
            },
            Place::GoToJail(p) => {
                proof {
                    p.lemma_kind();
                }
            },
        }
    }

    fn get_price(&self) -> (price: u32) {
        match self {
            Place::Nothing(p) => {
                proof {
                    p.lemma_kind();
                }
                0
            },
            Place::Estate(p) => p.get_price(),
            Place::Railroad(p) => p.get_price(),
            Place::Utilities(p) => p.get_price(),
            Place::IncomeTax(p) => {
                proof {
                    p.lemma_kind();
                }
                0
            },
            Place::LuxuryTax(p) => {
                proof {
                    p.lemma_kind();
                }
                0
            },
            Place::Chance(p) => {
                proof {
                    p.lemma_kind();
                }
                0
            },
            Place::CommunityChest(p) => {
                proof {
                    p.lemma_kind();
                }
                0
            },
            Place::GoToJail(p) => {
                proof {
                    p.lemma_kind();
                }
                0
            },
        }
    }

    fn set_mortgaged(&mut self, mortgaged: bool) -> (value: u32) {
        match self {
            Place::Nothing(p) => {
                proof {
                    p.lemma_kind();
                }
                0
            },
            Place::Estate(p) => p.set_mortgaged(mortgaged),
            Place::Railroad(p) => p.set_mortgaged(mortgaged),
            Place::Utilities(p) => p.set_mortgaged(mortgaged),
            Place::IncomeTax(p) => {
                proof {
                    p.lemma_kind();
                }
                0
            },
            Place::LuxuryTax(p) => {
                proof {
                    p.lemma_kind();
                }
                0
            },
            Place::Chance(p) => {
                proof {
                    p.lemma_kind();
                }
                0
            },
            Place::CommunityChest(p) => {
                proof {
                    p.lemma_kind();
                }
                0
            },
            Place::GoToJail(p) => {
                proof {
                    p.lemma_kind();
                }
                0
            },
        }
    }
}

impl Place {
    /// Sets the number of houses of an estate, five at most.
    pub fn set_num_houses(&mut self, num: u8)
        requires
            old(self).model().kind is Estate,
            num <= 5,
        ensures
            final(self).model() == (PlaceModel { houses: Some(num), ..old(self).model() }),
    {
        match self {
            Place::Estate(p) => p.set_num_houses(num),
            Place::Nothing(p) => {
                proof {
                    p.lemma_kind();
                }
            },
            Place::Railroad(p) => {
                proof {
                    p.lemma_kind();
                }
            },
            Place::Utilities(p) => {
                proof {
                    p.lemma_kind();
                }
            },
            Place::IncomeTax(p) => {
                proof {
                    p.lemma_kind();
                }
            },
            Place::LuxuryTax(p) => {
                proof {
                    p.lemma_kind();
                }
            },
            Place::Chance(p) => {
                proof {
                    p.lemma_kind();
                }
            },
            Place::CommunityChest(p) => {
                proof {
                    p.lemma_kind();
                }
            },
            Place::GoToJail(p) => {
                proof {
                    p.lemma_kind();
                }
            },
        }
    }
}

impl Place {
    /// The sort of place that this is.
    pub open spec fn kind(&self) -> PlaceKind {
        match self {
            Place::Nothing(_) => PlaceKind::Nothing,
            Place::Estate(_) => PlaceKind::Estate,
            Place::Railroad(_) => PlaceKind::Railroad,
            Place::Utilities(_) => PlaceKind::Utilities,
            Place::IncomeTax(_) => PlaceKind::IncomeTax,
            Place::LuxuryTax(_) => PlaceKind::LuxuryTax,
            Place::Chance(_) => PlaceKind::Chance,
            Place::CommunityChest(_) => PlaceKind::CommunityChest,
            Place::GoToJail(_) => PlaceKind::GoToJail,
        }
    }

    /// A place is of the sort that it is made as.
    pub proof fn lemma_kind(&self)
        ensures
            self.model().kind == self.kind(),
    {
        match self {
            Place::Nothing(p) => p.lemma_kind(),
            Place::Estate(p) => p.lemma_kind(),
            Place::Railroad(p) => p.lemma_kind(),
            Place::Utilities(p) => p.lemma_kind(),
            Place::IncomeTax(p) => p.lemma_kind(),
            Place::LuxuryTax(p) => p.lemma_kind(),
            Place::Chance(p) => p.lemma_kind(),
            Place::CommunityChest(p) => p.lemma_kind(),
            Place::GoToJail(p) => p.lemma_kind(),
        }
    }

    /// Tells whether `self` is the place that `other` is, whoever owns them
    /// and whatever stands on them.
    pub fn is_same_place(&self, other: &Place) -> (same: bool)
        ensures
            same == self.model().same_place(other.model()),
    {
        proof {
            self.lemma_kind();
            other.lemma_kind();
        }
        match self {
            Place::Nothing(a) => match other {
                Place::Nothing(b) => a.same_as(b),
                _ => false,
            },
            Place::Estate(a) => match other {
                Place::Estate(b) => a.same_as(b),
                _ => false,
            },
            Place::Railroad(a) => match other {
                Place::Railroad(b) => a.same_as(b),
                _ => false,
            },
            Place::Utilities(a) => match other {
                Place::Utilities(b) => a.same_as(b),
                _ => false,
            },
            Place::IncomeTax(a) => match other {
                Place::IncomeTax(b) => a.same_as(b),
                _ => false,
            },
            Place::LuxuryTax(a) => match other {
                Place::LuxuryTax(b) => a.same_as(b),
                _ => false,
            },
            Place::Chance(a) => match other {
                Place::Chance(b) => a.same_as(b),
                _ => false,
            },
            Place::CommunityChest(a) => match other {
                Place::CommunityChest(b) => a.same_as(b),
                _ => false,
            },
            Place::GoToJail(a) => match other {
                Place::GoToJail(b) => a.same_as(b),
                _ => false,
            },
        }
    }
}

/// Makes a rent table.
fn rent_list(
    plain: u32,
    monopoly: u32,
    one: u32,
    two: u32,
    three: u32,
    four: u32,
    five: u32,
) -> (rent: Vec<u32>)
    ensures
        rent@ == rent_table(plain, monopoly, one, two, three, four, five),
{
    let rent = vec![plain, monopoly, one, two, three, four, five];
    assert(rent@ =~= rent_table(plain, monopoly, one, two, three, four, five));
    rent
}

/// Lays out the forty places of the board, from Go onwards, as they are before
/// the game starts.
pub fn get_place_list() -> (places: Vec<Place>)
    ensures
        places@.len() == 40,
        forall|i: int| 0 <= i < 40 ==> (#[trigger] places@[i]).model() == standard_place(i),
{
    proof {
        reveal(standard_place);
    }
    let mut places: Vec<Place> = Vec::new();
    places.push(Place::Nothing(Nothing::new(0, "Go")));
    places.push(
        Place::Estate(
            Estate::new(1, BoardColor::Brown, "Mediterranean Avenue", 60, 50, rent_list(2, 4, 10, 30, 90, 160, 250)),
        ),
    );
    places.push(Place::CommunityChest(CommunityChest::new(2)));
    places.push(
        Place::Estate(
            Estate::new(3, BoardColor::Brown, "Baltic Avenue", 60, 50, rent_list(4, 8, 20, 60, 180, 320, 450)),
        ),
    );
    places.push(Place::IncomeTax(IncomeTax::new(4)));
    places.push(Place::Railroad(Railroad::new(5, "Reading Railroad")));
    places.push(
        Place::Estate(
            Estate::new(6, BoardColor::LightBlue, "Oriental Avenue", 100, 50, rent_list(6, 12, 30, 90, 270, 400, 550)),
        ),
    );
    places.push(Place::Chance(Chance::new(7)));
    places.push(
        Place::Estate(
            Estate::new(8, BoardColor::LightBlue, "Vermont Avenue", 100, 50, rent_list(6, 12, 30, 90, 270, 400, 550)),
        ),
    );
    places.push(
        Place::Estate(
            Estate::new(9, BoardColor::LightBlue, "Connecticut Avenue", 120, 50, rent_list(8, 16, 40, 100, 300, 450, 600)),
        ),
    );
    places.push(Place::Nothing(Nothing::new(10, "Just Visiting")));
    places.push(
        Place::Estate(
            Estate::new(11, BoardColor::LightPurple, "St. Charles Place", 140, 100, rent_list(10, 20, 50, 150, 450, 625, 750)),
        ),
    );
    places.push(Place::Utilities(Utilities::new(12, "Electric Company")));
    places.push(
        Place::Estate(
            Estate::new(13, BoardColor::LightPurple, "States Avenue", 140, 100, rent_list(10, 20, 50, 150, 450, 625, 750)),
        ),
    );
    places.push(
        Place::Estate(
            Estate::new(14, BoardColor::LightPurple, "Virginia Avenue", 160, 100, rent_list(12, 24, 60, 180, 500, 700, 900)),
        ),
    );
    places.push(Place::Railroad(Railroad::new(15, "Pennsylvania Railroad")));
    places.push(
        Place::Estate(
            Estate::new(16, BoardColor::Orange, "St. James Place", 180, 100, rent_list(14, 28, 70, 200, 550, 750, 950)),
        ),
    );
    places.push(Place::CommunityChest(CommunityChest::new(17)));
    places.push(
        Place::Estate(
            Estate::new(18, BoardColor::Orange, "Tennessee Avenue", 180, 100, rent_list(14, 28, 70, 200, 550, 750, 950)),
        ),
    );
    places.push(
        Place::Estate(
            Estate::new(19, BoardColor::Orange, "New York Avenue", 200, 100, rent_list(16, 32, 80, 220, 600, 800, 1000)),
        ),
    );
    places.push(Place::Nothing(Nothing::new(20, "Free Parking")));
    places.push(
        Place::Estate(
            Estate::new(21, BoardColor::Red, "Kentucky Avenue", 220, 150, rent_list(18, 36, 90, 250, 700, 875, 1050)),
        ),
    );
    places.push(Place::Chance(Chance::new(22)));
    places.push(
        Place::Estate(
            Estate::new(23, BoardColor::Red, "Indiana Avenue", 220, 150, rent_list(18, 36, 90, 250, 700, 875, 1050)),
        ),
    );
    places.push(
        Place::Estate(
            Estate::new(24, BoardColor::Red, "Illinois Avenue", 240, 150, rent_list(20, 40, 100, 300, 750, 925, 1100)),
        ),
    );
    places.push(Place::Railroad(Railroad::new(25, "B. & O. Railroad")));
    places.push(
        Place::Estate(
            Estate::new(26, BoardColor::Yellow, "Atlantic Avenue", 260, 150, rent_list(22, 44, 110, 330, 800, 975, 1150)),
        ),
    );
    places.push(
        Place::Estate(
            Estate::new(27, BoardColor::Yellow, "Ventnor Avenue", 260, 150, rent_list(22, 44, 110, 330, 800, 975, 1150)),
        ),
    );
    places.push(Place::Utilities(Utilities::new(28, "Water Works")));
    places.push(
        Place::Estate(
            Estate::new(29, BoardColor::Yellow, "Marvin Gardens", 280, 150, rent_list(24, 48, 120, 360, 850, 1025, 1200)),
        ),
    );
    places.push(Place::GoToJail(GoToJail::new(30)));
    places.push(
        Place::Estate(
            Estate::new(31, BoardColor::Green, "Pacific Avenue", 300, 200, rent_list(26, 52, 130, 390, 900, 1100, 1275)),
        ),
    );
    places.push(
        Place::Estate(
            Estate::new(32, BoardColor::Green, "North Carolina Avenue", 300, 200, rent_list(26, 52, 130, 390, 900, 1100, 1275)),
        ),
    );
    places.push(Place::CommunityChest(CommunityChest::new(33)));
    places.push(
        Place::Estate(
            Estate::new(34, BoardColor::Green, "Pennsylvania Avenue", 320, 200, rent_list(28, 56, 150, 450, 1000, 1200, 1400)),
        ),
    );
    places.push(Place::Railroad(Railroad::new(35, "Short Line")));
    places.push(Place::Chance(Chance::new(36)));
    places.push(
        Place::Estate(
            Estate::new(37, BoardColor::Blue, "Park Place", 350, 200, rent_list(35, 70, 175, 500, 1100, 1300, 1500)),
        ),
    );
    places.push(Place::LuxuryTax(LuxuryTax::new(38)));
    places.push(
        Place::Estate(
            Estate::new(39, BoardColor::Blue, "Boardwalk", 400, 200, rent_list(50, 100, 200, 600, 1400, 1700, 2000)),
        ),
    );
    places
}

} // verus!
