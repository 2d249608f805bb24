use vstd::prelude::*;
use crate::dice_rolling::{DiceResult, UtilityDice};
use crate::places::{
    color_at, current_rent, get_place_list, house_price_of, kind_at, lemma_standard_shape,
    price_at, railroad_rent, rent_of, standard_place, utility_rent, BoardColor, BoardPlace,
    OwnablePlace, Place, PlaceModel,
};

verus! {

/// The board: the forty places, each at the position that is its id.
pub struct Board {
    pub places: Vec<Place>,
}

impl View for Board {
    type V = Seq<PlaceModel>;

    open spec fn view(&self) -> Seq<PlaceModel> {
        Seq::new(self.places@.len(), |i: int| self.places@[i].as_model())
    }
}

/// Whether `m` can stand at position `i`: it is the place that the layout puts
/// there, with at most five houses if it is an estate and none otherwise, and
/// with neither owner nor mortgage if nobody can own it.
pub open spec fn place_wf(m: PlaceModel, i: int) -> bool {
    &&& m.same_place(standard_place(i))
    &&& m.kind is Estate ==> (m.houses matches Some(h) && h <= 5)
    &&& !(m.kind is Estate) ==> m.houses is None
    &&& !m.is_property() ==> m.owner is None && !m.mortgaged
}

/// Whether `b` is a board: forty places, each one where the layout puts it.
pub open spec fn board_wf(b: Seq<PlaceModel>) -> bool {
    &&& b.len() == 40
    &&& forall|i: int| 0 <= i < 40 ==> place_wf(#[trigger] b[i], i)
}

/// Whether `i` is the position of a place of the color `color`.
pub open spec fn of_color(b: Seq<PlaceModel>, i: int, color: BoardColor) -> bool {
    0 <= i < b.len() && b[i].color == color
}

/// Whether the player `p` owns every place of the color `color`, of which
/// there is at least one.
pub open spec fn monopolized_by(b: Seq<PlaceModel>, color: BoardColor, p: usize) -> bool {
    &&& exists|i: int| of_color(b, i, color)
    &&& forall|i: int| of_color(b, i, color) ==> b[i].owner == Some(p)
}

/// Whether one player owns every place of the color `color`.
pub open spec fn is_monopolized(b: Seq<PlaceModel>, color: BoardColor) -> bool {
    exists|p: usize| monopolized_by(b, color, p)
}

/// The number of unmortgaged places of the color `color` among the first `n`
/// whose owner is `owner`.
pub open spec fn count_owned(
    b: Seq<PlaceModel>,
    color: BoardColor,
    owner: Option<usize>,
    n: int,
) -> nat
    decreases n,
{
    if n <= 0 {
        0
    } else {
        count_owned(b, color, owner, n - 1) + if b[n - 1].color == color && b[n - 1].owner == owner
            && !b[n - 1].mortgaged {
            1nat
        } else {
            0nat
        }
    }
}

/// The number of houses on the places of the color `color` among the first `n`.
pub open spec fn houses_total(b: Seq<PlaceModel>, color: BoardColor, n: int) -> nat
    decreases n,
{
    if n <= 0 {
        0
    } else {
        houses_total(b, color, n - 1) + if b[n - 1].color == color {
            b[n - 1].house_count()
        } else {
            0
        }
    }
}

/// Whether a house stands on some place of the color `color`.
pub open spec fn has_houses(b: Seq<PlaceModel>, color: BoardColor) -> bool {
    exists|i: int| of_color(b, i, color) && b[i].house_count() > 0
}

/// Whether some place of the color `color` is mortgaged.
pub open spec fn any_mortgaged(b: Seq<PlaceModel>, color: BoardColor) -> bool {
    exists|i: int| of_color(b, i, color) && b[i].mortgaged
}

/// Whether the houses of the color `color` are built flatly: no place has two
/// houses more than another.
pub open spec fn flat(b: Seq<PlaceModel>, color: BoardColor) -> bool {
    forall|i: int, j: int|
        of_color(b, i, color) && of_color(b, j, color) ==> b[i].house_count() <= b[j].house_count()
            + 1
}

/// The rule of building for one color: houses stand only where one player owns
/// the whole color and none of it is mortgaged, and they are built flatly.
pub open spec fn color_valid(b: Seq<PlaceModel>, color: BoardColor) -> bool {
    &&& has_houses(b, color) ==> is_monopolized(b, color) && !any_mortgaged(b, color)
    &&& flat(b, color)
}

/// The rule of building, for every color on which houses can stand.
pub open spec fn houses_valid(b: Seq<PlaceModel>) -> bool {
    forall|color: BoardColor| color.is_estate() ==> #[trigger] color_valid(b, color)
}

/// The highest rent among the first `n` places that a visitor could be charged
/// by somebody other than `excluding`; `dice` holds the throws for the utilities.
pub open spec fn most_expensive(
    b: Seq<PlaceModel>,
    excluding: usize,
    dice: UtilityDice,
    n: int,
) -> u32
    decreases n,
{
    if n <= 0 {
        0
    } else {
        let rest = most_expensive(b, excluding, dice, n - 1);
        let rent = match rent_of(b[n - 1], b, dice.at(n - 1)) {
            Some(rent) => rent,
            None => 0,
        };
        if b[n - 1].owner != Some(excluding) && rent > rest {
            rent
        } else {
            rest
        }
    }
}

/// Whether `m` is the place that the layout puts at position `i`, as it is
/// before the game starts: of its sort and color and at its price, without
/// owner, mortgage or houses.
pub open spec fn untouched(m: PlaceModel, i: int) -> bool {
    &&& m == standard_place(i)
    &&& m.id == i
    &&& m.kind == kind_at(i)
    &&& m.color == color_at(i)
    &&& m.price == price_at(i)
    &&& m.house_price == house_price_of(color_at(i))
    &&& m.owner is None
    &&& !m.mortgaged
    &&& m.house_count() == 0
}

/// The board before the game starts.
pub open spec fn fresh_board() -> Seq<PlaceModel> {
    Seq::new(40, |i: int| standard_place(i))
}

/// The board before the game starts is a board, and obeys the rule of
/// building: no house stands on it.
pub proof fn lemma_fresh_board()
    ensures
        board_wf(fresh_board()),
        houses_valid(fresh_board()),
        forall|i: int| 0 <= i < 40 ==> untouched(#[trigger] fresh_board()[i], i),
{
    let b = fresh_board();
    assert forall|i: int| 0 <= i < 40 implies place_wf(#[trigger] b[i], i) && untouched(
        b[i],
        i,
    ) by {
        lemma_standard_shape(i);
    }
    assert forall|color: BoardColor| color.is_estate() implies #[trigger] color_valid(
        b,
        color,
    ) by {
        assert forall|i: int| of_color(b, i, color) implies b[i].house_count() == 0 by {
            lemma_standard_shape(i);
        }
    }
}

impl Board {
    /// Whether the board is laid out as it must be.
    pub open spec fn wf(&self) -> bool {
        board_wf(self@)
    }

    /// Sets up the board as it is before the game starts.
    pub fn new() -> (board: Board)
        ensures
            board@ == fresh_board(),
            board.wf(),
            houses_valid(board@),
            forall|i: int| 0 <= i < 40 ==> untouched(#[trigger] board@[i], i),
    {
        let board = Board { places: get_place_list() };
        assert(board@ =~= fresh_board());
        proof {
            lemma_fresh_board();
        }
        board
    }

    /// Tells whether the board is laid out as it must be: forty places, each
    /// one where the layout puts it, with at most five houses on an estate
    /// and neither owner nor mortgage where nobody can own the place.
    pub fn is_laid_out(&self) -> (ok: bool)
        ensures
            ok == self.wf(),
    {
        if self.places.len() != 40 {
            return false;
        }
        let fresh = get_place_list();
        let mut i: usize = 0;
        while i < 40
            invariant
                i <= 40,
                self.places@.len() == 40,
                fresh@.len() == 40,
                forall|j: int| 0 <= j < 40 ==> (#[trigger] fresh@[j]).model() == standard_place(j),
                forall|j: int| 0 <= j < i ==> place_wf(#[trigger] self@[j], j),
            decreases 40 - i,
        {
            let place = &self.places[i];
            assert(place.model() == self@[i as int]);
            proof {
                lemma_standard_shape(i as int);
            }
            let houses_fit = match place.get_num_houses() {
                Some(houses) => place.is_estate() && houses <= 5,
                None => !place.is_estate(),
            };
            let tenure_fits = place.is_property() || (place.get_owner().is_none()
                && !place.is_mortgaged());
            if !(place.is_same_place(&fresh[i]) && houses_fit && tenure_fits) {
                return false;
            }
            i += 1;
        }
        true
    }

    /// Counts the unmortgaged places of the color `color` whose owner is `owner`.
    pub fn count_owned_places(&self, color: BoardColor, owner: Option<usize>) -> (owned: u32)
        requires
            self.wf(),
        ensures
            owned == count_owned(self@, color, owner, 40),
    {
        let mut owned: u32 = 0;
        let mut i: usize = 0;
        while i < self.places.len()
            invariant
                self.wf(),
                i <= 40,
                owned == count_owned(self@, color, owner, i as int),
                owned <= i,
            decreases 40 - i,
        {
            let place = &self.places[i];
            let same_owner = match (place.get_owner(), owner) {
                (Some(a), Some(b)) => a == b,
                (None, None) => true,
                _ => false,
            };
            if place.get_color() == color && same_owner && !place.is_mortgaged() {
                owned += 1;
            }
            i += 1;
        }
        owned
    }

    /// Gets the number of houses that stand on the places of the color `color`;
    /// `None` if houses cannot be built on one of them.
    pub fn get_houses_num_by_color(&self, color: BoardColor) -> (num: Option<u8>)
        requires
            self.wf(),
        ensures
            num == if forall|i: int| of_color(self@, i, color) ==> self@[i].houses is Some {
                Some(houses_total(self@, color, 40) as u8)
            } else {
                None
            },
    {
        let mut num: u8 = 0;
        let mut i: usize = 0;
        while i < self.places.len()
            invariant
                self.wf(),
                i <= 40,
                num == houses_total(self@, color, i as int),
                num <= 5 * i,
                forall|j: int| 0 <= j < i && of_color(self@, j, color) ==> self@[j].houses is Some,
            decreases 40 - i,
        {
            let place = &self.places[i];
            if place.get_color() == color {
                assert(of_color(self@, i as int, color));
                match place.get_num_houses() {
                    Some(houses) => {
                        assert(place_wf(self@[i as int], i as int));
                        num += houses;
                    },
                    None => {
                        return None;
                    },
                }
            }
            i += 1;
        }
        Some(num)
    }

    /// Gets the player who owns every place of the color `color`, if there is one.
    pub fn get_monopolizer(&self, color: BoardColor) -> (monopolizer: Option<usize>)
        requires
            self.wf(),
        ensures
            forall|p: usize| monopolizer == Some(p) <==> monopolized_by(self@, color, p),
            monopolizer is Some <==> is_monopolized(self@, color),
    {
        let mut candidate: Option<usize> = None;
        let mut i: usize = 0;
        while i < self.places.len()
            invariant
                self.wf(),
                i <= 40,
                candidate is None ==> forall|j: int| 0 <= j < i ==> !of_color(self@, j, color),
                candidate is Some ==> exists|j: int| 0 <= j < i && of_color(self@, j, color),
                candidate is Some ==> forall|j: int|
                    0 <= j < i && of_color(self@, j, color) ==> self@[j].owner == candidate,
            decreases 40 - i,
        {
            let place = &self.places[i];
            if place.get_color() == color {
                assert(of_color(self@, i as int, color));
                match place.get_owner() {
                    None => {
                        assert(forall|p: usize| !monopolized_by(self@, color, p));
                        return None;
                    },
                    Some(owner) => {
                        match candidate {
                            None => {
                                candidate = Some(owner);
                            },
                            Some(p) => {
                                if p != owner {
                                    let ghost j = choose|j: int|
                                        0 <= j < i && of_color(self@, j, color);
                                    assert(self@[j].owner == Some(p));
                                    assert(forall|q: usize| !monopolized_by(self@, color, q));
                                    return None;
                                }
                            },
                        }
                    },
                }
            }
            i += 1;
        }
        proof {
            if let Some(p) = candidate {
                assert(monopolized_by(self@, color, p));
            }
        }
        candidate
    }

    /// Tells whether one player owns every place of the color `color`.
    pub fn is_monopolized(&self, color: BoardColor) -> (yes: bool)
        requires
            self.wf(),
        ensures
            yes == is_monopolized(self@, color),
    {
        self.get_monopolizer(color).is_some()
    }

    /// Lists the places of the color `color`, in the order of the board.
    pub fn gets_by_color(&self, color: BoardColor) -> (found: Vec<&Place>)
        requires
            self.wf(),
        ensures
            found@.len() == positions_of_color(self@, color, 40).len(),
            forall|k: int|
                0 <= k < found@.len() ==> (#[trigger] found@[k]).model() == self@[positions_of_color(
                    self@,
                    color,
                    40,
                )[k]],
    {
        let mut found: Vec<&Place> = Vec::new();
        let mut i: usize = 0;
        while i < self.places.len()
            invariant
                self.wf(),
                i <= 40,
                found@.len() == positions_of_color(self@, color, i as int).len(),
                forall|k: int|
                    0 <= k < found@.len() ==> (#[trigger] found@[k]).model()
                        == self@[positions_of_color(self@, color, i as int)[k]],
            decreases 40 - i,
        {
            let place = &self.places[i];
            if place.get_color() == color {
                assert(place.model() == place.as_model());
                found.push(place);
            }
            i += 1;
        }
        found
    }

    /// Lists the positions of the places of the color `color`, in the order
    /// of the board, for changing them one by one.
    pub fn gets_by_color_mut(&mut self, color: BoardColor) -> (found: Vec<usize>)
        requires
            old(self).wf(),
        ensures
            *final(self) == *old(self),
            found@.len() == positions_of_color(old(self)@, color, 40).len(),
            forall|k: int|
                0 <= k < found@.len() ==> (#[trigger] found@[k]) == positions_of_color(
                    old(self)@,
                    color,
                    40,
                )[k],
    {
        let mut found: Vec<usize> = Vec::new();
        let mut i: usize = 0;
        while i < self.places.len()
            invariant
                *self == *old(self),
                self.wf(),
                i <= 40,
                found@.len() == positions_of_color(self@, color, i as int).len(),
                forall|k: int|
                    0 <= k < found@.len() ==> (#[trigger] found@[k]) == positions_of_color(
                        self@,
                        color,
                        i as int,
                    )[k],
            decreases 40 - i,
        {
            assert(self.places@[i as int].model() == self@[i as int]);
            if self.places[i].get_color() == color {
                found.push(i);
            }
            i += 1;
        }
        found
    }

    /// Hands the place at `place` to `owner`, or back to the bank.
    pub fn set_owner(&mut self, place: usize, owner: Option<usize>)
        requires
            old(self).wf(),
            place < 40,
            old(self)@[place as int].is_property(),
        ensures
            final(self)@ == old(self)@.update(
                place as int,
                PlaceModel { owner, ..old(self)@[place as int] },
            ),
            final(self).wf(),
    {
        assert(self.places@[place as int].model() == self.places@[place as int].as_model());
        self.places[place].set_owner(owner);
        assert(self.places@[place as int].model() == self.places@[place as int].as_model());
        assert(self@ =~= old(self)@.update(
            place as int,
            PlaceModel { owner, ..old(self)@[place as int] },
        ));
        assert(place_wf(old(self)@[place as int], place as int));
    }

    /// Mortgages the place at `place` or lifts its mortgage, and returns the
    /// mortgage value.
    pub fn set_mortgaged(&mut self, place: usize, mortgaged: bool) -> (value: u32)
        requires
            old(self).wf(),
            place < 40,
            old(self)@[place as int].is_property(),
        ensures
            final(self)@ == old(self)@.update(
                place as int,
                PlaceModel { mortgaged, ..old(self)@[place as int] },
            ),
            value == old(self)@[place as int].mortgage_value(),
            final(self).wf(),
    {
        assert(self.places@[place as int].model() == self.places@[place as int].as_model());
        let value = self.places[place].set_mortgaged(mortgaged);
        assert(self.places@[place as int].model() == self.places@[place as int].as_model());
        assert(self@ =~= old(self)@.update(
            place as int,
            PlaceModel { mortgaged, ..old(self)@[place as int] },
        ));
        assert(place_wf(old(self)@[place as int], place as int));
        value
    }

    /// Sets the number of houses on the estate at `place`, five at most.
    pub fn set_num_houses(&mut self, place: usize, num: u8)
        requires
            old(self).wf(),
            place < 40,
            old(self)@[place as int].is_estate(),
            num <= 5,
        ensures
            final(self)@ == old(self)@.update(
                place as int,
                PlaceModel { houses: Some(num), ..old(self)@[place as int] },
            ),
            final(self).wf(),
    {
        proof {
            lemma_place_shape(self@, place as int);
        }
        assert(self.places@[place as int].model() == self.places@[place as int].as_model());
        self.places[place].set_num_houses(num);
        assert(self.places@[place as int].model() == self.places@[place as int].as_model());
        assert(self@ =~= old(self)@.update(
            place as int,
            PlaceModel { houses: Some(num), ..old(self)@[place as int] },
        ));
        assert(place_wf(old(self)@[place as int], place as int));
    }

    /// Tells whether the color `color` obeys the rule of building.
    pub fn color_is_valid(&self, color: BoardColor) -> (ok: bool)
        requires
            self.wf(),
        ensures
            ok == color_valid(self@, color),
    {
        let monopolized = self.is_monopolized(color);
        let mut has_house = false;
        let mut mortgaged = false;
        let mut seen = false;
        let mut least: u8 = 0;
        let mut most: u8 = 0;
        let mut i: usize = 0;
        while i < self.places.len()
            invariant
                self.wf(),
                i <= 40,
                has_house <==> exists|j: int|
                    0 <= j < i && of_color(self@, j, color) && self@[j].house_count() > 0,
                mortgaged <==> exists|j: int|
                    0 <= j < i && of_color(self@, j, color) && self@[j].mortgaged,
                !seen ==> forall|j: int| 0 <= j < i ==> !of_color(self@, j, color),
                seen ==> exists|j: int|
                    0 <= j < i && of_color(self@, j, color) && self@[j].house_count() == least,
                seen ==> exists|j: int|
                    0 <= j < i && of_color(self@, j, color) && self@[j].house_count() == most,
                seen ==> forall|j: int|
                    0 <= j < i && of_color(self@, j, color) ==> least <= self@[j].house_count()
                        <= most,
            decreases 40 - i,
        {
            let place = &self.places[i];
            assert(place.model() == self@[i as int]);
            if place.get_color() == color {
                assert(of_color(self@, i as int, color));
                let houses = match place.get_num_houses() {
                    Some(houses) => houses,
                    None => 0,
                };
                if houses > 0 {
                    has_house = true;
                }
                if place.is_mortgaged() {
                    mortgaged = true;
                }
                if !seen {
                    seen = true;
                    least = houses;
                    most = houses;
                } else {
                    if houses < least {
                        least = houses;
                    }
                    if houses > most {
                        most = houses;
                    }
                }
            }
            i += 1;
        }
        let is_flat = !seen || most - least <= 1;
        proof {
            if is_flat {
                assert(flat(self@, color));
            } else {
                let lo = choose|j: int|
                    0 <= j < 40 && of_color(self@, j, color) && self@[j].house_count() == least;
                let hi = choose|j: int|
                    0 <= j < 40 && of_color(self@, j, color) && self@[j].house_count() == most;
                assert(of_color(self@, hi, color) && of_color(self@, lo, color));
                assert(!flat(self@, color));
            }
        }
        (!has_house || (monopolized && !mortgaged)) && is_flat
    }

    /// Tells whether the board obeys the rule of building: houses stand only on
    /// colors that are in one hand with no place mortgaged, and no place of a
    /// color has two houses more than another.
    pub fn validate_houses(&self) -> (ok: bool)
        requires
            self.wf(),
        ensures
            ok == houses_valid(self@),
    {
        let colors = BoardColor::get_estate_colors();
        let mut i: usize = 0;
        while i < colors.len()
            invariant
                self.wf(),
                colors@ == BoardColor::estate_colors(),
                i <= 8,
                forall|k: int| 0 <= k < i ==> color_valid(self@, #[trigger] colors@[k]),
            decreases 8 - i,
        {
            if !self.color_is_valid(colors[i]) {
                return false;
            }
            i += 1;
        }
        proof {
            assert forall|color: BoardColor| color.is_estate() implies #[trigger] color_valid(
                self@,
                color,
            ) by {
                lemma_estate_colors(color);
            }
        }
        true
    }

    /// Gets the highest rent that a visitor could be charged now by somebody
    /// other than `excluding`, the utilities multiplying the throws of `dice`.
    pub fn most_expensive_with(&self, excluding: usize, dice: &UtilityDice) -> (rent: u32)
        requires
            self.wf(),
            dice.valid(),
        ensures
            rent == most_expensive(self@, excluding, *dice, 40),
    {
        let mut highest: u32 = 0;
        let mut i: usize = 0;
        while i < self.places.len()
            invariant
                self.wf(),
                dice.valid(),
                i <= 40,
                highest == most_expensive(self@, excluding, *dice, i as int),
            decreases 40 - i,
        {
            let place = &self.places[i];
            assert(place.model() == self@[i as int]);
            assert(place_wf(self@[i as int], i as int));
            proof {
                lemma_standard_shape(i as int);
            }
            let owned_by_excluded = match place.get_owner() {
                Some(owner) => owner == excluding,
                None => false,
            };
            if !owned_by_excluded {
                let rent = match place.get_rent(self, dice.get(i)) {
                    Some(rent) => rent,
                    None => 0,
                };
                if rent > highest {
                    highest = rent;
                }
            }
            i += 1;
        }
        highest
    }

    /// Gets the highest rent that a visitor could be charged now by somebody
    /// other than `excluding`. The dice are thrown once for each utility, so
    /// the answer is one of those that `most_expensive_with` gives.
    pub fn get_most_expensive(&self, excluding: usize) -> (rent: u32)
        requires
            self.wf(),
        ensures
            exists|dice: UtilityDice|
                dice.valid() && rent == most_expensive(self@, excluding, dice, 40),
    {
        let dice = UtilityDice::roll();
        self.most_expensive_with(excluding, &dice)
    }
}

/// The positions among the first `n` of the places of the color `color`, in
/// the order of the board.
pub open spec fn positions_of_color(b: Seq<PlaceModel>, color: BoardColor, n: int) -> Seq<int>
    decreases n,
{
    if n <= 0 {
        Seq::empty()
    } else if b[n - 1].color == color {
        positions_of_color(b, color, n - 1).push(n - 1)
    } else {
        positions_of_color(b, color, n - 1)
    }
}

/// Every color on which houses can stand is in the list of the estate colors.
pub proof fn lemma_estate_colors(color: BoardColor)
    requires
        color.is_estate(),
    ensures
        exists|k: int| 0 <= k < 8 && BoardColor::estate_colors()[k] == color,
{
    let colors = BoardColor::estate_colors();
    match color {
        BoardColor::Brown => assert(colors[0] == color),
        BoardColor::LightBlue => assert(colors[1] == color),
        BoardColor::LightPurple => assert(colors[2] == color),
        BoardColor::Orange => assert(colors[3] == color),
        BoardColor::Red => assert(colors[4] == color),
        BoardColor::Yellow => assert(colors[5] == color),
        BoardColor::Green => assert(colors[6] == color),
        BoardColor::Blue => assert(colors[7] == color),
        _ => {},
    }
}

/// What the layout says of the place at `i` of a board.
pub proof fn lemma_place_shape(b: Seq<PlaceModel>, i: int)
    requires
        board_wf(b),
        0 <= i < 40,
    ensures
        b[i].id == i,
        b[i].kind is Estate <==> b[i].is_estate(),
        b[i].kind is Railroad <==> b[i].color == BoardColor::Railroad,
        b[i].kind is Utilities <==> b[i].color == BoardColor::Utilities,
        b[i].is_estate() <==> b[i].houses is Some,
        b[i].is_estate() <==> b[i].house_price is Some,
        b[i].is_estate() ==> b[i].rents.len() == 7,
        b[i].house_count() <= 5,
        b[i].price <= 400,
        b[i].is_property() ==> b[i].price >= 60,
        b[i].house_price matches Some(p) ==> (50 <= p <= 200 && p % 2 == 0),
        !b[i].is_property() ==> b[i].owner is None && !b[i].mortgaged,
        forall|k: int| 0 <= k < b[i].rents.len() ==> 2 <= #[trigger] b[i].rents[k] <= 2000,
{
    assert(place_wf(b[i], i));
    lemma_standard_shape(i);
}

/// Where the layout puts what: the place at `i` of a board is of the sort
/// and the color, and at the price, that belong to that position.
pub proof fn lemma_place_layout(b: Seq<PlaceModel>, i: int)
    requires
        board_wf(b),
        0 <= i < 40,
    ensures
        b[i].id == i,
        b[i].kind == kind_at(i),
        b[i].color == color_at(i),
        b[i].price == price_at(i),
        b[i].house_price == house_price_of(color_at(i)),
{
    assert(place_wf(b[i], i));
    lemma_standard_shape(i);
}

/// One for a place that `owner` holds unmortgaged, nothing for any other.
pub open spec fn held(m: PlaceModel, owner: Option<usize>) -> nat {
    if m.owner == owner && !m.mortgaged {
        1
    } else {
        0
    }
}

/// The number that `count_owned` finds among the first `n` places, written
/// out for the railroads and the utilities: they stand at 5, 15, 25 and 35,
/// and at 12 and 28.
pub open spec fn held_upto(b: Seq<PlaceModel>, color: BoardColor, owner: Option<usize>, n: int) -> nat {
    if color == BoardColor::Railroad {
        (if n > 5 {
            held(b[5], owner)
        } else {
            0
        }) + (if n > 15 {
            held(b[15], owner)
        } else {
            0
        }) + (if n > 25 {
            held(b[25], owner)
        } else {
            0
        }) + (if n > 35 {
            held(b[35], owner)
        } else {
            0
        })
    } else {
        (if n > 12 {
            held(b[12], owner)
        } else {
            0
        }) + (if n > 28 {
            held(b[28], owner)
        } else {
            0
        })
    }
}

/// The railroads and the utilities that one owner holds unmortgaged are
/// counted at their positions: `count_owned` finds as many as `held_upto`
/// writes out.
pub proof fn lemma_count_owned(b: Seq<PlaceModel>, color: BoardColor, owner: Option<usize>, n: int)
    requires
        board_wf(b),
        color == BoardColor::Railroad || color == BoardColor::Utilities,
        0 <= n <= 40,
    ensures
        count_owned(b, color, owner, n) == held_upto(b, color, owner, n),
    decreases n,
{
    if n > 0 {
        lemma_count_owned(b, color, owner, n - 1);
        lemma_place_layout(b, n - 1);
    }
}

/// A color is in one hand exactly when every position of that color is: the
/// places of a color are those that the layout gives that color.
pub proof fn lemma_monopoly(b: Seq<PlaceModel>, color: BoardColor, p: usize)
    requires
        board_wf(b),
    ensures
        forall|i: int| of_color(b, i, color) <==> 0 <= i < 40 && color_at(i) == color,
        monopolized_by(b, color, p) <==> forall|i: int|
            0 <= i < 40 && color_at(i) == color ==> (#[trigger] b[i]).owner == Some(p),
        (exists|q: usize| monopolized_by(b, color, q)) == is_monopolized(b, color),
{
    assert forall|i: int| of_color(b, i, color) <==> 0 <= i < 40 && color_at(i) == color by {
        if 0 <= i < 40 {
            lemma_place_layout(b, i);
        }
    }
    let first: int = match color {
        BoardColor::Neutral => 0,
        BoardColor::Railroad => 5,
        BoardColor::Utilities => 12,
        BoardColor::Brown => 1,
        BoardColor::LightBlue => 6,
        BoardColor::LightPurple => 11,
        BoardColor::Orange => 16,
        BoardColor::Red => 21,
        BoardColor::Yellow => 26,
        BoardColor::Green => 31,
        BoardColor::Blue => 37,
    };
    lemma_place_layout(b, first);
    assert(color_at(first) == color);
    assert(of_color(b, first, color));
    if forall|i: int| 0 <= i < 40 && color_at(i) == color ==> (#[trigger] b[i]).owner == Some(p) {
        assert forall|i: int| of_color(b, i, color) implies b[i].owner == Some(p) by {}
    }
    if monopolized_by(b, color, p) {
        assert forall|i: int| 0 <= i < 40 && color_at(i) == color implies (#[trigger] b[i]).owner
            == Some(p) by {
            assert(of_color(b, i, color));
        }
    }
}

/// The rent of a railroad or a utility goes by the places of its sort that
/// its owner holds unmortgaged, counted at their positions: with all four
/// railroads in one hand a railroad charges $200, with both utilities a
/// utility charges ten times the throw.
pub proof fn lemma_rent_by_holdings(b: Seq<PlaceModel>, i: int, roll: DiceResult)
    requires
        board_wf(b),
        0 <= i < 40,
        color_at(i) == BoardColor::Railroad || color_at(i) == BoardColor::Utilities,
    ensures
        color_at(i) == BoardColor::Railroad ==> current_rent(b[i], b, roll) == railroad_rent(
            held(b[5], b[i].owner) + held(b[15], b[i].owner) + held(b[25], b[i].owner) + held(
                b[35],
                b[i].owner,
            ),
        ),
        color_at(i) == BoardColor::Utilities ==> current_rent(b[i], b, roll) == utility_rent(
            held(b[12], b[i].owner) + held(b[28], b[i].owner),
            roll,
        ),
{
    lemma_place_layout(b, i);
    lemma_count_owned(b, color_at(i), b[i].owner, 40);
}

/// The rent of an estate goes by its houses, and is one step higher when
/// every position of its color is in one hand.
pub proof fn lemma_rent_by_monopoly(b: Seq<PlaceModel>, i: int, p: usize, roll: DiceResult)
    requires
        board_wf(b),
        0 <= i < 40,
        color_at(i).is_estate(),
        b[i].owner == Some(p),
    ensures
        current_rent(b[i], b, roll) == b[i].rents[(if forall|j: int|
            0 <= j < 40 && color_at(j) == color_at(i) ==> (#[trigger] b[j]).owner == Some(p) {
            1int
        } else {
            0int
        }) + b[i].house_count()],
{
    lemma_place_layout(b, i);
    lemma_monopoly(b, color_at(i), p);
    if is_monopolized(b, color_at(i)) {
        let q = choose|q: usize| monopolized_by(b, color_at(i), q);
        assert(of_color(b, i, color_at(i)));
    }
}

/// No house stands on the color of a mortgaged place.
pub proof fn lemma_mortgaged_has_no_house(b: Seq<PlaceModel>, i: int)
    requires
        board_wf(b),
        houses_valid(b),
        0 <= i < 40,
        b[i].mortgaged,
    ensures
        b[i].is_property(),
        !has_houses(b, b[i].color),
{
    let c = b[i].color;
    lemma_place_shape(b, i);
    if has_houses(b, c) {
        let j = choose|j: int| of_color(b, j, c) && b[j].house_count() > 0;
        lemma_place_shape(b, j);
        assert(color_valid(b, c));
        assert(of_color(b, i, c));
        assert(false);
    }
}

/// No house stands on a mortgaged place.
pub proof fn lemma_mortgaged_is_bare(b: Seq<PlaceModel>, i: int)
    requires
        board_wf(b),
        houses_valid(b),
        0 <= i < 40,
        b[i].mortgaged,
    ensures
        b[i].house_count() == 0,
{
    lemma_mortgaged_has_no_house(b, i);
    assert(of_color(b, i, b[i].color));
}

/// A board stays one when a place is replaced by one that can stand there.
pub proof fn lemma_update_wf(b: Seq<PlaceModel>, i: int, m: PlaceModel)
    requires
        board_wf(b),
        0 <= i < 40,
        place_wf(m, i),
    ensures
        board_wf(b.update(i, m)),
{
    let c = b.update(i, m);
    assert forall|j: int| 0 <= j < 40 implies place_wf(#[trigger] c[j], j) by {
        if j != i {
            assert(place_wf(b[j], j));
        }
    }
}

/// Whether the player `p` holds the whole estate color `color`, mortgaged or
/// not.
pub open spec fn held_whole(b: Seq<PlaceModel>, color: BoardColor, p: usize) -> bool {
    color.is_estate() && monopolized_by(b, color, p)
}

/// What is said of a color holds of it on two boards that differ only in
/// places of other colors.
pub proof fn lemma_same_color(b: Seq<PlaceModel>, b2: Seq<PlaceModel>, color: BoardColor)
    requires
        b.len() == b2.len(),
        forall|j: int| 0 <= j < b.len() ==> (#[trigger] b2[j]).color == b[j].color,
        forall|j: int| 0 <= j < b.len() && b[j].color == color ==> #[trigger] b2[j] == b[j],
    ensures
        forall|q: usize| monopolized_by(b, color, q) == monopolized_by(b2, color, q),
        is_monopolized(b, color) == is_monopolized(b2, color),
        any_mortgaged(b, color) == any_mortgaged(b2, color),
        has_houses(b, color) == has_houses(b2, color),
        flat(b, color) == flat(b2, color),
        color_valid(b, color) == color_valid(b2, color),
        forall|q: usize| held_whole(b, color, q) == held_whole(b2, color, q),
{
    assert forall|j: int| of_color(b, j, color) == of_color(b2, j, color) by {
        if 0 <= j < b.len() {
            assert(b2[j].color == b[j].color);
        }
    }
    assert forall|j: int| of_color(b, j, color) implies b2[j] == b[j] by {}
    assert forall|q: usize| monopolized_by(b, color, q) == monopolized_by(b2, color, q) by {
        if monopolized_by(b, color, q) {
            let i = choose|i: int| of_color(b, i, color);
            assert(of_color(b2, i, color));
            assert forall|j: int| of_color(b2, j, color) implies b2[j].owner == Some(q) by {
                assert(of_color(b, j, color));
            }
        }
        if monopolized_by(b2, color, q) {
            let i = choose|i: int| of_color(b2, i, color);
            assert(of_color(b, i, color));
            assert forall|j: int| of_color(b, j, color) implies b[j].owner == Some(q) by {
                assert(of_color(b2, j, color));
            }
        }
    }
    if is_monopolized(b, color) {
        let q = choose|q: usize| monopolized_by(b, color, q);
        assert(monopolized_by(b2, color, q));
    }
    if is_monopolized(b2, color) {
        let q = choose|q: usize| monopolized_by(b2, color, q);
        assert(monopolized_by(b, color, q));
    }
    if any_mortgaged(b, color) {
        let i = choose|i: int| of_color(b, i, color) && b[i].mortgaged;
        assert(of_color(b2, i, color) && b2[i].mortgaged);
    }
    if any_mortgaged(b2, color) {
        let i = choose|i: int| of_color(b2, i, color) && b2[i].mortgaged;
        assert(of_color(b, i, color) && b[i].mortgaged);
    }
    if has_houses(b, color) {
        let i = choose|i: int| of_color(b, i, color) && b[i].house_count() > 0;
        assert(of_color(b2, i, color) && b2[i].house_count() > 0);
    }
    if has_houses(b2, color) {
        let i = choose|i: int| of_color(b2, i, color) && b2[i].house_count() > 0;
        assert(of_color(b, i, color) && b[i].house_count() > 0);
    }
    if flat(b, color) {
        assert forall|i: int, j: int|
            of_color(b2, i, color) && of_color(b2, j, color) implies b2[i].house_count()
            <= b2[j].house_count() + 1 by {
            assert(of_color(b, i, color) && of_color(b, j, color));
        }
    }
    if flat(b2, color) {
        assert forall|i: int, j: int|
            of_color(b, i, color) && of_color(b, j, color) implies b[i].house_count()
            <= b[j].house_count() + 1 by {
            assert(of_color(b2, i, color) && of_color(b2, j, color));
        }
    }
}

/// Who holds a color whole is the same on two boards on which every place has
/// the same color and the same owner.
pub proof fn lemma_same_holder(b: Seq<PlaceModel>, b2: Seq<PlaceModel>, color: BoardColor)
    requires
        b.len() == b2.len(),
        forall|j: int|
            0 <= j < b.len() ==> (#[trigger] b2[j]).color == b[j].color && b2[j].owner
                == b[j].owner,
    ensures
        forall|q: usize| held_whole(b, color, q) == held_whole(b2, color, q),
{
    assert forall|j: int| of_color(b, j, color) == of_color(b2, j, color) by {
        if 0 <= j < b.len() {
            assert(b2[j].color == b[j].color);
        }
    }
    assert forall|q: usize| monopolized_by(b, color, q) == monopolized_by(b2, color, q) by {
        if monopolized_by(b, color, q) {
            let i = choose|i: int| of_color(b, i, color);
            assert(of_color(b2, i, color));
            assert forall|j: int| of_color(b2, j, color) implies b2[j].owner == Some(q) by {
                assert(of_color(b, j, color));
            }
        }
        if monopolized_by(b2, color, q) {
            let i = choose|i: int| of_color(b2, i, color);
            assert(of_color(b, i, color));
            assert forall|j: int| of_color(b, j, color) implies b[j].owner == Some(q) by {
                assert(of_color(b2, j, color));
            }
        }
    }
}

/// Who holds a color, and whether a place of it is mortgaged, is the same on
/// two boards that differ in houses only.
pub proof fn lemma_same_tenure(b: Seq<PlaceModel>, b2: Seq<PlaceModel>, color: BoardColor)
    requires
        b.len() == b2.len(),
        forall|j: int|
            0 <= j < b.len() ==> (#[trigger] b2[j]).color == b[j].color && b2[j].owner
                == b[j].owner && b2[j].mortgaged == b[j].mortgaged,
    ensures
        forall|q: usize| monopolized_by(b, color, q) == monopolized_by(b2, color, q),
        is_monopolized(b, color) == is_monopolized(b2, color),
        any_mortgaged(b, color) == any_mortgaged(b2, color),
        forall|q: usize| held_whole(b, color, q) == held_whole(b2, color, q),
{
    assert forall|j: int| of_color(b, j, color) == of_color(b2, j, color) by {
        if 0 <= j < b.len() {
            assert(b2[j].color == b[j].color);
        }
    }
    assert forall|q: usize| monopolized_by(b, color, q) == monopolized_by(b2, color, q) by {
        if monopolized_by(b, color, q) {
            let i = choose|i: int| of_color(b, i, color);
            assert(of_color(b2, i, color));
            assert forall|j: int| of_color(b2, j, color) implies b2[j].owner == Some(q) by {
                assert(of_color(b, j, color));
            }
        }
        if monopolized_by(b2, color, q) {
            let i = choose|i: int| of_color(b2, i, color);
            assert(of_color(b, i, color));
            assert forall|j: int| of_color(b, j, color) implies b[j].owner == Some(q) by {
                assert(of_color(b2, j, color));
            }
        }
    }
    if is_monopolized(b, color) {
        let q = choose|q: usize| monopolized_by(b, color, q);
        assert(monopolized_by(b2, color, q));
    }
    if is_monopolized(b2, color) {
        let q = choose|q: usize| monopolized_by(b2, color, q);
        assert(monopolized_by(b, color, q));
    }
    if any_mortgaged(b, color) {
        let i = choose|i: int| of_color(b, i, color) && b[i].mortgaged;
        assert(of_color(b2, i, color) && b2[i].mortgaged);
    }
    if any_mortgaged(b2, color) {
        let i = choose|i: int| of_color(b2, i, color) && b2[i].mortgaged;
        assert(of_color(b, i, color) && b[i].mortgaged);
    }
}

} // verus!
