use vstd::prelude::*;
use vstd::string::StringExecFns;
use crate::board::{board_wf, is_monopolized, Board};
use crate::dice_rolling::DiceResult;
use crate::events::EventKind;
use crate::logs::{decimal_text, same_text};
use crate::places::{
    color_name, estate_model, estate_rent, lemma_standard_shape, BoardColor, BoardPlace, OwnablePlace, Place,
    PlaceKind, PlaceModel,
};

verus! {

/// A place on which houses can be built: its rent grows with them.
pub struct Estate {
    id: usize,
    color: BoardColor,
    name: &'static str,
    owner: Option<usize>,
    houses: u8,
    price: u32,
    house_price: u32,
    rent: Vec<u32>,
    mortgaged: bool,
}

impl BoardPlace for Estate {
    open spec fn model(&self) -> PlaceModel {
        self.as_model()
    }

    fn get_id(&self) -> (id: usize) {
        self.id
    }

    fn get_place_name(&self) -> (name: &'static str) {
        self.name
    }

    fn info(&self) -> (text: String) {
        let mut text = String::from_str(self.name);
        text.append(" [");
        text.append(color_name(self.color));
        if let Some(owner) = self.owner {
            let number = decimal_text(owner as u64);
            let houses = decimal_text(self.houses as u64);
            text.append("] owner:");
            text.append(number.as_str());
            text.append(" mortgaged:");
            text.append(if self.mortgaged {
                "true"
            } else {
                "false"
            });
            text.append(" houses:");
            text.append(houses.as_str());
        } else {
            text.append("]");
        }
        text
    }

    fn get_action(&self, turn: usize, board: &Board, roll: DiceResult) -> (event: EventKind<
        'static,
    >) {
        if let Some(owner) = self.owner {
            if owner == turn {
                EventKind::Nothing("Lands their place.")
            } else {
                if self.mortgaged {
                    EventKind::Nothing("The place is mortgaged.")
                } else {
                    let rent = self.get_rent(board);
                    EventKind::PayToOther(self.get_place_name(), owner, rent)
                }
            }
        } else {
            EventKind::GivePlace(self.id, self.price)
        }
    }

    fn get_owner(&self) -> (owner: Option<usize>) {
        assert(self.model() == self.as_model());
        self.owner
    }

    fn get_num_houses(&self) -> (houses: Option<u8>) {
        Some(self.houses)
    }

    fn get_price_of_house(&self) -> (price: Option<u32>) {
        Some(self.house_price)
    }

    fn get_color(&self) -> (color: BoardColor) {
        assert(self.model() == self.as_model());
        self.color
    }

    fn is_mortgaged(&self) -> (mortgaged: bool) {
        assert(self.model() == self.as_model());
        self.mortgaged
    }
}

impl OwnablePlace for Estate {
    fn set_owner(&mut self, owner: Option<usize>) {
        self.owner = owner;
    }

    fn get_price(&self) -> (price: u32) {
        self.price
    }

    fn set_mortgaged(&mut self, mortgaged: bool) -> (value: u32) {
        self.mortgaged = mortgaged;
        self.price / 2
    }
}

impl Estate {
    /// Sets the number of houses, five at most.
    pub fn set_num_houses(&mut self, num: u8)
        requires
            num <= 5,
        ensures
            final(self).model() == (PlaceModel { houses: Some(num), ..old(self).model() }),
    {
        self.houses = num;
    }

    /// The place as a mathematical record.
    pub closed spec fn as_model(&self) -> PlaceModel {
        PlaceModel {
            owner: self.owner,
            houses: Some(self.houses),
            mortgaged: self.mortgaged,
            ..estate_model(
                self.id,
                self.color,
                self.name@,
                self.price,
                self.house_price,
                self.rent@,
            )
        }
    }

    /// Makes the estate that stands at `id`, without owner or houses. `rent`
    /// holds the rent without a monopoly, with one, and with one to five houses.
    pub fn new(
        id: usize,
        color: BoardColor,
        name: &'static str,
        price: u32,
        house_price: u32,
        rent: Vec<u32>,
    ) -> (place: Estate)
        requires
            rent@.len() == 7,
        ensures
            place.model() == estate_model(id, color, name@, price, house_price, rent@),
    {
        Estate {
            id,
            color,
            name,
            owner: None,
            houses: 0,
            price,
            house_price,
            rent,
            mortgaged: false,
        }
    }

    /// Makes the estate that stands at `id`, ready to be put on a board.
    pub fn new_boxed(
        id: usize,
        color: BoardColor,
        name: &'static str,
        price: u32,
        house_price: u32,
        rent: Vec<u32>,
    ) -> (place: Box<Place>)
        requires
            rent@.len() == 7,
        ensures
            place.model() == estate_model(id, color, name@, price, house_price, rent@),
    {
        Box::new(Place::Estate(Estate::new(id, color, name, price, house_price, rent)))
    }

    /// Gets the rent that the estate charges now: by its houses, and one step
    /// more when its color is in one hand.
    pub fn get_rent(&self, board: &Board) -> (rent: u32)
        requires
            board_wf(board@),
            self.model().id < 40,
            board@[self.model().id as int] == self.model(),
        ensures
            rent == estate_rent(self.model(), board@),
    {
        proof {
            lemma_standard_shape(self.id as int);
        }
        let color = self.get_color();
        let step: u8 = if board.is_monopolized(color) {
            1
        } else {
            0
        };
        let rent_id = step + self.houses;
        self.rent[rent_id as usize]
    }

    /// The place is an estate, with houses that can be counted.
    pub proof fn lemma_kind(&self)
        ensures
            self.model().kind == PlaceKind::Estate,
    {
    }

    /// Tells whether `self` is the place that `other` is, whoever owns them
    /// and whatever stands on them.
    pub fn same_as(&self, other: &Estate) -> (same: bool)
        ensures
            same == self.model().same_place(other.model()),
    {
        if !(self.id == other.id && self.color == other.color && same_text(self.name, other.name)
            && self.price == other.price && self.house_price == other.house_price
            && self.rent.len() == other.rent.len()) {
            return false;
        }
        let mut k: usize = 0;
        while k < self.rent.len()
            invariant
                k <= self.rent@.len(),
                self.rent@.len() == other.rent@.len(),
                forall|j: int| 0 <= j < k ==> self.rent@[j] == other.rent@[j],
            decreases self.rent@.len() - k,
        {
            if self.rent[k] != other.rent[k] {
                return false;
            }
            k += 1;
        }
        assert(self.rent@ =~= other.rent@);
        true
    }
}

} // verus!
