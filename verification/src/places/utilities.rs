use vstd::prelude::*;
use vstd::string::StringExecFns;
use crate::board::{board_wf, count_owned, Board};
use crate::dice_rolling::DiceResult;
use crate::events::EventKind;
use crate::logs::same_text;
use crate::places::{
    owned_model, owned_text, BoardColor, BoardPlace, OwnablePlace, Place, PlaceKind, PlaceModel,
};

verus! {

/// A utility: its rent is a multiple of the dice.
pub struct Utilities {
    id: usize,
    name: &'static str,
    owner: Option<usize>,
    mortgaged: bool,
}

impl BoardPlace for Utilities {
    open spec fn model(&self) -> PlaceModel {
        self.as_model()
    }

    fn get_id(&self) -> (id: usize) {
        self.id
    }

    fn get_place_name(&self) -> (name: &'static str) {
        self.name
    }

    fn info(&self) -> (text: String) {
        if let Some(owner) = self.owner {
            owned_text(self.name, owner)
        } else {
            String::from_str(self.name)
        }
    }

    fn get_action(&self, turn: usize, board: &Board, roll: DiceResult) -> (event: EventKind<
        'static,
    >) {
        if let Some(owner) = self.owner {
            if owner == turn {
                EventKind::Nothing("Lands their place.")
            } else if self.mortgaged {
                EventKind::Nothing("The place is mortgaged.")
            } else {
                let owned = self.get_own_num(board);
                let rent: u32 = if owned <= 1 {
                    roll.unwrap() * 4
                } else {
                    roll.unwrap() * 10
                };
                EventKind::PayToOther(self.get_place_name(), owner, rent)
            }
        } else {
            EventKind::GivePlace(self.id, 150)
        }
    }

    fn get_owner(&self) -> (owner: Option<usize>) {
        assert(self.model() == self.as_model());
        self.owner
    }

    fn get_num_houses(&self) -> (houses: Option<u8>) {
        None
    }

    fn get_price_of_house(&self) -> (price: Option<u32>) {
        None
    }

    fn get_color(&self) -> (color: BoardColor) {
        assert(self.model() == self.as_model());
        BoardColor::Utilities
    }

    fn is_mortgaged(&self) -> (mortgaged: bool) {
        assert(self.model() == self.as_model());
        self.mortgaged
    }
}

impl OwnablePlace for Utilities {
    fn set_owner(&mut self, owner: Option<usize>) {
        self.owner = owner;
    }

    fn get_price(&self) -> (price: u32) {
        150
    }

    fn set_mortgaged(&mut self, mortgaged: bool) -> (value: u32) {
        self.mortgaged = mortgaged;
        150 / 2
    }
}

impl Utilities {
    /// The place is of its sort, and nothing else.
    pub proof fn lemma_kind(&self)
        ensures
            self.model().kind == PlaceKind::Utilities,
    {
    }

    /// The place as a mathematical record.
    pub closed spec fn as_model(&self) -> PlaceModel {
        PlaceModel {
            owner: self.owner,
            mortgaged: self.mortgaged,
            ..owned_model(self.id, PlaceKind::Utilities, self.name@)
        }
    }

    /// Makes the place that stands at `id`, without owner.
    pub fn new(id: usize, name: &'static str) -> (place: Utilities)
        ensures
            place.model() == owned_model(id, PlaceKind::Utilities, name@),
    {
        Utilities { id, name, owner: None, mortgaged: false }
    }

    /// Makes the place that stands at `id`, ready to be put on a board.
    pub fn new_boxed(id: usize, name: &'static str) -> (place: Box<Place>)
        ensures
            place.model() == owned_model(id, PlaceKind::Utilities, name@),
    {
        Box::new(Place::Utilities(Utilities::new(id, name)))
    }

    /// Counts the places of this sort that the owner of this one holds unmortgaged.
    pub fn get_own_num(&self, board: &Board) -> (owned: u32)
        requires
            board_wf(board@),
        ensures
            owned == count_owned(board@, BoardColor::Utilities, self.model().owner, 40),
    {
        board.count_owned_places(BoardColor::Utilities, self.owner)
    }

    /// Tells whether `self` is the place that `other` is, whoever owns them.
    pub fn same_as(&self, other: &Utilities) -> (same: bool)
        ensures
            same == self.model().same_place(other.model()),
    {
        self.id == other.id && same_text(self.name, other.name)
    }
}

} // verus!
