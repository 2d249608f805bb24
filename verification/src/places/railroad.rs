use vstd::prelude::*;
use vstd::string::StringExecFns;
use crate::board::{board_wf, count_owned, Board};
use crate::dice_rolling::DiceResult;
use crate::events::EventKind;
use crate::logs::same_text;
use crate::places::{
    owned_model, owned_text, BoardColor, BoardPlace, OwnablePlace, Place, PlaceKind, PlaceModel,
};

verus! {

/// A railroad: its rent grows with the number of railroads in one hand.
pub struct Railroad {
    id: usize,
    name: &'static str,
    owner: Option<usize>,
    mortgaged: bool,
}

impl BoardPlace for Railroad {
    open spec fn model(&self) -> PlaceModel {
        self.as_model()
    }

    fn get_id(&self) -> (id: usize) {
        self.id
    }

    fn get_place_name(&self) -> (name: &'static str) {
        self.name
    }

    fn info(&self) -> (text: String) {
        if let Some(owner) = self.owner {
            owned_text(self.name, owner)
        } else {
            String::from_str(self.name)
        }
    }

    fn get_action(&self, turn: usize, board: &Board, roll: DiceResult) -> (event: EventKind<
        'static,
    >) {
        if let Some(owner) = self.owner {
            if owner == turn {
                EventKind::Nothing("Lands their place.")
            } else if self.mortgaged {
                EventKind::Nothing("The place is mortgaged.")
            } else {
                let owned = self.get_own_num(board);
                let rent: u32 = if owned <= 1 {
                    25
                } else if owned == 2 {
                    50
                } else if owned == 3 {
                    100
                } else {
                    200
                };
                EventKind::PayToOther(self.get_place_name(), owner, rent)
            }
        } else {
            EventKind::GivePlace(self.id, 200)
        }
    }

    fn get_owner(&self) -> (owner: Option<usize>) {
        assert(self.model() == self.as_model());
        self.owner
    }

    fn get_num_houses(&self) -> (houses: Option<u8>) {
        None
    }

    fn get_price_of_house(&self) -> (price: Option<u32>) {
        None
    }

    fn get_color(&self) -> (color: BoardColor) {
        assert(self.model() == self.as_model());
        BoardColor::Railroad
    }

    fn is_mortgaged(&self) -> (mortgaged: bool) {
        assert(self.model() == self.as_model());
        self.mortgaged
    }
}

impl OwnablePlace for Railroad {
    fn set_owner(&mut self, owner: Option<usize>) {
        self.owner = owner;
    }

    fn get_price(&self) -> (price: u32) {
        200
    }

    fn set_mortgaged(&mut self, mortgaged: bool) -> (value: u32) {
        self.mortgaged = mortgaged;
        200 / 2
    }
}

impl Railroad {
    /// The place is of its sort, and nothing else.
    pub proof fn lemma_kind(&self)
        ensures
            self.model().kind == PlaceKind::Railroad,
    {
    }

    /// The place as a mathematical record.
    pub closed spec fn as_model(&self) -> PlaceModel {
        PlaceModel {
            owner: self.owner,
            mortgaged: self.mortgaged,
            ..owned_model(self.id, PlaceKind::Railroad, self.name@)
        }
    }

    /// Makes the place that stands at `id`, without owner.
    pub fn new(id: usize, name: &'static str) -> (place: Railroad)
        ensures
            place.model() == owned_model(id, PlaceKind::Railroad, name@),
    {
        Railroad { id, name, owner: None, mortgaged: false }
    }

    /// Makes the place that stands at `id`, ready to be put on a board.
    pub fn new_boxed(id: usize, name: &'static str) -> (place: Box<Place>)
        ensures
            place.model() == owned_model(id, PlaceKind::Railroad, name@),
    {
        Box::new(Place::Railroad(Railroad::new(id, name)))
    }

    /// Counts the places of this sort that the owner of this one holds unmortgaged.
    pub fn get_own_num(&self, board: &Board) -> (owned: u32)
        requires
            board_wf(board@),
        ensures
            owned == count_owned(board@, BoardColor::Railroad, self.model().owner, 40),
    {
        board.count_owned_places(BoardColor::Railroad, self.owner)
    }

    /// Tells whether `self` is the place that `other` is, whoever owns them.
    pub fn same_as(&self, other: &Railroad) -> (same: bool)
        ensures
            same == self.model().same_place(other.model()),
    {
        self.id == other.id && same_text(self.name, other.name)
    }
}

} // verus!
