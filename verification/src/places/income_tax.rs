use vstd::prelude::*;
use vstd::string::StringExecFns;
use crate::board::Board;
use crate::dice_rolling::DiceResult;
use crate::events::EventKind;
use crate::places::{simple_model, BoardColor, BoardPlace, Place, PlaceKind, PlaceModel};

verus! {

/// The place where the income tax is due to the bank.
pub struct IncomeTax {
    id: usize,
}

impl BoardPlace for IncomeTax {
    open spec fn model(&self) -> PlaceModel {
        self.as_model()
    }

    fn get_id(&self) -> (id: usize) {
        self.id
    }

    fn get_place_name(&self) -> (name: &'static str) {
        "Income Tax"
    }

    fn info(&self) -> (text: String) {
        String::from_str(self.get_place_name())
    }

    fn get_action(&self, turn: usize, board: &Board, roll: DiceResult) -> (event: EventKind<
        'static,
    >) {
        EventKind::PayToBank("Income Tax", 200)
    }

    fn get_owner(&self) -> (owner: Option<usize>) {
        assert(self.model() == self.as_model());
        None
    }

    fn get_num_houses(&self) -> (houses: Option<u8>) {
        None
    }

    fn get_price_of_house(&self) -> (price: Option<u32>) {
        None
    }

    fn get_color(&self) -> (color: BoardColor) {
        assert(self.model() == self.as_model());
        BoardColor::Neutral
    }

    fn is_mortgaged(&self) -> (mortgaged: bool) {
        assert(self.model() == self.as_model());
        false
    }
}

impl IncomeTax {
    /// The place is of its sort, and nothing else.
    pub proof fn lemma_kind(&self)
        ensures
            self.model().kind == PlaceKind::IncomeTax,
            !self.model().is_property(),
    {
    }

    /// The place as a mathematical record.
    pub closed spec fn as_model(&self) -> PlaceModel {
        simple_model(self.id, PlaceKind::IncomeTax, "Income Tax"@)
    }

    /// Makes the place that stands at `id`.
    pub fn new(id: usize) -> (place: IncomeTax)
        ensures
            place.model() == simple_model(id, PlaceKind::IncomeTax, "Income Tax"@),
    {
        IncomeTax { id }
    }

    /// Makes the place that stands at `id`, ready to be put on a board.
    pub fn new_boxed(id: usize) -> (place: Box<Place>)
        ensures
            place.model() == simple_model(id, PlaceKind::IncomeTax, "Income Tax"@),
    {
        Box::new(Place::IncomeTax(IncomeTax::new(id)))
    }

    /// Tells whether `self` is the place that `other` is.
    pub fn same_as(&self, other: &IncomeTax) -> (same: bool)
        ensures
            same == self.model().same_place(other.model()),
    {
        self.id == other.id
    }
}

} // verus!
