use vstd::prelude::*;

verus! {

/// An effect that a place asks the game to apply to the player who landed on it.
#[derive(Clone, Copy, Debug)]
pub enum EventKind<'a> {
    /// Nothing happens.
    Nothing(&'a str),
    /// The player pays the bank.
    PayToBank(&'a str, u32),
    /// The player pays another player: the receiver, then the amount.
    PayToOther(&'a str, usize, u32),
    /// The player gains money.
    Reward(&'a str, u32),
    /// The player is offered a place: its id, then its price.
    GivePlace(usize, u32),
    /// The player moves on to the designated place.
    Move(&'a str, usize),
    /// The player goes to jail.
    GetJailed,
}

/// What an event says, with its message as a sequence of characters.
pub enum EventModel {
    Nothing(Seq<char>),
    PayToBank(Seq<char>, u32),
    PayToOther(Seq<char>, usize, u32),
    Reward(Seq<char>, u32),
    GivePlace(usize, u32),
    Move(Seq<char>, usize),
    GetJailed,
}

impl<'a> View for EventKind<'a> {
    type V = EventModel;

    open spec fn view(&self) -> EventModel {
        match *self {
            EventKind::Nothing(msg) => EventModel::Nothing(msg@),
            EventKind::PayToBank(msg, dollars) => EventModel::PayToBank(msg@, dollars),
            EventKind::PayToOther(msg, receiver, dollars) => EventModel::PayToOther(
                msg@,
                receiver,
                dollars,
            ),
            EventKind::Reward(msg, dollars) => EventModel::Reward(msg@, dollars),
            EventKind::GivePlace(place, dollars) => EventModel::GivePlace(place, dollars),
            EventKind::Move(msg, place) => EventModel::Move(msg@, place),
            EventKind::GetJailed => EventModel::GetJailed,
        }
    }
}

} // verus!
