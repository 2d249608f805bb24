use rand::Rng;
use vstd::prelude::*;

verus! {

/// The outcome of throwing two dice: their total, tagged by whether both faces matched.
#[derive(Clone, Copy, Debug, PartialEq, Eq, Structural)]
pub enum DiceResult {
    Same(u32),
    Different(u32),
}

impl DiceResult {
    /// The total shown by the two dice.
    pub open spec fn total(self) -> u32 {
        match self {
            DiceResult::Same(n) => n,
            DiceResult::Different(n) => n,
        }
    }

    /// Whether two six-sided dice can show this outcome.
    pub open spec fn valid(self) -> bool {
        match self {
            DiceResult::Same(n) => 2 <= n <= 12 && n % 2 == 0,
            DiceResult::Different(n) => 3 <= n <= 11,
        }
    }

    /// The outcome shown by two given faces.
    pub open spec fn of_faces(first: u32, second: u32) -> DiceResult {
        if first == second {
            DiceResult::Same((first + second) as u32)
        } else {
            DiceResult::Different((first + second) as u32)
        }
    }

    /// Reads two faces as an outcome: doubles when they match.
    pub fn from_faces(first: u32, second: u32) -> (result: DiceResult)
        requires
            1 <= first <= 6,
            1 <= second <= 6,
        ensures
            result == Self::of_faces(first, second),
            result.valid(),
    {
        if first == second {
            DiceResult::Same(first + second)
        } else {
            DiceResult::Different(first + second)
        }
    }

    /// Gets the total of the two dice.
    pub fn unwrap(self) -> (n: u32)
        ensures
            n == self.total(),
    {
        match self {
            DiceResult::Same(result) => result,
            DiceResult::Different(result) => result,
        }
    }

    /// Gets the total of the two dice.
    pub fn get_num(self) -> (n: u32)
        ensures
            n == self.total(),
    {
        self.unwrap()
    }

    /// Tells whether `self` can be shown by two dice.
    pub fn is_valid(self) -> (ok: bool)
        ensures
            ok == self.valid(),
    {
        match self {
            DiceResult::Same(n) => 2 <= n && n <= 12 && n % 2 == 0,
            DiceResult::Different(n) => 3 <= n && n <= 11,
        }
    }
}

/// Draws one number from the thread-local generator of `rand`, by
/// `Rng::gen_range` on the half-open range `low..high`. The range must not be
/// empty, since `gen_range` panics on an empty one. Nothing is claimed of the
/// number but that it lies in the range.
#[verifier::external_body]
fn draw(low: u32, high: u32) -> (face: u32)
    requires
        low < high,
    ensures
        low <= face < high,
{
    rand::thread_rng().gen_range(low..high)
}

/// Throws the dice.
pub struct DiceRolling;

impl DiceRolling {
    /// Rolls two dice, each showing one to six.
    pub fn roll() -> (result: DiceResult)
        ensures
            result.valid(),
    {
        let first = draw(1, 6 + 1);
        let second = draw(1, 6 + 1);
        DiceResult::from_faces(first, second)
    }
}

/// The throws that the two utilities would multiply when their rent is asked
/// without anybody landing on them: one throw for each.
#[derive(Clone, Copy, Debug)]
pub struct UtilityDice {
    pub electric_company: DiceResult,
    pub water_works: DiceResult,
}

impl UtilityDice {
    /// Whether both throws can be shown by two dice.
    pub open spec fn valid(self) -> bool {
        self.electric_company.valid() && self.water_works.valid()
    }

    /// The throw that goes with the place at `place`: that of the Water Works
    /// at 28, that of the Electric Company elsewhere.
    pub open spec fn at(self, place: int) -> DiceResult {
        if place == 28 {
            self.water_works
        } else {
            self.electric_company
        }
    }

    /// Gets the throw that goes with the place at `place`.
    pub fn get(&self, place: usize) -> (roll: DiceResult)
        ensures
            roll == self.at(place as int),
    {
        if place == 28 {
            self.water_works
        } else {
            self.electric_company
        }
    }

    /// Throws the dice once for each utility.
    pub fn roll() -> (dice: UtilityDice)
        ensures
            dice.valid(),
    {
        let electric_company = DiceRolling::roll();
        let water_works = DiceRolling::roll();
        UtilityDice { electric_company, water_works }
    }
}

} // verus!
