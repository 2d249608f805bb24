use vstd::prelude::*;
use vstd::string::StringExecFns;

verus! {

/// The character that writes the digit `d`.
pub open spec fn digit(d: int) -> char {
    if d == 0 {
        '0'
    } else if d == 1 {
        '1'
    } else if d == 2 {
        '2'
    } else if d == 3 {
        '3'
    } else if d == 4 {
        '4'
    } else if d == 5 {
        '5'
    } else if d == 6 {
        '6'
    } else if d == 7 {
        '7'
    } else if d == 8 {
        '8'
    } else {
        '9'
    }
}

/// The number `n` as it is written in decimal.
pub open spec fn decimal(n: nat) -> Seq<char>
    decreases n,
{
    if n < 10 {
        seq![digit(n as int)]
    } else {
        decimal(n / 10).push(digit((n % 10) as int))
    }
}

/// A line of the log that speaks of the player `player`.
pub open spec fn player_line_text(player: usize, text: Seq<char>) -> Seq<char> {
    "[PLAYER"@ + decimal(player as nat) + "] "@ + text
}

/// An amount of money as it is written.
pub open spec fn dollars_text(amount: u32) -> Seq<char> {
    "$"@ + decimal(amount as nat)
}

/// Tells whether two texts are the same.
pub fn same_text(a: &str, b: &str) -> (same: bool)
    ensures
        same == (a@ == b@),
{
    let first = String::from_str(a);
    let second = String::from_str(b);
    first == second
}

/// Writes one digit.
fn digit_text(d: u64) -> (text: &'static str)
    requires
        d < 10,
    ensures
        text@ == seq![digit(d as int)],
{
    proof {
        reveal_strlit("0");
        reveal_strlit("1");
        reveal_strlit("2");
        reveal_strlit("3");
        reveal_strlit("4");
        reveal_strlit("5");
        reveal_strlit("6");
        reveal_strlit("7");
        reveal_strlit("8");
        reveal_strlit("9");
    }
    let text = if d == 0 {
        "0"
    } else if d == 1 {
        "1"
    } else if d == 2 {
        "2"
    } else if d == 3 {
        "3"
    } else if d == 4 {
        "4"
    } else if d == 5 {
        "5"
    } else if d == 6 {
        "6"
    } else if d == 7 {
        "7"
    } else if d == 8 {
        "8"
    } else {
        "9"
    };
    assert(text@ =~= seq![digit(d as int)]);
    text
}

/// Writes a number in decimal.
pub fn decimal_text(n: u64) -> (text: String)
    ensures
        text@ == decimal(n as nat),
    decreases n,
{
    if n < 10 {
        String::from_str(digit_text(n))
    } else {
        let mut text = decimal_text(n / 10);
        text.append(digit_text(n % 10));
        assert(text@ =~= decimal(n as nat));
        text
    }
}

/// Starts a line of the log that speaks of the player `player`.
pub fn player_line(player: usize, text: &str) -> (line: String)
    ensures
        line@ == player_line_text(player, text@),
{
    let mut line = String::from_str("[PLAYER");
    let number = decimal_text(player as u64);
    line.append(number.as_str());
    line.append("] ");
    line.append(text);
    line
}

/// Writes an amount of money.
pub fn dollars(amount: u32) -> (text: String)
    ensures
        text@ == dollars_text(amount),
{
    let mut text = String::from_str("$");
    let number = decimal_text(amount as u64);
    text.append(number.as_str());
    text
}

/// The line that says that the player `player` pays the bank.
pub open spec fn pays_bank_text(player: usize, amount: u32, reason: Seq<char>) -> Seq<char> {
    player_line_text(player, "Pays "@ + dollars_text(amount) + " to the bank for "@ + reason + "."@)
}

/// The line that says that the player `player` pays another player.
pub open spec fn pays_other_text(
    player: usize,
    amount: u32,
    receiver: usize,
    reason: Seq<char>,
) -> Seq<char> {
    player_line_text(
        player,
        "Pays "@ + dollars_text(amount) + " to PLAYER"@ + decimal(receiver as nat) + " for "@
            + reason + "."@,
    )
}

/// The line that says that the player `player` takes over what `from` owned.
pub open spec fn inherits_text(player: usize, from: usize) -> Seq<char> {
    player_line_text(player, "Inherits properties of PLAYER"@ + decimal(from as nat) + "."@)
}

/// The line that says that the player `player` gains money.
pub open spec fn gains_text(player: usize, amount: u32, reason: Seq<char>) -> Seq<char> {
    player_line_text(player, "Gains "@ + dollars_text(amount) + " for "@ + reason + "."@)
}

/// The line that says that the player `player` buys a place.
pub open spec fn buys_text(player: usize, place: Seq<char>, price: u32) -> Seq<char> {
    player_line_text(player, "Buys "@ + place + " for "@ + dollars_text(price) + "."@)
}

/// The line that says that the token of the player `player` moves.
pub open spec fn moves_text(player: usize, from: Seq<char>, to: Seq<char>) -> Seq<char> {
    player_line_text(player, "Moves from "@ + from + " to "@ + to + "."@)
}

/// The line that says that the player `player` is told to move.
pub open spec fn needs_text(player: usize, reason: Seq<char>) -> Seq<char> {
    player_line_text(player, "Needs to move for "@ + reason + "."@)
}

/// The line that says how the cash of the player `player` changed.
pub open spec fn money_text(player: usize, before: u32, after: u32) -> Seq<char> {
    player_line_text(player, "Money: "@ + dollars_text(before) + " -> "@ + dollars_text(after))
}

/// The line that says that the player `player` could not pay.
pub open spec fn failed_text(player: usize, amount: u32) -> Seq<char> {
    player_line_text(player, "Failed to pay "@ + dollars_text(amount) + "."@)
}

/// The line that says that the player `player` was given a place.
pub open spec fn owner_text(player: usize, place: Seq<char>) -> Seq<char> {
    player_line_text(player, "Become an owner of "@ + place + "."@)
}

/// Writes the line that says that the player `player` pays the bank.
pub fn pays_bank_line(player: usize, amount: u32, reason: &str) -> (line: String)
    ensures
        line@ == pays_bank_text(player, amount, reason@),
{
    let sum = dollars(amount);
    let mut text = String::from_str("Pays ");
    text.append(sum.as_str());
    text.append(" to the bank for ");
    text.append(reason);
    text.append(".");
    player_line(player, text.as_str())
}

/// Writes the line that says that the player `player` pays another player.
pub fn pays_other_line(player: usize, amount: u32, receiver: usize, reason: &str) -> (line:
    String)
    ensures
        line@ == pays_other_text(player, amount, receiver, reason@),
{
    let sum = dollars(amount);
    let to = decimal_text(receiver as u64);
    let mut text = String::from_str("Pays ");
    text.append(sum.as_str());
    text.append(" to PLAYER");
    text.append(to.as_str());
    text.append(" for ");
    text.append(reason);
    text.append(".");
    player_line(player, text.as_str())
}

/// Writes the line that says that the player `player` takes over what `from`
/// owned.
pub fn inherits_line(player: usize, from: usize) -> (line: String)
    ensures
        line@ == inherits_text(player, from),
{
    let number = decimal_text(from as u64);
    let mut text = String::from_str("Inherits properties of PLAYER");
    text.append(number.as_str());
    text.append(".");
    player_line(player, text.as_str())
}

/// Writes the line that says that the player `player` gains money.
pub fn gains_line(player: usize, amount: u32, reason: &str) -> (line: String)
    ensures
        line@ == gains_text(player, amount, reason@),
{
    let sum = dollars(amount);
    let mut text = String::from_str("Gains ");
    text.append(sum.as_str());
    text.append(" for ");
    text.append(reason);
    text.append(".");
    player_line(player, text.as_str())
}

/// Writes the line that says that the player `player` buys a place.
pub fn buys_line(player: usize, place: &str, price: u32) -> (line: String)
    ensures
        line@ == buys_text(player, place@, price),
{
    let sum = dollars(price);
    let mut text = String::from_str("Buys ");
    text.append(place);
    text.append(" for ");
    text.append(sum.as_str());
    text.append(".");
    player_line(player, text.as_str())
}

/// Writes the line that says that the token of the player `player` moves.
pub fn moves_line(player: usize, from: &str, to: &str) -> (line: String)
    ensures
        line@ == moves_text(player, from@, to@),
{
    let mut text = String::from_str("Moves from ");
    text.append(from);
    text.append(" to ");
    text.append(to);
    text.append(".");
    player_line(player, text.as_str())
}

/// Writes the line that says that the player `player` is told to move.
pub fn needs_line(player: usize, reason: &str) -> (line: String)
    ensures
        line@ == needs_text(player, reason@),
{
    let mut text = String::from_str("Needs to move for ");
    text.append(reason);
    text.append(".");
    player_line(player, text.as_str())
}

/// Writes the line that says how the cash of the player `player` changed.
pub fn money_line(player: usize, before: u32, after: u32) -> (line: String)
    ensures
        line@ == money_text(player, before, after),
{
    let was = dollars(before);
    let is = dollars(after);
    let mut text = String::from_str("Money: ");
    text.append(was.as_str());
    text.append(" -> ");
    text.append(is.as_str());
    player_line(player, text.as_str())
}

/// Writes the line that says that the player `player` could not pay.
pub fn failed_line(player: usize, amount: u32) -> (line: String)
    ensures
        line@ == failed_text(player, amount),
{
    let sum = dollars(amount);
    let mut text = String::from_str("Failed to pay ");
    text.append(sum.as_str());
    text.append(".");
    player_line(player, text.as_str())
}

/// Writes the line that says that the player `player` was given a place.
pub fn owner_line(player: usize, place: &str) -> (line: String)
    ensures
        line@ == owner_text(player, place@),
{
    let mut text = String::from_str("Become an owner of ");
    text.append(place);
    text.append(".");
    player_line(player, text.as_str())
}

} // verus!
