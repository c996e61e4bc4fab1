//! A number-guessing game: the number to find and the answer to each guess.

use rand::Rng;
use vstd::prelude::*;

verus! {

/// The least number that can be the number to find.
pub const LOWEST: i64 = 1;

/// The greatest number that can be the number to find.
pub const HIGHEST: i64 = 100;

/// What the game answers to a guess.
#[derive(Clone, Copy, Debug, PartialEq, Eq, Structural)]
pub enum Verdict {
    /// The guess is no number of the game.
    OutOfRange,
    /// The guess is below the number to find.
    TooLow,
    /// The guess is above the number to find.
    TooHigh,
    /// The guess is the number to find.
    Correct,
}

/// The answer to `guess` where `number` is to be found.
pub open spec fn verdict(number: int, guess: int) -> Verdict {
    if guess < LOWEST || guess > HIGHEST {
        Verdict::OutOfRange
    } else if guess < number {
        Verdict::TooLow
    } else if guess > number {
        Verdict::TooHigh
    } else {
        Verdict::Correct
    }
}

/// Calls `rand::thread_rng` and, on the generator it gives, `Rng::gen_range`
/// with the half-open range from `low` to `high`.
///
/// Trusted: the number drawn lies in that range. Which number it is differs
/// from call to call.
#[verifier::external_body]
fn draw(low: i64, high: i64) -> (n: i64)
    requires
        low < high,
    ensures
        low <= n < high,
{
    rand::thread_rng().gen_range(low..high)
}

/// The answer to `guess` where `number` is to be found.
pub fn judge(number: i64, guess: i64) -> (answer: Verdict)
    ensures
        answer == verdict(number as int, guess as int),
{
    if guess < LOWEST || guess > HIGHEST {
        Verdict::OutOfRange
    } else if guess < number {
        Verdict::TooLow
    } else if guess > number {
        Verdict::TooHigh
    } else {
        Verdict::Correct
    }
}

/// Draws the number to find among the numbers of the game.
pub fn pick_number() -> (number: i64)
    ensures
        LOWEST <= number <= HIGHEST,
{
    draw(LOWEST, HIGHEST + 1)
}

/// Where the number to find is a number of the game, the one guess that is
/// answered as correct is that number.
pub proof fn lemma_correct_is_the_number(number: int, guess: int)
    requires
        LOWEST <= number <= HIGHEST,
    ensures
        verdict(number, guess) == Verdict::Correct <==> guess == number,
{
}

} // verus!
