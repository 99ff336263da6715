//! It just so happens that sometimes we have to ask questions to the user.
//! This is normally to customize the game to the players needs.
//!
//! This file holds what is decided from the answers: how many opponents
//! there will be, and whether the rules are shown. Reading the answers from
//! the terminal is the caller's part.

use vstd::prelude::*;

verus! {

/// The minimum amount of players in a game of poker.
pub const MIN_PLAYERS: u8 = 1;

/// The maximum amount of players in a game of poker.
pub const MAX_PLAYERS: u8 = 4;

/// The default amount of players if an invalid number is supplied.
pub const DEFAULT_PLAYERS: u8 = 2;

/// Whether or not to show the rules of poker by default.
pub const SHOW_RULES_AS_DEFAULT: bool = false;

/// Whether an answer is the one letter written `lower` in small and `upper`
/// in capital.
pub open spec fn is_letter(answer: Seq<char>, lower: char, upper: char) -> bool {
    answer.len() == 1 && (answer[0] == lower || answer[0] == upper)
}

/// Whether an answer is one of those that are understood: yes, no, or
/// nothing at all.
pub open spec fn is_understood(answer: Seq<char>) -> bool {
    answer.len() == 0 || is_letter(answer, 'y', 'Y') || is_letter(answer, 'n', 'N')
}

/// What an answer to the question about the rules decides.
pub open spec fn show_rules_spec(answer: Seq<char>) -> bool {
    if is_understood(answer) {
        is_letter(answer, 'n', 'N') != SHOW_RULES_AS_DEFAULT
    } else {
        SHOW_RULES_AS_DEFAULT
    }
}

/// How an answer to the question about the number of opponents stands to
/// the limits.
#[derive(Debug, Clone, Copy, PartialEq, Eq, Structural, Hash)]
pub enum AmountAnswer {
    /// The answer was no number.
    NoNumber,
    /// The answer was a number below the minimum or above the maximum.
    OutOfRange,
    /// The answer was a number between the minimum and the maximum.
    InRange,
}

/// How a given answer stands to the limits.
pub open spec fn judge_amount_spec(answer: Option<u8>) -> AmountAnswer {
    match answer {
        None => AmountAnswer::NoNumber,
        Some(n) => if MIN_PLAYERS <= n <= MAX_PLAYERS {
            AmountAnswer::InRange
        } else {
            AmountAnswer::OutOfRange
        },
    }
}

/// The number of opponents that a given answer decides.
pub open spec fn amount_spec(answer: Option<u8>) -> u8 {
    match answer {
        Some(n) => if MIN_PLAYERS <= n <= MAX_PLAYERS {
            n
        } else {
            DEFAULT_PLAYERS
        },
        None => DEFAULT_PLAYERS,
    }
}

/// Says how an answer stands to the limits: whether it was no number, a
/// number outside the limits, or one within them. The answer is kept exactly
/// where it is within them; in the two other cases the default takes its
/// place.
pub fn judge_amount(answer: Option<u8>) -> (verdict: AmountAnswer)
    ensures
        verdict == judge_amount_spec(answer),
        verdict == AmountAnswer::InRange <==> answer == Some(amount_spec(answer)),
        verdict != AmountAnswer::InRange ==> amount_spec(answer) == DEFAULT_PLAYERS,
{
    match answer {
        None => AmountAnswer::NoNumber,
        Some(n) => {
            if n < MIN_PLAYERS || n > MAX_PLAYERS {
                AmountAnswer::OutOfRange
            } else {
                AmountAnswer::InRange
            }
        },
    }
}

/// The number of opponents for a given answer: the number itself where it is
/// one between the minimum and the maximum, the default where the answer was
/// no number or lies outside them.
pub fn amount_or_default(answer: Option<u8>) -> (amount: u8)
    ensures
        MIN_PLAYERS <= amount <= MAX_PLAYERS,
        amount == amount_spec(answer),
{
    match judge_amount(answer) {
        AmountAnswer::InRange => match answer {
            Some(n) => n,
            None => DEFAULT_PLAYERS,
        },
        _ => DEFAULT_PLAYERS,
    }
}

/// Whether the rules are shown, for a given answer with the blanks round it
/// taken off. An answer that is not understood gives the default; one that
/// is understood departs from the default exactly where it is `n` or `N`.
pub fn show_rules_for(answer: &str) -> (show: bool)
    ensures
        show == show_rules_spec(answer@),
{
    let len = answer.unicode_len();
    if len == 0 {
        false != SHOW_RULES_AS_DEFAULT
    } else if len == 1 {
        let c = answer.get_char(0);
        if c == 'n' || c == 'N' {
            true != SHOW_RULES_AS_DEFAULT
        } else if c == 'y' || c == 'Y' {
            false != SHOW_RULES_AS_DEFAULT
        } else {
            SHOW_RULES_AS_DEFAULT
        }
    } else {
        SHOW_RULES_AS_DEFAULT
    }
}

} // verus!
