//! Classification of single characters into tokens of the expression
//! alphabet: digits, the six operator letters, and whitespace.

use vstd::prelude::*;

verus! {

/// The letter standing for addition.
pub const ADDITION: char = 'a';

/// The letter standing for subtraction.
pub const SUBTRACTION: char = 'b';

/// The letter standing for multiplication.
pub const MULTIPLICATION: char = 'c';

/// The letter standing for integer division.
pub const DIVISION: char = 'd';

/// The letter standing for an opening parenthesis.
pub const OPEN_PAREN: char = 'e';

/// The letter standing for a closing parenthesis.
pub const CLOSE_PAREN: char = 'f';

/// The classification of one input character: an operator letter, a decimal
/// digit carrying its value, or ignorable whitespace.
#[derive(Clone, Copy, Eq, PartialEq, Debug)]
pub enum Operand {
    Operator(char),
    Digit(u32),
    Whitespace,
}

/// Whether a character counts as whitespace under the host text model.
pub uninterp spec fn is_whitespace_char(c: char) -> bool;

/// Relies on `char::is_whitespace`: tells whether the character has the
/// Unicode `White_Space` property, a function of the character alone.
#[verifier::external_body]
pub(crate) fn whitespace_check(c: char) -> (r: bool)
    ensures
        r == is_whitespace_char(c),
{
    c.is_whitespace()
}

/// What `Operand::parse` returns for each character: digits first, then the
/// six operator letters, then whitespace; anything else is unrecognized.
pub open spec fn spec_parse(ch: char) -> Option<Operand> {
    if '0' <= ch && ch <= '9' {
        Some(Operand::Digit((ch as u32 - '0' as u32) as u32))
    } else if ch == ADDITION {
        Some(Operand::Operator(ADDITION))
    } else if ch == SUBTRACTION {
        Some(Operand::Operator(SUBTRACTION))
    } else if ch == MULTIPLICATION {
        Some(Operand::Operator(MULTIPLICATION))
    } else if ch == DIVISION {
        Some(Operand::Operator(DIVISION))
    } else if ch == OPEN_PAREN {
        Some(Operand::Operator(OPEN_PAREN))
    } else if ch == CLOSE_PAREN {
        Some(Operand::Operator(CLOSE_PAREN))
    } else if is_whitespace_char(ch) {
        Some(Operand::Whitespace)
    } else {
        None
    }
}

impl Operand {
    /// Classify one character, or return `None` for a character outside the
    /// recognized token set.
    pub fn parse(ch: char) -> (r: Option<Operand>)
        ensures
            r == spec_parse(ch),
    {
        if '0' <= ch && ch <= '9' {
            Some(Operand::Digit(ch as u32 - '0' as u32))
        } else if ch == ADDITION {
            Some(Operand::Operator(ADDITION))
        } else if ch == SUBTRACTION {
            Some(Operand::Operator(SUBTRACTION))
        } else if ch == MULTIPLICATION {
            Some(Operand::Operator(MULTIPLICATION))
        } else if ch == DIVISION {
            Some(Operand::Operator(DIVISION))
        } else if ch == OPEN_PAREN {
            Some(Operand::Operator(OPEN_PAREN))
        } else if ch == CLOSE_PAREN {
            Some(Operand::Operator(CLOSE_PAREN))
        } else if whitespace_check(ch) {
            Some(Operand::Whitespace)
        } else {
            None
        }
    }
}

} // verus!
