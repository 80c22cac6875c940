//! The characters that carry meaning in a message, and the character classes
//! that the grammar is built from.

use vstd::prelude::*;

verus! {

/// The character that code fences are made of.
pub const FENCE_TICK: char = '`';

/// The double vertical bar that walls a table in on the left and right.
pub const WALL: char = '\u{2551}';

/// The crossing in the rule between the column headers and the data row.
pub const CROSS: char = '\u{253C}';

/// The light vertical bar between the rolls and their sum.
pub const DIVIDER: char = '\u{2502}';

/// Stands between the number of dice and the number of faces.
pub const DIE_MARK: char = 'd';

/// Sign of a modifier that is added.
pub const PLUS: char = '+';

/// Sign of a modifier that is taken away.
pub const MINUS: char = '-';

/// Opens the sum.
pub const SUM_OPEN: char = '[';

/// Closes the sum.
pub const SUM_CLOSE: char = ']';

/// Space, tab, carriage return and line feed.
pub open spec fn is_blank(c: char) -> bool {
    c == ' ' || c == '\t' || c == '\r' || c == '\n'
}

/// The ten decimal digits.
pub open spec fn is_digit(c: char) -> bool {
    '0' <= c && c <= '9'
}

/// The number that a decimal digit stands for.
pub open spec fn digit_value(c: char) -> nat
    recommends
        is_digit(c),
{
    (c as int - '0' as int) as nat
}

/// A set of characters that a scan may run over.
#[derive(Clone, Copy, Debug)]
pub enum CharClass {
    /// Space, tab, carriage return and line feed.
    Blank,
    /// The ten decimal digits.
    Digit,
    /// Every character but the given one.
    Except(char),
}

impl CharClass {
    /// Whether `c` belongs to the class.
    pub open spec fn holds(self, c: char) -> bool {
        match self {
            CharClass::Blank => is_blank(c),
            CharClass::Digit => is_digit(c),
            CharClass::Except(stop) => c != stop,
        }
    }

    /// Tells whether `c` belongs to the class.
    pub fn accepts(&self, c: char) -> (b: bool)
        ensures
            b == self.holds(c),
    {
        match self {
            CharClass::Blank => c == ' ' || c == '\t' || c == '\r' || c == '\n',
            CharClass::Digit => '0' <= c && c <= '9',
            CharClass::Except(stop) => c != *stop,
        }
    }
}

/// The number that the decimal digit `c` stands for.
pub fn digit_of(c: char) -> (d: usize)
    requires
        is_digit(c),
    ensures
        d == digit_value(c),
        d <= 9,
{
    let code: u32 = c as u32;
    (code - 48) as usize
}

} // verus!
