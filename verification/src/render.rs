//! How a roll is written down as a table.
//!
//! Nothing here runs: the functions build the text of a table as a sequence
//! of characters, so that the laws of the library can speak of every table
//! that can be drawn.

use vstd::prelude::*;
use crate::glyph::{
    digit_value, is_digit, CROSS, DIE_MARK, DIVIDER, FENCE_TICK, MINUS, PLUS, SUM_CLOSE, SUM_OPEN,
    WALL,
};
use crate::number::decimal;
use crate::roll::{DiceExpressionView, DiceRollInstanceView};

verus! {

/// The character `c`, `n` times.
pub open spec fn repeat(c: char, n: nat) -> Seq<char> {
    Seq::new(n, |i: int| c)
}

/// `n` spaces.
pub open spec fn spaces(n: nat) -> Seq<char> {
    repeat(' ', n)
}

/// The digit that stands for `d`, a number below ten.
pub open spec fn digit_char(d: nat) -> char
    recommends
        d < 10,
{
    ('0' as int + d) as char
}

/// The decimal digits of `n`, without zeros in front.
pub open spec fn digits(n: nat) -> Seq<char>
    decreases n,
{
    if n < 10 {
        seq![digit_char(n)]
    } else {
        digits(n / 10).push(digit_char(n % 10))
    }
}

/// Whether `c` occurs nowhere in `s`.
pub open spec fn free_of(s: Seq<char>, c: char) -> bool {
    forall|j: int| 0 <= j < s.len() ==> s[j] != c
}

/// The digits of a number are digits, there is one at least, and they stand
/// for the number.
pub proof fn lemma_digits(n: nat)
    ensures
        digits(n).len() >= 1,
        forall|j: int| 0 <= j < digits(n).len() ==> is_digit(#[trigger] digits(n)[j]),
        decimal(digits(n)) == n,
    decreases n,
{
    if n < 10 {
        assert(digits(n).drop_last() =~= Seq::<char>::empty());
        assert(decimal(digits(n).drop_last()) == 0);
        assert(digit_value(digit_char(n)) == n);
    } else {
        lemma_digits(n / 10);
        let d = digit_char(n % 10);
        assert(digits(n).drop_last() =~= digits(n / 10));
        assert(digit_value(d) == n % 10);
        assert(is_digit(d));
    }
}

/// How far a modifier is from zero.
pub open spec fn magnitude(m: int) -> nat {
    if m < 0 {
        (-m) as nat
    } else {
        m as nat
    }
}

/// A modifier as the expression shows it: nothing for zero, else the sign
/// and the digits of what is added or taken away.
pub open spec fn modifier_text(m: int) -> Seq<char> {
    if m > 0 {
        seq![PLUS] + digits(magnitude(m))
    } else if m < 0 {
        seq![MINUS] + digits(magnitude(m))
    } else {
        Seq::empty()
    }
}

/// A dice expression as a table shows it, such as `2d10+20`.
pub open spec fn expression_text(e: DiceExpressionView) -> Seq<char> {
    digits(e.count) + seq![DIE_MARK] + digits(e.faces) + modifier_text(e.modifier)
}

/// The numbers of a data row as the row shows them, one space between each
/// two.
pub open spec fn row_text(shown: Seq<nat>) -> Seq<char>
    decreases shown.len(),
{
    if shown.len() == 0 {
        Seq::empty()
    } else if shown.len() == 1 {
        digits(shown[0])
    } else {
        digits(shown[0]) + seq![' '] + row_text(shown.skip(1))
    }
}

/// A sum in its brackets.
pub open spec fn sum_text(total: nat) -> Seq<char> {
    seq![SUM_OPEN] + digits(total) + seq![SUM_CLOSE]
}

/// A text with spaces on both sides: `pads.0` before it and `pads.1` behind
/// it.
pub open spec fn cell(text: Seq<char>, pads: (nat, nat)) -> Seq<char> {
    spaces(pads.0) + text + spaces(pads.1)
}

/// The frame that a table is drawn in.
pub struct Frame {
    /// What stands before the wall that opens the line of the dice
    /// expression.
    pub top: Seq<char>,
    /// What stands between the wall that closes that line and the crossing.
    pub rule: Seq<char>,
    /// What stands between the crossing and the wall that opens the data row.
    pub join: Seq<char>,
    /// What stands behind the wall that closes the data row.
    pub bottom: Seq<char>,
    /// The spaces around the dice expression.
    pub expression_pads: (nat, nat),
    /// The spaces around the rolls.
    pub rolls_pads: (nat, nat),
    /// The spaces around the sum.
    pub sum_pads: (nat, nat),
}

impl Frame {
    /// Whether a table can be found in the frame: no wall stands before the
    /// first line or between the crossing and the data row, no crossing
    /// between the dice expression and the rule of the headers, and no tick
    /// anywhere.
    pub open spec fn fits(self) -> bool {
        &&& free_of(self.top, WALL)
        &&& free_of(self.rule, CROSS)
        &&& free_of(self.join, WALL)
        &&& free_of(self.top, FENCE_TICK)
        &&& free_of(self.rule, FENCE_TICK)
        &&& free_of(self.join, FENCE_TICK)
        &&& free_of(self.bottom, FENCE_TICK)
    }
}

/// The text between a dice expression and a data row: the wall that closes
/// the line of the expression, the rows down to the crossing, and what
/// follows the crossing down to the wall that opens the data row.
pub open spec fn middle_text(frame: Frame) -> Seq<char> {
    seq![WALL] + frame.rule + seq![CROSS] + frame.join + seq![WALL]
}

/// A data row from behind the wall that opens it up to the wall that closes
/// it: the numbers, the divider and the sum.
pub open spec fn row_line(shown: Seq<nat>, total: nat, frame: Frame) -> Seq<char> {
    cell(row_text(shown), frame.rolls_pads) + seq![DIVIDER] + cell(sum_text(total), frame.sum_pads)
}

/// The dice expression of a roll.
pub open spec fn expression_of(roll: DiceRollInstanceView) -> DiceExpressionView {
    DiceExpressionView {
        count: roll.number_of_dice,
        faces: roll.size_of_dice,
        modifier: roll.modifier,
    }
}

/// The numbers that the data row of a roll shows: the faces that came up
/// and, where there is a modifier, one more number behind them for what it
/// adds or takes away.
pub open spec fn shown_numbers(roll: DiceRollInstanceView) -> Seq<nat> {
    if roll.modifier != 0 {
        roll.dice_rolls.push(magnitude(roll.modifier))
    } else {
        roll.dice_rolls
    }
}

/// The table that shows `roll`, drawn in `frame`.
pub open spec fn table_text(roll: DiceRollInstanceView, frame: Frame) -> Seq<char> {
    frame.top + seq![WALL] + cell(expression_text(expression_of(roll)), frame.expression_pads)
        + middle_text(frame) + row_line(shown_numbers(roll), roll.total, frame) + seq![WALL]
        + frame.bottom
}

/// Whether a roll can be shown by a table and held by the machine: no number
/// is too large, and the data row has a number to show.
pub open spec fn roll_fits(roll: DiceRollInstanceView) -> bool {
    &&& roll.wf()
    &&& roll.number_of_dice <= usize::MAX
    &&& roll.size_of_dice <= usize::MAX
    &&& -isize::MAX <= roll.modifier <= isize::MAX
    &&& forall|i: int| 0 <= i < roll.dice_rolls.len() ==> roll.dice_rolls[i] <= usize::MAX
    &&& roll.total <= usize::MAX
    &&& (roll.modifier != 0 || roll.dice_rolls.len() >= 1)
}

/// The frame of the usual drawing: double lines around the table, a line of
/// column headers, and a light rule under it.
pub open spec fn usual_frame(
    expression_pads: (nat, nat),
    rolls_pads: (nat, nat),
    sum_pads: (nat, nat),
) -> Frame {
    Frame {
        top: seq!['\u{2554}'] + repeat('\u{2550}', 17) + seq!['\u{2557}', '\n'],
        rule: seq!['\n', '\u{2560}'] + repeat('\u{2550}', 10) + seq!['\u{2564}'] + repeat(
            '\u{2550}',
            6,
        ) + seq!['\u{2563}', '\n', WALL] + header_text() + seq![WALL, '\n', '\u{255F}'] + repeat(
            '\u{2500}',
            10,
        ),
        join: repeat('\u{2500}', 6) + seq!['\u{2562}', '\n'],
        bottom: seq!['\n', '\u{255A}'] + repeat('\u{2550}', 10) + seq!['\u{2567}'] + repeat(
            '\u{2550}',
            6,
        ) + seq!['\u{255D}'],
        expression_pads,
        rolls_pads,
        sum_pads,
    }
}

/// The line of column headers in the usual drawing, between its walls.
pub open spec fn header_text() -> Seq<char> {
    spaces(2) + seq!['r', 'o', 'l', 'l', 's'] + spaces(3) + seq![DIVIDER] + spaces(1) + seq![
        's',
        'u',
        'm',
    ] + spaces(2)
}

/// `n` ticks: a fence for three, the fences of two neighbours for six.
pub open spec fn ticks(n: nat) -> Seq<char> {
    repeat(FENCE_TICK, n)
}

/// The tables `texts` with the fences between them and the closing fence:
/// what stands behind the opening fence of a message.
pub open spec fn fenced_tail(texts: Seq<Seq<char>>) -> Seq<char>
    decreases texts.len(),
{
    if texts.len() == 0 {
        Seq::empty()
    } else if texts.len() == 1 {
        texts[0] + ticks(3)
    } else {
        texts[0] + (ticks(6) + fenced_tail(texts.skip(1)))
    }
}

/// The message that holds the tables `texts`, each in its fences and right
/// behind the one before.
pub open spec fn message_text(texts: Seq<Seq<char>>) -> Seq<char> {
    ticks(3) + fenced_tail(texts)
}

} // verus!
