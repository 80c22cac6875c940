//! The grammar of one table.
//!
//! A table is read from left to right by four parsers, each of which starts
//! where the one before it stopped:
//!
//! ```text
//! table      = top expression middle row
//! top        = { any character but the wall } wall
//! expression = { blank } number "d" number [ modifier ] { blank }
//! modifier   = ( "+" | "-" ) number
//! middle     = { any character but the crossing } { any character but the wall } wall
//! row        = { blank } number { blank { blank } number } { blank } divider
//!              { blank } "[" number "]" { blank }
//! number     = digit { digit }
//! ```
//!
//! Every repetition takes as much as it can. A number must fit the machine,
//! and the two numbers of the expression must not be zero. What follows the
//! data row belongs to the frame and is not looked at.
//!
//! Each parser has a model on the text that is still to be read: it gives
//! what the parser finds and how many characters it takes, or `None` where
//! the text does not fit. The parser itself takes the whole text and a
//! position in it, and gives what it found and the position behind it.

use vstd::prelude::*;
use crate::glyph::{CharClass, CROSS, DIE_MARK, DIVIDER, MINUS, PLUS, SUM_CLOSE, SUM_OPEN, WALL};
use crate::number::{number, read_number, lemma_number_props};
use crate::roll::{
    as_nats, DiceExpression, DiceExpressionView, DiceRollInstance, DiceRollInstanceView,
};
use crate::scan::{
    blank_run, digit_run, gap_before, lemma_run_len_props, lemma_skip_skip, scan_run, seek,
};

verus! {

/// The top of the frame: everything up to the first wall, and that wall.
pub open spec fn table_top(r: Seq<char>) -> Option<nat> {
    let n = gap_before(r, WALL);
    if n < r.len() {
        Some(n + 1)
    } else {
        None
    }
}

/// A modifier at the head of `r`: a sign and, right behind it, a number. A
/// sign without a digit behind it is no modifier: the modifier is then zero
/// and takes nothing, as where there is no sign. There is no result where the
/// number is too large for the machine.
pub open spec fn modifier(r: Seq<char>) -> Option<(int, nat)> {
    if r.len() > 0 && (r[0] == PLUS || r[0] == MINUS) && digit_run(r.skip(1)) > 0 {
        match number(r.skip(1), isize::MAX as nat) {
            Some((value, n)) => Some(
                (
                    if r[0] == MINUS {
                        -(value as int)
                    } else {
                        value as int
                    },
                    n + 1,
                ),
            ),
            None => None,
        }
    } else {
        Some((0, 0))
    }
}

/// The dice expression at the head of `r`, blanks before and after it
/// included: a number of dice, the die mark, a number of faces and perhaps a
/// modifier, with nothing between them. Neither number may be zero or too
/// large for the machine.
#[verifier::opaque]
pub open spec fn dice_expression(r: Seq<char>) -> Option<(DiceExpressionView, nat)> {
    let lead = blank_run(r);
    match number(r.skip(lead as int), usize::MAX as nat) {
        None => None,
        Some((count, n1)) => {
            let mark = lead + n1;
            if !(mark < r.len() && r[mark as int] == DIE_MARK) {
                None
            } else {
                match number(r.skip((mark + 1) as int), usize::MAX as nat) {
                    None => None,
                    Some((faces, n2)) => {
                        let sign = mark + 1 + n2;
                        match modifier(r.skip(sign as int)) {
                            None => None,
                            Some((bonus, n3)) => {
                                let tail = sign + n3;
                                if count == 0 || faces == 0 {
                                    None
                                } else {
                                    Some(
                                        (
                                            DiceExpressionView { count, faces, modifier: bonus },
                                            tail + blank_run(r.skip(tail as int)),
                                        ),
                                    )
                                }
                            },
                        }
                    },
                }
            }
        },
    }
}

/// The rows between the dice expression and the data row: everything up to
/// the first crossing, then everything up to the next wall, and that wall.
pub open spec fn table_middle(r: Seq<char>) -> Option<nat> {
    let cross = gap_before(r, CROSS);
    if cross >= r.len() {
        None
    } else {
        let wall = cross + gap_before(r.skip(cross as int), WALL);
        if wall >= r.len() {
            None
        } else {
            Some(wall + 1)
        }
    }
}

/// The numbers at the head of `r`: one at least, each set off from the next
/// by one blank or more. The blanks behind the last number are not taken.
pub open spec fn roll_list(r: Seq<char>) -> Option<(Seq<nat>, nat)>
    decreases r.len(),
    via roll_list_decreases
{
    match number(r, usize::MAX as nat) {
        None => None,
        Some((first, n)) => {
            let next = n + blank_run(r.skip(n as int));
            if next > n && digit_run(r.skip(next as int)) > 0 {
                match roll_list(r.skip(next as int)) {
                    None => None,
                    Some((others, m)) => Some((seq![first] + others, next + m)),
                }
            } else {
                Some((seq![first], n))
            }
        },
    }
}

#[via_fn]
proof fn roll_list_decreases(r: Seq<char>) {
    lemma_number_props(r, usize::MAX as nat);
    if let Some((first, n)) = number(r, usize::MAX as nat) {
        lemma_run_len_props(r.skip(n as int), CharClass::Blank);
    }
}

/// The list holds a number, and ends inside the text.
pub proof fn lemma_roll_list_props(r: Seq<char>)
    ensures
        roll_list(r) matches Some((rolls, n)) ==> rolls.len() >= 1 && 0 < n <= r.len(),
    decreases r.len(),
{
    lemma_number_props(r, usize::MAX as nat);
    if let Some((first, n)) = number(r, usize::MAX as nat) {
        lemma_run_len_props(r.skip(n as int), CharClass::Blank);
        let next = n + blank_run(r.skip(n as int));
        if next > n && digit_run(r.skip(next as int)) > 0 {
            lemma_roll_list_props(r.skip(next as int));
        }
    }
}

/// The data row at the head of `r`: the list of rolls, the divider, and the
/// sum in its brackets, with any blanks around each of the three. Gives the
/// rolls as the row shows them and the sum.
#[verifier::opaque]
pub open spec fn data_row(r: Seq<char>) -> Option<((Seq<nat>, nat), nat)> {
    let lead = blank_run(r);
    match roll_list(r.skip(lead as int)) {
        None => None,
        Some((rolls, n)) => {
            let bar = lead + n + blank_run(r.skip((lead + n) as int));
            if !(bar < r.len() && r[bar as int] == DIVIDER) {
                None
            } else {
                let open = bar + 1 + blank_run(r.skip((bar + 1) as int));
                if !(open < r.len() && r[open as int] == SUM_OPEN) {
                    None
                } else {
                    match number(r.skip((open + 1) as int), usize::MAX as nat) {
                        None => None,
                        Some((total, n2)) => {
                            let close = open + 1 + n2;
                            if !(close < r.len() && r[close as int] == SUM_CLOSE) {
                                None
                            } else {
                                Some(
                                    (
                                        (rolls, total),
                                        close + 1 + blank_run(r.skip((close + 1) as int)),
                                    ),
                                )
                            }
                        },
                    }
                }
            }
        },
    }
}

/// A data row shows at least one number.
pub proof fn lemma_data_row_props(r: Seq<char>)
    ensures
        data_row(r) matches Some(((shown, total), n)) ==> shown.len() >= 1,
{
    reveal(data_row);
    lemma_roll_list_props(r.skip(blank_run(r) as int));
}

/// The faces that came up, given the numbers of the data row. Where the
/// expression has a modifier, the row shows it as one more number behind the
/// faces: that number is no roll and is left out. Where it has none, every
/// number is a roll.
pub open spec fn true_rolls(modifier: int, shown: Seq<nat>) -> Seq<nat> {
    if modifier != 0 && shown.len() > 0 {
        shown.drop_last()
    } else {
        shown
    }
}

/// The roll that a dice expression and a data row make.
pub open spec fn roll_of(expr: DiceExpressionView, shown: Seq<nat>, total: nat)
    -> DiceRollInstanceView {
    DiceRollInstanceView {
        number_of_dice: expr.count,
        size_of_dice: expr.faces,
        modifier: expr.modifier,
        dice_rolls: true_rolls(expr.modifier, shown),
        total,
    }
}

/// The dice expression and the data row of the table in `seg`, with the
/// numbers of the row as the row shows them: the four parts of a table must
/// follow one another from the start of `seg`. What stands behind the data
/// row is not looked at.
pub open spec fn table_parts(seg: Seq<char>) -> Option<(DiceExpressionView, (Seq<nat>, nat))> {
    match table_top(seg) {
        None => None,
        Some(n0) => match dice_expression(seg.skip(n0 as int)) {
            None => None,
            Some((expr, n1)) => match table_middle(seg.skip((n0 + n1) as int)) {
                None => None,
                Some(n2) => match data_row(seg.skip((n0 + n1 + n2) as int)) {
                    None => None,
                    Some((row, n3)) => Some((expr, row)),
                },
            },
        },
    }
}

/// The roll that the table in `seg` shows.
pub open spec fn table_of(seg: Seq<char>) -> Option<DiceRollInstanceView> {
    match table_parts(seg) {
        Some((expr, (shown, total))) => Some(roll_of(expr, shown, total)),
        None => None,
    }
}

/// Moves past the top of the frame. Returns the position behind the first
/// wall at or after `pos`.
pub fn parse_table_top(s: &[char], pos: usize) -> (r: Option<usize>)
    requires
        pos <= s.len(),
    ensures
        match table_top(s@.skip(pos as int)) {
            Some(n) => r matches Some(end) && end == pos + n && end <= s@.len(),
            None => r is None,
        },
{
    match seek(s, pos, WALL) {
        Some(at) => Some(at + 1),
        None => None,
    }
}

/// Reads a modifier at `pos`. Returns its value and the position behind it;
/// zero and `pos` where there is none.
pub fn parse_modifier(s: &[char], pos: usize) -> (r: Option<(isize, usize)>)
    requires
        pos <= s.len(),
    ensures
        match modifier(s@.skip(pos as int)) {
            Some((value, n)) => r matches Some((found, end)) && found == value && end == pos
                + n && end <= s@.len() && -isize::MAX <= value <= isize::MAX,
            None => r is None,
        },
{
    let ghost rest = s@.skip(pos as int);
    if pos < s.len() && (s[pos] == PLUS || s[pos] == MINUS) {
        proof {
            lemma_skip_skip(s@, pos as int, 1);
        }
        let negative = s[pos] == MINUS;
        if pos + 1 < s.len() && CharClass::Digit.accepts(s[pos + 1]) {
            assert(rest.skip(1)[0] == s@[pos + 1]);
            assert(digit_run(rest.skip(1)) > 0);
            match read_number(s, pos + 1, isize::MAX as usize) {
                Some((value, end)) => {
                    let signed = value as isize;
                    if negative {
                        Some((0 - signed, end))
                    } else {
                        Some((signed, end))
                    }
                },
                None => None,
            }
        } else {
            assert(digit_run(rest.skip(1)) == 0) by {
                if pos + 1 < s@.len() {
                    assert(rest.skip(1)[0] == s@[pos + 1]);
                }
            }
            Some((0, pos))
        }
    } else {
        Some((0, pos))
    }
}

/// Reads the dice expression that starts at `pos`, with the blanks around
/// it. Returns the expression and the position behind it.
pub fn parse_dice_input(s: &[char], pos: usize) -> (r: Option<(DiceExpression, usize)>)
    requires
        pos <= s.len(),
    ensures
        match dice_expression(s@.skip(pos as int)) {
            Some((expr, n)) => r matches Some((found, end)) && found@ == expr && expr.wf() && end
                == pos + n && end <= s@.len(),
            None => r is None,
        },
{
    let ghost rest = s@.skip(pos as int);
    proof {
        reveal(dice_expression);
    }
    let start = scan_run(s, pos, CharClass::Blank);
    proof {
        lemma_skip_skip(s@, pos as int, start - pos);
    }
    let (count, mark) = match read_number(s, start, usize::MAX) {
        Some(found) => found,
        None => {
            return None;
        },
    };
    proof {
        lemma_skip_skip(s@, pos as int, mark - pos);
    }
    if !(mark < s.len() && s[mark] == DIE_MARK) {
        return None;
    }
    proof {
        lemma_skip_skip(s@, pos as int, mark + 1 - pos);
    }
    let (faces, sign) = match read_number(s, mark + 1, usize::MAX) {
        Some(found) => found,
        None => {
            return None;
        },
    };
    proof {
        lemma_skip_skip(s@, pos as int, sign - pos);
    }
    let (bonus, tail) = match parse_modifier(s, sign) {
        Some(found) => found,
        None => {
            return None;
        },
    };
    proof {
        lemma_skip_skip(s@, pos as int, tail - pos);
    }
    if count == 0 || faces == 0 {
        return None;
    }
    let end = scan_run(s, tail, CharClass::Blank);
    Some((DiceExpression { count, faces, modifier: bonus }, end))
}

/// Moves past the rows between the dice expression and the data row. Returns
/// the position behind the wall that opens the data row.
pub fn parse_table_middle(s: &[char], pos: usize) -> (r: Option<usize>)
    requires
        pos <= s.len(),
    ensures
        match table_middle(s@.skip(pos as int)) {
            Some(n) => r matches Some(end) && end == pos + n && end <= s@.len(),
            None => r is None,
        },
{
    let cross = match seek(s, pos, CROSS) {
        Some(at) => at,
        None => {
            return None;
        },
    };
    proof {
        lemma_skip_skip(s@, pos as int, cross - pos);
    }
    match seek(s, cross, WALL) {
        Some(at) => Some(at + 1),
        None => None,
    }
}

/// What [`roll_list`] gives for a text whose first numbers are already read:
/// `read` in front of the numbers that follow, `offset` added to their
/// length.
pub open spec fn continued(read: Seq<nat>, offset: nat, rest: Option<(Seq<nat>, nat)>) -> Option<
    (Seq<nat>, nat),
> {
    match rest {
        Some((others, m)) => Some((read + others, offset + m)),
        None => None,
    }
}

/// Reads the list of rolls that starts at `pos`. Returns the numbers and the
/// position behind the last of them.
pub fn parse_roll_list(s: &[char], pos: usize) -> (r: Option<(Vec<usize>, usize)>)
    requires
        pos <= s.len(),
    ensures
        match roll_list(s@.skip(pos as int)) {
            Some((rolls, n)) => r matches Some((found, end)) && as_nats(found@) == rolls && end
                == pos + n && end <= s@.len() && found@.len() >= 1,
            None => r is None,
        },
{
    let mut rolls: Vec<usize> = Vec::new();
    let mut cur = pos;
    loop
        invariant
            pos <= cur <= s.len(),
            roll_list(s@.skip(pos as int)) == continued(
                as_nats(rolls@),
                (cur - pos) as nat,
                roll_list(s@.skip(cur as int)),
            ),
        decreases s@.len() - cur,
    {
        let ghost rest = s@.skip(cur as int);
        let ghost before = as_nats(rolls@);
        match read_number(s, cur, usize::MAX) {
            None => {
                return None;
            },
            Some((value, after)) => {
                rolls.push(value);
                assert(as_nats(rolls@) =~= before + seq![value as nat]);
                let next = scan_run(s, after, CharClass::Blank);
                proof {
                    lemma_skip_skip(s@, cur as int, after - cur);
                    lemma_skip_skip(s@, cur as int, next - cur);
                }
                if next > after && next < s.len() && CharClass::Digit.accepts(s[next]) {
                    assert(rest.skip(next - cur)[0] == s@[next as int]);
                    assert(digit_run(rest.skip(next - cur)) > 0);
                    proof {
                        let tail = roll_list(s@.skip(next as int));
                        if let Some((others, m)) = tail {
                            assert(before + (seq![value as nat] + others) =~= as_nats(rolls@)
                                + others);
                        }
                    }
                    cur = next;
                } else {
                    assert(!(next > after && digit_run(rest.skip(next - cur)) > 0)) by {
                        if next < s@.len() {
                            assert(rest.skip(next - cur)[0] == s@[next as int]);
                        }
                    }
                    assert(before + seq![value as nat] =~= as_nats(rolls@));
                    return Some((rolls, after));
                }
            },
        }
    }
}

/// Reads the data row that starts at `pos`. Returns the numbers of the row
/// with the sum, and the position behind the row.
pub fn parse_dice_output(s: &[char], pos: usize) -> (r: Option<((Vec<usize>, usize), usize)>)
    requires
        pos <= s.len(),
    ensures
        match data_row(s@.skip(pos as int)) {
            Some(((rolls, total), n)) => r matches Some(((found, sum), end)) && as_nats(found@)
                == rolls && sum == total && end == pos + n && end <= s@.len() && found@.len()
                >= 1,
            None => r is None,
        },
{
    proof {
        reveal(data_row);
    }
    let start = scan_run(s, pos, CharClass::Blank);
    proof {
        lemma_skip_skip(s@, pos as int, start - pos);
    }
    let (rolls, after) = match parse_roll_list(s, start) {
        Some(found) => found,
        None => {
            return None;
        },
    };
    proof {
        lemma_skip_skip(s@, pos as int, after - pos);
    }
    let bar = scan_run(s, after, CharClass::Blank);
    proof {
        lemma_skip_skip(s@, pos as int, bar - pos);
    }
    if !(bar < s.len() && s[bar] == DIVIDER) {
        return None;
    }
    proof {
        lemma_skip_skip(s@, pos as int, bar + 1 - pos);
    }
    let open = scan_run(s, bar + 1, CharClass::Blank);
    proof {
        lemma_skip_skip(s@, pos as int, open - pos);
    }
    if !(open < s.len() && s[open] == SUM_OPEN) {
        return None;
    }
    proof {
        lemma_skip_skip(s@, pos as int, open + 1 - pos);
    }
    let (total, close) = match read_number(s, open + 1, usize::MAX) {
        Some(found) => found,
        None => {
            return None;
        },
    };
    proof {
        lemma_skip_skip(s@, pos as int, close - pos);
    }
    if !(close < s.len() && s[close] == SUM_CLOSE) {
        return None;
    }
    proof {
        lemma_skip_skip(s@, pos as int, close + 1 - pos);
    }
    let end = scan_run(s, close + 1, CharClass::Blank);
    Some(((rolls, total), end))
}

/// Makes the roll of a table from its dice expression and its data row.
/// Where the expression has a modifier, the last number of the row stands for
/// it and is left out of the rolls; where it has none, every number stays.
pub fn assemble_roll(expr: DiceExpression, shown: Vec<usize>, total: usize) -> (roll:
    DiceRollInstance)
    ensures
        roll@ == roll_of(expr@, as_nats(shown@), total as nat),
{
    let mut dice_rolls = shown;
    if expr.modifier != 0 && dice_rolls.len() > 0 {
        dice_rolls.pop();
        assert(as_nats(dice_rolls@) =~= as_nats(shown@).drop_last());
    }
    DiceRollInstance {
        number_of_dice: expr.count,
        size_of_dice: expr.faces,
        modifier: expr.modifier,
        dice_rolls,
        total,
    }
}

/// Reads the table in `seg`.
pub fn parse_table(seg: &[char]) -> (r: Option<DiceRollInstance>)
    ensures
        match table_of(seg@) {
            Some(roll) => r matches Some(found) && found@ == roll && roll.wf(),
            None => r is None,
        },
{
    assert(seg@.skip(0) =~= seg@);
    let expr_at = match parse_table_top(seg, 0) {
        Some(at) => at,
        None => {
            return None;
        },
    };
    let (expr, middle_at) = match parse_dice_input(seg, expr_at) {
        Some(found) => found,
        None => {
            return None;
        },
    };
    let row_at = match parse_table_middle(seg, middle_at) {
        Some(at) => at,
        None => {
            return None;
        },
    };
    let ((shown, total), _end) = match parse_dice_output(seg, row_at) {
        Some(found) => found,
        None => {
            return None;
        },
    };
    Some(assemble_roll(expr, shown, total))
}

} // verus!
