//! A table that is written out is read back.
//!
//! The proofs go by where each part of the text stands: a part that stands at
//! a position, with nothing behind it that would carry it on, is what the
//! parser for that part finds there.

use vstd::prelude::*;
use crate::glyph::{
    is_blank, is_digit, CharClass, CROSS, DIE_MARK, DIVIDER, FENCE_TICK, MINUS, PLUS, SUM_CLOSE,
    SUM_OPEN, WALL,
};
use crate::number::number;
use crate::render::{
    cell, digits, expression_of, expression_text, free_of, header_text, lemma_digits, magnitude,
    middle_text, modifier_text, repeat, roll_fits, row_line, row_text, shown_numbers, spaces,
    sum_text, table_text, usual_frame, Frame,
};
use crate::roll::{DiceExpressionView, DiceRollInstanceView};
use crate::scan::{blank_run, digit_run, gap_before, lemma_run_len_is, lemma_skip_skip, run_len};
use crate::table::{
    data_row, dice_expression, modifier, roll_list, table_middle, table_of, true_rolls,
};

verus! {

/// Whether `text` stands in `r` at the position `at`.
#[verifier::opaque]
pub open spec fn stands_at(r: Seq<char>, at: int, text: Seq<char>) -> bool {
    &&& 0 <= at
    &&& at + text.len() <= r.len()
    &&& forall|j: int| 0 <= j < text.len() ==> r[at + j] == #[trigger] text[j]
}

/// Whether a run of `class` that reaches the position `at` ends there: the
/// text ends, or a character that is not of the class stands there.
pub open spec fn stops(r: Seq<char>, at: int, class: CharClass) -> bool {
    at == r.len() || (0 <= at < r.len() && !class.holds(r[at]))
}

/// A text that stands somewhere lies inside, and starts with what stands
/// there.
pub proof fn lemma_first(r: Seq<char>, at: int, text: Seq<char>)
    requires
        stands_at(r, at, text),
    ensures
        0 <= at,
        at + text.len() <= r.len(),
        text.len() > 0 ==> r[at] == text[0],
{
    reveal(stands_at);
    if text.len() > 0 {
        assert(r[at + 0] == text[0]);
    }
}

/// A part of a text that stands somewhere stands there too, further on by
/// its place in the text.
pub proof fn lemma_within(r: Seq<char>, at: int, whole: Seq<char>, place: int, part: Seq<char>)
    requires
        stands_at(r, at, whole),
        stands_at(whole, place, part),
    ensures
        stands_at(r, at + place, part),
{
    reveal(stands_at);
    assert forall|j: int| 0 <= j < part.len() implies r[at + place + j] == #[trigger] part[j] by {
        assert(whole[place + j] == part[j]);
        assert(r[at + (place + j)] == whole[place + j]);
    }
}

/// Two texts that stand one behind the other stand there as one.
pub proof fn lemma_joined(r: Seq<char>, at: int, a: Seq<char>, b: Seq<char>)
    requires
        stands_at(r, at, a),
        stands_at(r, at + a.len(), b),
    ensures
        stands_at(r, at, a + b),
{
    reveal(stands_at);
    assert forall|j: int| 0 <= j < (a + b).len() implies r[at + j] == #[trigger] (a + b)[j] by {
        if j < a.len() {
            assert(r[at + j] == a[j]);
        } else {
            assert(r[at + a.len() + (j - a.len())] == b[j - a.len()]);
        }
    }
}

/// Every text stands at its own start, and nothing stands anywhere inside.
pub proof fn lemma_whole(r: Seq<char>, at: int)
    requires
        0 <= at <= r.len(),
    ensures
        stands_at(r, 0, r),
        stands_at(r, at, Seq::<char>::empty()),
{
    reveal(stands_at);
}

/// Where the parts of a text of two parts stand.
pub proof fn lemma_parts2(a: Seq<char>, b: Seq<char>)
    ensures
        stands_at(a + b, 0, a),
        stands_at(a + b, a.len() as int, b),
        (a + b).len() == a.len() + b.len(),
{
    reveal(stands_at);
}

/// Where the parts of a text of three parts stand.
pub proof fn lemma_parts3(a: Seq<char>, b: Seq<char>, c: Seq<char>)
    ensures
        stands_at(a + b + c, 0, a),
        stands_at(a + b + c, a.len() as int, b),
        stands_at(a + b + c, (a.len() + b.len()) as int, c),
        (a + b + c).len() == a.len() + b.len() + c.len(),
{
    lemma_parts2(a, b);
    lemma_parts2(a + b, c);
    lemma_within(a + b + c, 0, a + b, 0, a);
    lemma_within(a + b + c, 0, a + b, a.len() as int, b);
}

/// Where the parts of a text of four parts stand.
pub proof fn lemma_parts4(a: Seq<char>, b: Seq<char>, c: Seq<char>, d: Seq<char>)
    ensures
        stands_at(a + b + c + d, 0, a),
        stands_at(a + b + c + d, a.len() as int, b),
        stands_at(a + b + c + d, (a.len() + b.len()) as int, c),
        stands_at(a + b + c + d, (a.len() + b.len() + c.len()) as int, d),
        (a + b + c + d).len() == a.len() + b.len() + c.len() + d.len(),
{
    lemma_parts3(a, b, c);
    lemma_parts2(a + b + c, d);
    lemma_within(a + b + c + d, 0, a + b + c, 0, a);
    lemma_within(a + b + c + d, 0, a + b + c, a.len() as int, b);
    lemma_within(a + b + c + d, 0, a + b + c, (a.len() + b.len()) as int, c);
}

/// Where the parts of a text of five parts stand.
pub proof fn lemma_parts5(a: Seq<char>, b: Seq<char>, c: Seq<char>, d: Seq<char>, e: Seq<char>)
    ensures
        stands_at(a + b + c + d + e, 0, a),
        stands_at(a + b + c + d + e, a.len() as int, b),
        stands_at(a + b + c + d + e, (a.len() + b.len()) as int, c),
        stands_at(a + b + c + d + e, (a.len() + b.len() + c.len()) as int, d),
        stands_at(a + b + c + d + e, (a.len() + b.len() + c.len() + d.len()) as int, e),
        (a + b + c + d + e).len() == a.len() + b.len() + c.len() + d.len() + e.len(),
{
    lemma_parts4(a, b, c, d);
    lemma_parts2(a + b + c + d, e);
    lemma_within(a + b + c + d + e, 0, a + b + c + d, 0, a);
    lemma_within(a + b + c + d + e, 0, a + b + c + d, a.len() as int, b);
    lemma_within(a + b + c + d + e, 0, a + b + c + d, (a.len() + b.len()) as int, c);
    lemma_within(a + b + c + d + e, 0, a + b + c + d, (a.len() + b.len() + c.len()) as int, d);
}

/// A text of one class, with nothing of that class behind it, is the run of
/// that class where it stands.
pub proof fn lemma_run_at(r: Seq<char>, at: int, text: Seq<char>, class: CharClass)
    requires
        stands_at(r, at, text),
        forall|j: int| 0 <= j < text.len() ==> class.holds(#[trigger] text[j]),
        stops(r, at + text.len(), class),
    ensures
        run_len(r.skip(at), class) == text.len(),
{
    reveal(stands_at);
    let t = r.skip(at);
    assert forall|j: int| 0 <= j < text.len() implies class.holds(#[trigger] t[j]) by {
        assert(t[j] == r[at + j]);
        assert(class.holds(text[j]));
    }
    if text.len() < t.len() {
        assert(t[text.len() as int] == r[at + text.len()]);
    }
    lemma_run_len_is(t, class, text.len());
}

/// Spaces, with no blank behind them, are the blanks where they stand.
pub proof fn lemma_blanks_at(r: Seq<char>, at: int, n: nat)
    requires
        stands_at(r, at, spaces(n)),
        stops(r, at + n, CharClass::Blank),
    ensures
        blank_run(r.skip(at)) == n,
{
    lemma_run_at(r, at, spaces(n), CharClass::Blank);
}

/// A text without `stop`, with `stop` behind it, is what stands before the
/// first `stop`.
pub proof fn lemma_gap_at(r: Seq<char>, at: int, text: Seq<char>, stop: char)
    requires
        stands_at(r, at, text),
        free_of(text, stop),
        at + text.len() < r.len(),
        r[at + text.len()] == stop,
    ensures
        gap_before(r.skip(at), stop) == text.len(),
{
    lemma_first(r, at, text);
    lemma_run_at(r, at, text, CharClass::Except(stop));
}

/// A number that is written out is read where it stands, provided that no
/// digit follows it.
pub proof fn lemma_number_at(r: Seq<char>, at: int, n: nat, max: nat)
    requires
        stands_at(r, at, digits(n)),
        stops(r, at + digits(n).len(), CharClass::Digit),
        n <= max,
    ensures
        number(r.skip(at), max) == Some((n, digits(n).len())),
{
    lemma_digits(n);
    lemma_run_at(r, at, digits(n), CharClass::Digit);
    reveal(stands_at);
    let t = r.skip(at);
    assert(t.take(digits(n).len() as int) =~= digits(n)) by {
        assert forall|j: int| 0 <= j < digits(n).len() implies t[j] == #[trigger] digits(n)[j] by {
            assert(t[j] == r[at + j]);
        }
    }
}

/// Whether the character at `at`, if there is one, can stand behind a
/// modifier: it is no digit and no sign.
pub open spec fn ends_modifier(r: Seq<char>, at: int) -> bool {
    at == r.len() || (0 <= at < r.len() && !is_digit(r[at]) && r[at] != PLUS && r[at] != MINUS)
}

/// A modifier that is written out is read where it stands.
pub proof fn lemma_modifier_at(r: Seq<char>, at: int, m: int)
    requires
        stands_at(r, at, modifier_text(m)),
        ends_modifier(r, at + modifier_text(m).len()),
        -isize::MAX <= m <= isize::MAX,
    ensures
        modifier(r.skip(at)) == Some((m, modifier_text(m).len())),
{
    lemma_first(r, at, modifier_text(m));
    let t = r.skip(at);
    if m == 0 {
        if t.len() > 0 {
            assert(t[0] == r[at]);
        }
    } else {
        let sign = if m > 0 {
            PLUS
        } else {
            MINUS
        };
        let size = magnitude(m);
        lemma_digits(size);
        lemma_parts2(seq![sign], digits(size));
        lemma_within(r, at, modifier_text(m), 1, digits(size));
        lemma_first(r, at + 1, digits(size));
        lemma_skip_skip(r, at, 1);
        assert(t[0] == sign);
        assert(t.skip(1)[0] == r[at + 1]);
        assert(digit_run(t.skip(1)) > 0);
        lemma_number_at(r, at + 1, size, isize::MAX as nat);
    }
}

/// The parts of a dice expression, each where the one before it ends, make
/// the expression.
pub proof fn lemma_expression_parts(
    r: Seq<char>,
    at: int,
    lead: nat,
    count: (nat, nat),
    faces: (nat, nat),
    bonus: (int, nat),
    trail: nat,
)
    requires
        0 <= at,
        at + lead + count.1 + 1 + faces.1 + bonus.1 <= r.len(),
        blank_run(r.skip(at)) == lead,
        number(r.skip(at + lead), usize::MAX as nat) == Some(count),
        r[at + lead + count.1] == DIE_MARK,
        number(r.skip(at + lead + count.1 + 1), usize::MAX as nat) == Some(faces),
        modifier(r.skip(at + lead + count.1 + 1 + faces.1)) == Some(bonus),
        blank_run(r.skip(at + lead + count.1 + 1 + faces.1 + bonus.1)) == trail,
        count.0 >= 1,
        faces.0 >= 1,
    ensures
        dice_expression(r.skip(at)) == Some(
            (
                DiceExpressionView { count: count.0, faces: faces.0, modifier: bonus.0 },
                lead + count.1 + 1 + faces.1 + bonus.1 + trail,
            ),
        ),
{
    reveal(dice_expression);
    lemma_skip_skip(r, at, lead as int);
    lemma_skip_skip(r, at, (lead + count.1) as int);
    lemma_skip_skip(r, at, (lead + count.1 + 1) as int);
    lemma_skip_skip(r, at, (lead + count.1 + 1 + faces.1) as int);
    lemma_skip_skip(r, at, (lead + count.1 + 1 + faces.1 + bonus.1) as int);
}

/// Whether the character at `at`, if there is one, can stand behind a dice
/// expression: it is no blank, no digit and no sign.
pub open spec fn ends_expression(r: Seq<char>, at: int) -> bool {
    at == r.len() || (0 <= at < r.len() && !is_blank(r[at]) && !is_digit(r[at]) && r[at] != PLUS
        && r[at] != MINUS)
}

/// A dice expression that is written out, with spaces around it, is read
/// where it stands.
pub proof fn lemma_expression_at(r: Seq<char>, at: int, e: DiceExpressionView, pads: (nat, nat))
    requires
        stands_at(r, at, cell(expression_text(e), pads)),
        ends_expression(r, at + cell(expression_text(e), pads).len()),
        e.wf(),
        e.count <= usize::MAX,
        e.faces <= usize::MAX,
        -isize::MAX <= e.modifier <= isize::MAX,
    ensures
        dice_expression(r.skip(at)) == Some((e, cell(expression_text(e), pads).len())),
{
    let text = expression_text(e);
    let n1 = digits(e.count).len();
    let n2 = digits(e.faces).len();
    let n3 = modifier_text(e.modifier).len();
    let count_at: int = at + pads.0;
    let mark_at: int = count_at + n1;
    let faces_at: int = mark_at + 1;
    let bonus_at: int = faces_at + n2;
    let trail_at: int = bonus_at + n3;
    lemma_digits(e.count);
    lemma_digits(e.faces);
    lemma_first(r, at, cell(text, pads));
    lemma_parts3(spaces(pads.0), text, spaces(pads.1));
    lemma_parts4(digits(e.count), seq![DIE_MARK], digits(e.faces), modifier_text(e.modifier));
    lemma_within(r, at, cell(text, pads), 0, spaces(pads.0));
    lemma_within(r, at, cell(text, pads), pads.0 as int, text);
    lemma_within(r, at, cell(text, pads), (pads.0 + text.len()) as int, spaces(pads.1));
    lemma_within(r, count_at, text, 0, digits(e.count));
    lemma_within(r, count_at, text, n1 as int, seq![DIE_MARK]);
    lemma_within(r, count_at, text, (n1 + 1) as int, digits(e.faces));
    lemma_within(r, count_at, text, (n1 + 1 + n2) as int, modifier_text(e.modifier));
    lemma_first(r, count_at, digits(e.count));
    lemma_first(r, mark_at, seq![DIE_MARK]);
    lemma_first(r, faces_at, digits(e.faces));
    lemma_first(r, bonus_at, modifier_text(e.modifier));
    lemma_first(r, trail_at, spaces(pads.1));

    assert(ends_modifier(r, trail_at));
    assert(stops(r, bonus_at, CharClass::Digit));
    lemma_blanks_at(r, at, pads.0);
    lemma_number_at(r, count_at, e.count, usize::MAX as nat);
    lemma_number_at(r, faces_at, e.faces, usize::MAX as nat);
    lemma_modifier_at(r, bonus_at, e.modifier);
    lemma_blanks_at(r, trail_at, pads.1);
    lemma_expression_parts(
        r,
        at,
        pads.0,
        (e.count, n1),
        (e.faces, n2),
        (e.modifier, n3),
        pads.1,
    );
}

/// A row of numbers starts with a digit.
pub proof fn lemma_row_text_head(shown: Seq<nat>)
    requires
        shown.len() >= 1,
    ensures
        row_text(shown).len() >= 1,
        is_digit(row_text(shown)[0]),
{
    lemma_digits(shown[0]);
    if shown.len() > 1 {
        assert(row_text(shown)[0] == digits(shown[0])[0]);
    }
}

/// The numbers of a row that is written out are read where they stand,
/// whatever spaces follow them, provided that what follows the spaces starts
/// no number.
pub proof fn lemma_rolls_at(r: Seq<char>, at: int, shown: Seq<nat>, gap: nat)
    requires
        shown.len() >= 1,
        forall|i: int| 0 <= i < shown.len() ==> shown[i] <= usize::MAX,
        stands_at(r, at, row_text(shown)),
        stands_at(r, at + row_text(shown).len(), spaces(gap)),
        stops(r, at + row_text(shown).len() + gap, CharClass::Digit),
        stops(r, at + row_text(shown).len() + gap, CharClass::Blank),
    ensures
        roll_list(r.skip(at)) == Some((shown, row_text(shown).len())),
    decreases shown.len(),
{
    let first = shown[0];
    let n = digits(first).len();
    let end: int = at + row_text(shown).len();
    lemma_digits(first);
    lemma_first(r, at, row_text(shown));
    lemma_first(r, end, spaces(gap));
    if shown.len() == 1 {
        assert(stops(r, end, CharClass::Digit));
        lemma_number_at(r, at, first, usize::MAX as nat);
        lemma_blanks_at(r, end, gap);
        lemma_whole(r, end + gap);
        lemma_run_at(r, end + gap, Seq::<char>::empty(), CharClass::Digit);
        lemma_skip_skip(r, at, n as int);
        lemma_skip_skip(r, at, (n + gap) as int);
        assert(seq![first] =~= shown);
    } else {
        let others = shown.skip(1);
        lemma_parts3(digits(first), seq![' '], row_text(others));
        lemma_within(r, at, row_text(shown), 0, digits(first));
        lemma_within(r, at, row_text(shown), n as int, seq![' ']);
        lemma_within(r, at, row_text(shown), (n + 1) as int, row_text(others));
        lemma_first(r, at + n, seq![' ']);
        lemma_row_text_head(others);
        lemma_first(r, at + n + 1, row_text(others));
        assert(seq![' '] =~= spaces(1));
        lemma_number_at(r, at, first, usize::MAX as nat);
        lemma_blanks_at(r, at + n, 1);
        lemma_skip_skip(r, at, n as int);
        lemma_skip_skip(r, at, (n + 1) as int);
        assert(r.skip(at + n + 1)[0] == r[at + n + 1]);
        assert(digit_run(r.skip(at + n + 1)) > 0);
        lemma_rolls_at(r, at + n + 1, others, gap);
        assert(seq![first] + others =~= shown);
    }
}

/// The parts of a data row, each where the one before it ends, make the row.
pub proof fn lemma_row_parts(
    r: Seq<char>,
    at: int,
    lead: nat,
    rolls: (Seq<nat>, nat),
    gap: nat,
    pad: nat,
    total: (nat, nat),
    trail: nat,
)
    requires
        0 <= at,
        at + lead + rolls.1 + gap + 1 + pad + 1 + total.1 + 1 <= r.len(),
        blank_run(r.skip(at)) == lead,
        roll_list(r.skip(at + lead)) == Some(rolls),
        blank_run(r.skip(at + lead + rolls.1)) == gap,
        r[at + lead + rolls.1 + gap] == DIVIDER,
        blank_run(r.skip(at + lead + rolls.1 + gap + 1)) == pad,
        r[at + lead + rolls.1 + gap + 1 + pad] == SUM_OPEN,
        number(r.skip(at + lead + rolls.1 + gap + 1 + pad + 1), usize::MAX as nat) == Some(total),
        r[at + lead + rolls.1 + gap + 1 + pad + 1 + total.1] == SUM_CLOSE,
        blank_run(r.skip(at + lead + rolls.1 + gap + 1 + pad + 1 + total.1 + 1)) == trail,
    ensures
        data_row(r.skip(at)) == Some(
            ((rolls.0, total.0), lead + rolls.1 + gap + 1 + pad + 1 + total.1 + 1 + trail),
        ),
{
    reveal(data_row);
    lemma_skip_skip(r, at, lead as int);
    lemma_skip_skip(r, at, (lead + rolls.1) as int);
    lemma_skip_skip(r, at, (lead + rolls.1 + gap) as int);
    lemma_skip_skip(r, at, (lead + rolls.1 + gap + 1) as int);
    lemma_skip_skip(r, at, (lead + rolls.1 + gap + 1 + pad) as int);
    lemma_skip_skip(r, at, (lead + rolls.1 + gap + 1 + pad + 1) as int);
    lemma_skip_skip(r, at, (lead + rolls.1 + gap + 1 + pad + 1 + total.1) as int);
    lemma_skip_skip(r, at, (lead + rolls.1 + gap + 1 + pad + 1 + total.1 + 1) as int);
}

/// A data row that is written out is read where it stands.
pub proof fn lemma_row_at(r: Seq<char>, at: int, shown: Seq<nat>, total: nat, frame: Frame)
    requires
        stands_at(r, at, row_line(shown, total, frame)),
        stops(r, at + row_line(shown, total, frame).len(), CharClass::Blank),
        shown.len() >= 1,
        forall|i: int| 0 <= i < shown.len() ==> shown[i] <= usize::MAX,
        total <= usize::MAX,
    ensures
        data_row(r.skip(at)) == Some(((shown, total), row_line(shown, total, frame).len())),
{
    let line = row_line(shown, total, frame);
    let rolls = cell(row_text(shown), frame.rolls_pads);
    let sum = cell(sum_text(total), frame.sum_pads);
    let lead = frame.rolls_pads.0;
    let gap = frame.rolls_pads.1;
    let pad = frame.sum_pads.0;
    let trail = frame.sum_pads.1;
    let n = row_text(shown).len();
    let n2 = digits(total).len();
    let rolls_at: int = at + lead;
    let gap_at: int = rolls_at + n;
    let bar_at: int = gap_at + gap;
    let sum_at: int = bar_at + 1;
    let open_at: int = sum_at + pad;
    let total_at: int = open_at + 1;
    let close_at: int = total_at + n2;
    let trail_at: int = close_at + 1;
    lemma_digits(total);
    lemma_row_text_head(shown);
    lemma_first(r, at, line);
    lemma_parts3(rolls, seq![DIVIDER], sum);
    lemma_parts3(spaces(lead), row_text(shown), spaces(gap));
    lemma_parts3(spaces(pad), sum_text(total), spaces(trail));
    lemma_parts3(seq![SUM_OPEN], digits(total), seq![SUM_CLOSE]);
    lemma_within(r, at, line, 0, rolls);
    lemma_within(r, at, line, rolls.len() as int, seq![DIVIDER]);
    lemma_within(r, at, line, (rolls.len() + 1) as int, sum);
    lemma_within(r, at, rolls, 0, spaces(lead));
    lemma_within(r, at, rolls, lead as int, row_text(shown));
    lemma_within(r, at, rolls, (lead + n) as int, spaces(gap));
    lemma_within(r, sum_at, sum, 0, spaces(pad));
    lemma_within(r, sum_at, sum, pad as int, sum_text(total));
    lemma_within(r, sum_at, sum, pad + sum_text(total).len() as int, spaces(trail));
    lemma_within(r, open_at, sum_text(total), 0, seq![SUM_OPEN]);
    lemma_within(r, open_at, sum_text(total), 1, digits(total));
    lemma_within(r, open_at, sum_text(total), (1 + n2) as int, seq![SUM_CLOSE]);
    lemma_first(r, rolls_at, row_text(shown));
    lemma_first(r, bar_at, seq![DIVIDER]);
    lemma_first(r, open_at, seq![SUM_OPEN]);
    lemma_first(r, close_at, seq![SUM_CLOSE]);

    lemma_blanks_at(r, at, lead);
    lemma_rolls_at(r, rolls_at, shown, gap);
    lemma_blanks_at(r, gap_at, gap);
    lemma_blanks_at(r, sum_at, pad);
    lemma_number_at(r, total_at, total, usize::MAX as nat);
    lemma_blanks_at(r, trail_at, trail);
    lemma_row_parts(r, at, lead, (shown, n), gap, pad, (total, n2), trail);
}

/// The rows between a dice expression and a data row are passed where they
/// stand.
pub proof fn lemma_middle_at(r: Seq<char>, at: int, frame: Frame)
    requires
        stands_at(r, at, middle_text(frame)),
        frame.fits(),
    ensures
        table_middle(r.skip(at)) == Some(middle_text(frame).len()),
{
    let text = middle_text(frame);
    let before = seq![WALL] + frame.rule;
    let between = seq![CROSS] + frame.join;
    let cross: int = at + 1 + frame.rule.len();
    let wall: int = cross + 1 + frame.join.len();
    lemma_first(r, at, text);
    lemma_parts5(seq![WALL], frame.rule, seq![CROSS], frame.join, seq![WALL]);
    lemma_within(r, at, text, 0, seq![WALL]);
    lemma_within(r, at, text, 1, frame.rule);
    lemma_within(r, at, text, (1 + frame.rule.len()) as int, seq![CROSS]);
    lemma_within(r, at, text, (1 + frame.rule.len() + 1) as int, frame.join);
    lemma_within(r, at, text, (1 + frame.rule.len() + 1 + frame.join.len()) as int, seq![WALL]);
    lemma_joined(r, at, seq![WALL], frame.rule);
    lemma_joined(r, cross, seq![CROSS], frame.join);
    lemma_first(r, cross, seq![CROSS]);
    lemma_first(r, wall, seq![WALL]);
    assert(free_of(before, CROSS));
    assert(free_of(between, WALL));
    lemma_gap_at(r, at, before, CROSS);
    lemma_gap_at(r, cross, between, WALL);
    lemma_skip_skip(r, at, (1 + frame.rule.len()) as int);
}

/// Where the parts of a text of six parts stand.
pub proof fn lemma_parts6(
    a: Seq<char>,
    b: Seq<char>,
    c: Seq<char>,
    d: Seq<char>,
    e: Seq<char>,
    f: Seq<char>,
)
    ensures
        stands_at(a + b + c + d + e + f, 0, a),
        stands_at(a + b + c + d + e + f, a.len() as int, b),
        stands_at(a + b + c + d + e + f, (a.len() + b.len()) as int, c),
        stands_at(a + b + c + d + e + f, (a.len() + b.len() + c.len()) as int, d),
        stands_at(a + b + c + d + e + f, (a.len() + b.len() + c.len() + d.len()) as int, e),
        stands_at(a + b + c + d + e + f, (a.len() + b.len() + c.len() + d.len() + e.len()) as int, f),
        (a + b + c + d + e + f).len() == a.len() + b.len() + c.len() + d.len() + e.len() + f.len(),
{
    let whole = a + b + c + d + e + f;
    let front = a + b + c + d + e;
    lemma_parts5(a, b, c, d, e);
    lemma_parts2(front, f);
    lemma_within(whole, 0, front, 0, a);
    lemma_within(whole, 0, front, a.len() as int, b);
    lemma_within(whole, 0, front, (a.len() + b.len()) as int, c);
    lemma_within(whole, 0, front, (a.len() + b.len() + c.len()) as int, d);
    lemma_within(whole, 0, front, (a.len() + b.len() + c.len() + d.len()) as int, e);
}

/// Where the parts of a text of seven parts stand.
pub proof fn lemma_parts7(
    a: Seq<char>,
    b: Seq<char>,
    c: Seq<char>,
    d: Seq<char>,
    e: Seq<char>,
    f: Seq<char>,
    g: Seq<char>,
)
    ensures
        stands_at(a + b + c + d + e + f + g, 0, a),
        stands_at(a + b + c + d + e + f + g, a.len() as int, b),
        stands_at(a + b + c + d + e + f + g, (a.len() + b.len()) as int, c),
        stands_at(a + b + c + d + e + f + g, (a.len() + b.len() + c.len()) as int, d),
        stands_at(a + b + c + d + e + f + g, (a.len() + b.len() + c.len() + d.len()) as int, e),
        stands_at(
            a + b + c + d + e + f + g,
            (a.len() + b.len() + c.len() + d.len() + e.len()) as int,
            f,
        ),
        stands_at(
            a + b + c + d + e + f + g,
            (a.len() + b.len() + c.len() + d.len() + e.len() + f.len()) as int,
            g,
        ),
        (a + b + c + d + e + f + g).len() == a.len() + b.len() + c.len() + d.len() + e.len()
            + f.len() + g.len(),
{
    let whole = a + b + c + d + e + f + g;
    let front = a + b + c + d + e + f;
    lemma_parts6(a, b, c, d, e, f);
    lemma_parts2(front, g);
    lemma_within(whole, 0, front, 0, a);
    lemma_within(whole, 0, front, a.len() as int, b);
    lemma_within(whole, 0, front, (a.len() + b.len()) as int, c);
    lemma_within(whole, 0, front, (a.len() + b.len() + c.len()) as int, d);
    lemma_within(whole, 0, front, (a.len() + b.len() + c.len() + d.len()) as int, e);
    lemma_within(whole, 0, front, (a.len() + b.len() + c.len() + d.len() + e.len()) as int, f);
}

/// A table that is written out is read back: the table that shows a roll, in
/// whatever frame it is drawn, gives that roll, with its numbers, its rolls
/// and its sum as they were.
pub proof fn lemma_table_read(roll: DiceRollInstanceView, frame: Frame)
    requires
        roll_fits(roll),
        frame.fits(),
    ensures
        table_of(table_text(roll, frame)) == Some(roll),
{
    let e = expression_of(roll);
    let shown = shown_numbers(roll);
    let head = cell(expression_text(e), frame.expression_pads);
    let middle = middle_text(frame);
    let line = row_line(shown, roll.total, frame);
    let r = table_text(roll, frame);
    let wall_at: int = frame.top.len() as int;
    let head_at: int = wall_at + 1;
    let middle_at: int = head_at + head.len();
    let line_at: int = middle_at + middle.len();
    let close_at: int = line_at + line.len();
    lemma_parts7(frame.top, seq![WALL], head, middle, line, seq![WALL], frame.bottom);
    lemma_first(r, wall_at, seq![WALL]);
    assert(middle[0] == WALL);
    lemma_first(r, middle_at, middle);
    lemma_first(r, close_at, seq![WALL]);
    assert(r.skip(0) =~= r);
    lemma_gap_at(r, 0, frame.top, WALL);
    lemma_expression_at(r, head_at, e, frame.expression_pads);
    lemma_middle_at(r, middle_at, frame);
    assert forall|i: int| 0 <= i < shown.len() implies shown[i] <= usize::MAX by {
        if i < roll.dice_rolls.len() {
            assert(shown[i] == roll.dice_rolls[i]);
        }
    }
    lemma_row_at(r, line_at, shown, roll.total, frame);
    assert(true_rolls(roll.modifier, shown) =~= roll.dice_rolls);
}

/// A text of two parts holds `c` nowhere if neither part does.
pub proof fn lemma_free_of_sum(a: Seq<char>, b: Seq<char>, c: char)
    requires
        free_of(a, c),
        free_of(b, c),
    ensures
        free_of(a + b, c),
{
}

/// Digits are no ticks.
pub proof fn lemma_digits_tick_free(n: nat)
    ensures
        free_of(digits(n), FENCE_TICK),
{
    lemma_digits(n);
    assert forall|j: int| 0 <= j < digits(n).len() implies digits(n)[j] != FENCE_TICK by {
        assert(is_digit(digits(n)[j]));
    }
}

/// A row of numbers holds no tick.
pub proof fn lemma_row_text_tick_free(shown: Seq<nat>)
    ensures
        free_of(row_text(shown), FENCE_TICK),
    decreases shown.len(),
{
    if shown.len() >= 1 {
        lemma_digits_tick_free(shown[0]);
        if shown.len() > 1 {
            lemma_row_text_tick_free(shown.skip(1));
            lemma_free_of_sum(digits(shown[0]), seq![' '], FENCE_TICK);
            lemma_free_of_sum(digits(shown[0]) + seq![' '], row_text(shown.skip(1)), FENCE_TICK);
        }
    }
}

/// A table that is drawn in a frame that fits holds no tick.
pub proof fn lemma_table_text_tick_free(roll: DiceRollInstanceView, frame: Frame)
    requires
        frame.fits(),
    ensures
        free_of(table_text(roll, frame), FENCE_TICK),
{
    let e = expression_of(roll);
    let shown = shown_numbers(roll);
    let text = expression_text(e);
    let head = cell(text, frame.expression_pads);
    let middle = middle_text(frame);
    let rolls = cell(row_text(shown), frame.rolls_pads);
    let sum = cell(sum_text(roll.total), frame.sum_pads);
    let line = row_line(shown, roll.total, frame);
    let c = FENCE_TICK;
    lemma_digits_tick_free(e.count);
    lemma_digits_tick_free(e.faces);
    lemma_digits_tick_free(magnitude(e.modifier));
    lemma_digits_tick_free(roll.total);
    lemma_row_text_tick_free(shown);
    assert(free_of(modifier_text(e.modifier), c));
    assert(free_of(text, c)) by {
        lemma_free_of_sum(digits(e.count), seq![DIE_MARK], c);
        lemma_free_of_sum(digits(e.count) + seq![DIE_MARK], digits(e.faces), c);
        lemma_free_of_sum(
            digits(e.count) + seq![DIE_MARK] + digits(e.faces),
            modifier_text(e.modifier),
            c,
        );
    }
    assert(free_of(head, c)) by {
        lemma_free_of_sum(spaces(frame.expression_pads.0), text, c);
        lemma_free_of_sum(
            spaces(frame.expression_pads.0) + text,
            spaces(frame.expression_pads.1),
            c,
        );
    }
    assert(free_of(middle, c)) by {
        lemma_free_of_sum(seq![WALL], frame.rule, c);
        lemma_free_of_sum(seq![WALL] + frame.rule, seq![CROSS], c);
        lemma_free_of_sum(seq![WALL] + frame.rule + seq![CROSS], frame.join, c);
        lemma_free_of_sum(seq![WALL] + frame.rule + seq![CROSS] + frame.join, seq![WALL], c);
    }
    assert(free_of(rolls, c)) by {
        lemma_free_of_sum(spaces(frame.rolls_pads.0), row_text(shown), c);
        lemma_free_of_sum(
            spaces(frame.rolls_pads.0) + row_text(shown),
            spaces(frame.rolls_pads.1),
            c,
        );
    }
    assert(free_of(sum, c)) by {
        lemma_free_of_sum(seq![SUM_OPEN], digits(roll.total), c);
        lemma_free_of_sum(seq![SUM_OPEN] + digits(roll.total), seq![SUM_CLOSE], c);
        lemma_free_of_sum(spaces(frame.sum_pads.0), sum_text(roll.total), c);
        lemma_free_of_sum(
            spaces(frame.sum_pads.0) + sum_text(roll.total),
            spaces(frame.sum_pads.1),
            c,
        );
    }
    assert(free_of(line, c)) by {
        lemma_free_of_sum(rolls, seq![DIVIDER], c);
        lemma_free_of_sum(rolls + seq![DIVIDER], sum, c);
    }
    lemma_free_of_sum(frame.top, seq![WALL], c);
    lemma_free_of_sum(frame.top + seq![WALL], head, c);
    lemma_free_of_sum(frame.top + seq![WALL] + head, middle, c);
    lemma_free_of_sum(frame.top + seq![WALL] + head + middle, line, c);
    lemma_free_of_sum(frame.top + seq![WALL] + head + middle + line, seq![WALL], c);
    lemma_free_of_sum(
        frame.top + seq![WALL] + head + middle + line + seq![WALL],
        frame.bottom,
        c,
    );
}

/// The usual frame fits, whatever spaces it leaves around the cells.
pub proof fn lemma_usual_frame_fits(
    expression_pads: (nat, nat),
    rolls_pads: (nat, nat),
    sum_pads: (nat, nat),
)
    ensures
        usual_frame(expression_pads, rolls_pads, sum_pads).fits(),
{
    let frame = usual_frame(expression_pads, rolls_pads, sum_pads);
    assert(free_of(frame.top, WALL) && free_of(frame.top, FENCE_TICK));
    assert(free_of(frame.join, WALL) && free_of(frame.join, FENCE_TICK));
    assert(free_of(frame.bottom, FENCE_TICK));
    assert(free_of(header_text(), CROSS) && free_of(header_text(), FENCE_TICK));
    assert(free_of(frame.rule, CROSS) && free_of(frame.rule, FENCE_TICK));
}

} // verus!
