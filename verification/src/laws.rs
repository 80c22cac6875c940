//! What holds of every message.

use vstd::prelude::*;
use crate::fence::{segments, segments_from, starts_with_ticks};
use crate::glyph::{is_blank, FENCE_TICK};
use crate::parser::message_rolls;
use crate::reading::{
    lemma_first, lemma_gap_at, lemma_parts2, lemma_parts7, lemma_table_read,
    lemma_table_text_tick_free, lemma_usual_frame_fits,
};
use crate::render::{
    fenced_tail, free_of, message_text, roll_fits, table_text, ticks, usual_frame, Frame,
};
use crate::roll::DiceRollInstanceView;
use crate::scan::lemma_skip_skip;
use crate::table::{lemma_data_row_props, table_of, table_parts};

verus! {

/// Tables that hold no tick, written one behind the other with their fences,
/// are cut apart again as they were put together.
pub proof fn lemma_tail_segments(texts: Seq<Seq<char>>)
    requires
        texts.len() >= 1,
        forall|i: int| 0 <= i < texts.len() ==> free_of(#[trigger] texts[i], FENCE_TICK),
    ensures
        segments_from(fenced_tail(texts)) == Some(texts),
    decreases texts.len(),
{
    let head = texts[0];
    let r = fenced_tail(texts);
    let behind = if texts.len() == 1 {
        ticks(3)
    } else {
        ticks(6) + fenced_tail(texts.skip(1))
    };
    assert(r == head + behind);
    assert(behind[0] == FENCE_TICK);
    lemma_parts2(head, behind);
    lemma_first(r, head.len() as int, behind);
    assert(r.skip(0) =~= r);
    lemma_gap_at(r, 0, head, FENCE_TICK);
    assert(r.skip(head.len() as int) =~= behind);
    assert(r.take(head.len() as int) =~= head);
    if texts.len() == 1 {
        assert(starts_with_ticks(behind, 3));
        assert(seq![head] =~= texts);
    } else {
        let others = texts.skip(1);
        assert(starts_with_ticks(behind, 6));
        assert(behind.skip(6) =~= fenced_tail(others));
        assert forall|i: int| 0 <= i < others.len() implies free_of(
            #[trigger] others[i],
            FENCE_TICK,
        ) by {
            assert(others[i] == texts[i + 1]);
        }
        lemma_tail_segments(others);
        assert(seq![head] + others =~= texts);
    }
}

/// The segments of a message that was put together from tables without
/// ticks are those tables.
pub proof fn lemma_message_segments(texts: Seq<Seq<char>>)
    requires
        texts.len() >= 1,
        forall|i: int| 0 <= i < texts.len() ==> free_of(#[trigger] texts[i], FENCE_TICK),
    ensures
        segments(message_text(texts)) == Some(texts),
{
    let message = message_text(texts);
    lemma_tail_segments(texts);
    assert(starts_with_ticks(message, 3));
    assert(message.skip(3) =~= fenced_tail(texts));
}

/// Writing a roll down and reading it back gives the roll.
///
/// Take any roll that the machine can hold and whose data row has a number to
/// show, and draw its table in any frame that fits. The message that holds
/// this one table gives exactly this roll: the numbers of its dice
/// expression, the faces that came up, in their order, and the sum as it was
/// written, whether or not it is the sum of the rolls.
pub proof fn law_round_trip(roll: DiceRollInstanceView, frame: Frame)
    requires
        roll_fits(roll),
        frame.fits(),
    ensures
        message_rolls(message_text(seq![table_text(roll, frame)])) == Some(seq![roll]),
{
    let texts = seq![table_text(roll, frame)];
    lemma_table_text_tick_free(roll, frame);
    lemma_table_read(roll, frame);
    lemma_message_segments(texts);
    assert(table_of(texts[0]) == Some(roll));
    assert(Seq::new(texts.len(), |i: int| table_of(texts[i])->0) =~= seq![roll]);
}

/// Writing a roll down in the usual frame and reading it back gives the
/// roll, whatever spaces the drawing leaves around the dice expression, the
/// rolls and the sum.
pub proof fn law_round_trip_usual(
    roll: DiceRollInstanceView,
    expression_pads: (nat, nat),
    rolls_pads: (nat, nat),
    sum_pads: (nat, nat),
)
    requires
        roll_fits(roll),
    ensures
        message_rolls(
            message_text(
                seq![table_text(roll, usual_frame(expression_pads, rolls_pads, sum_pads))],
            ),
        ) == Some(seq![roll]),
{
    lemma_usual_frame_fits(expression_pads, rolls_pads, sum_pads);
    law_round_trip(roll, usual_frame(expression_pads, rolls_pads, sum_pads));
}

/// The number that stands for the modifier is left out, and nothing else.
///
/// Of every table that can be read: where its dice expression has a
/// modifier, the rolls are the numbers of the data row without the last;
/// where it has none, they are all the numbers of the row.
pub proof fn law_modifier_correction(seg: Seq<char>)
    requires
        table_parts(seg) is Some,
    ensures
        ({
            let (expr, (shown, total)) = table_parts(seg)->0;
            &&& shown.len() >= 1
            &&& table_of(seg) matches Some(roll)
            &&& roll.modifier == expr.modifier
            &&& expr.modifier != 0 ==> roll.dice_rolls == shown.drop_last()
            &&& expr.modifier == 0 ==> roll.dice_rolls == shown
        }),
{
    let n0 = crate::table::table_top(seg)->0;
    let (expr, n1) = crate::table::dice_expression(seg.skip(n0 as int))->0;
    let n2 = crate::table::table_middle(seg.skip((n0 + n1) as int))->0;
    lemma_data_row_props(seg.skip((n0 + n1 + n2) as int));
}

/// A table whose data row shows one number for each die, and one more where
/// there is a modifier, gives as many rolls as its dice expression declares.
pub proof fn law_rolls_match_dice(seg: Seq<char>)
    requires
        table_parts(seg) matches Some((expr, (shown, total))) && shown.len() == expr.count + (
        if expr.modifier != 0 {
            1nat
        } else {
            0nat
        }),
    ensures
        table_of(seg) matches Some(roll) && roll.dice_rolls.len() == roll.number_of_dice,
{
    law_modifier_correction(seg);
}

/// All tables of a message are read, or none.
///
/// Take one table or more, none of which holds a tick, and put them into one
/// message, each right behind the fence of the one before. If every one of
/// them can be read, the message gives as many rolls as there are tables, in
/// the order of the tables. If a single one of them cannot be read, wherever
/// it stands, the message gives nothing.
pub proof fn law_all_or_nothing(texts: Seq<Seq<char>>)
    requires
        texts.len() >= 1,
        forall|i: int| 0 <= i < texts.len() ==> free_of(#[trigger] texts[i], FENCE_TICK),
    ensures
        (forall|i: int| 0 <= i < texts.len() ==> (#[trigger] table_of(texts[i])) is Some) ==> (
        message_rolls(message_text(texts)) matches Some(rolls) && rolls.len() == texts.len()
            && forall|i: int|
            0 <= i < texts.len() ==> #[trigger] table_of(texts[i]) == Some(rolls[i])),
        (exists|i: int| 0 <= i < texts.len() && (#[trigger] table_of(texts[i])) is None)
            ==> message_rolls(message_text(texts)) is None,
{
    lemma_message_segments(texts);
}

/// Two tables whose fences do not touch are not read.
///
/// Where the fence that ends one table and the fence that opens the next
/// stand apart, with blanks or line ends between them and nothing else, the
/// message gives nothing, however well each of the tables is drawn.
pub proof fn law_adjacency(first: Seq<char>, gap: Seq<char>, second: Seq<char>)
    requires
        free_of(first, FENCE_TICK),
        gap.len() >= 1,
        forall|j: int| 0 <= j < gap.len() ==> is_blank(#[trigger] gap[j]),
    ensures
        message_rolls(ticks(3) + first + ticks(3) + gap + ticks(3) + second + ticks(3)) is None,
{
    let message = ticks(3) + first + ticks(3) + gap + ticks(3) + second + ticks(3);
    let fence: int = (3 + first.len()) as int;
    lemma_parts7(ticks(3), first, ticks(3), gap, ticks(3), second, ticks(3));
    lemma_first(message, fence, ticks(3));
    lemma_first(message, fence + 3, gap);
    lemma_gap_at(message, 3, first, FENCE_TICK);
    lemma_skip_skip(message, 3, first.len() as int);
    let behind = message.skip(3).skip(first.len() as int);
    assert(behind[3] == message[fence + 3]);
    assert(is_blank(gap[0]));
    assert(!starts_with_ticks(behind, 6));
    assert(segments(message) is None);
}

} // verus!
