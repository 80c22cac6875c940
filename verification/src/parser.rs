//! From the text of a message to its rolls.

use vstd::prelude::*;
use vstd::slice::slice_subrange;
use crate::fence::{lemma_segments_from_props, pieces, segments, split_fences, within};
use crate::roll::{DiceRollInstance, DiceRollInstanceView, DiceRollRequest};
use crate::table::{parse_table, table_of};

verus! {

/// The rolls that a message shows: the message is cut into its segments and
/// every segment must hold a table. One segment that holds none leaves the
/// whole message without a result.
pub open spec fn message_rolls(s: Seq<char>) -> Option<Seq<DiceRollInstanceView>> {
    match segments(s) {
        None => None,
        Some(segs) => if forall|i: int| 0 <= i < segs.len() ==> (#[trigger] table_of(segs[i]))
            is Some {
            Some(Seq::new(segs.len(), |i: int| table_of(segs[i])->0))
        } else {
            None
        },
    }
}

/// The characters of `s`, one by one.
pub fn chars_of(s: &str) -> (v: Vec<char>)
    ensures
        v@ == s@,
{
    let mut v: Vec<char> = Vec::new();
    for c in it: s.chars()
        invariant
            it.seq() == s@,
            v@ == it.seq().take(it.index() as int),
    {
        v.push(c);
    }
    v
}

/// Reads the rolls of a message that is given by its characters.
pub fn parse_message(text: &[char]) -> (r: Option<DiceRollRequest>)
    ensures
        match message_rolls(text@) {
            Some(rolls) => r matches Some(request) && request@ == rolls && rolls.len() >= 1
                && forall|i: int| 0 <= i < rolls.len() ==> (#[trigger] rolls[i]).wf(),
            None => r is None,
        },
{
    let ranges = match split_fences(text) {
        Some(found) => found,
        None => {
            return None;
        },
    };
    let ghost segs = segments(text@)->0;
    proof {
        lemma_segments_from_props(text@.skip(3));
    }
    let mut rolls: Vec<DiceRollInstance> = Vec::new();
    let mut i: usize = 0;
    while i < ranges.len()
        invariant
            i <= ranges.len(),
            segments(text@) == Some(segs),
            ranges@.len() == segs.len(),
            within(ranges@, text@.len()),
            pieces(text@, ranges@) == segs,
            rolls@.len() == i,
            forall|k: int| 0 <= k < i ==> (#[trigger] table_of(segs[k])) == Some(rolls@[k]@),
            forall|k: int| 0 <= k < i ==> (#[trigger] rolls@[k]@).wf(),
        decreases ranges.len() - i,
    {
        let (from, to) = ranges[i];
        assert(pieces(text@, ranges@)[i as int] == text@.subrange(from as int, to as int));
        match parse_table(slice_subrange(text, from, to)) {
            Some(roll) => {
                rolls.push(roll);
            },
            None => {
                assert(table_of(segs[i as int]) is None);
                return None;
            },
        }
        i += 1;
    }
    let request = DiceRollRequest { rolls };
    proof {
        let shown = Seq::new(segs.len(), |k: int| table_of(segs[k])->0);
        assert(request@ =~= shown);
    }
    Some(request)
}

/// Reads the rolls that the message `input` shows.
///
/// The message must be a row of tables in code fences and nothing else: an
/// opening fence, the tables with six ticks between each two of them, and a
/// closing fence. If any part of it is not as it should be, there is no
/// result, also where other tables of the message are in order.
pub fn parse_roll(input: String) -> (r: Option<DiceRollRequest>)
    ensures
        match message_rolls(input@) {
            Some(rolls) => r matches Some(request) && request@ == rolls && rolls.len() >= 1
                && forall|i: int| 0 <= i < rolls.len() ==> (#[trigger] rolls[i]).wf(),
            None => r is None,
        },
{
    let text = chars_of(input.as_str());
    parse_message(text.as_slice())
}

} // verus!
