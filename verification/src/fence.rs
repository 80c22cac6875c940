//! The code fences of a message, and the segments between them.
//!
//! A message that holds tables opens with a fence of three ticks and ends
//! with one. Between two tables stand the fence that ends the first and the
//! fence that opens the second, with nothing between them: six ticks. So the
//! text is cut at every tick, and each run of ticks must be one of these.

use vstd::prelude::*;
use crate::glyph::{CharClass, FENCE_TICK};
use crate::scan::{gap_before, lemma_run_len_props, lemma_skip_skip, seek};

verus! {

/// Whether `r` starts with `n` ticks.
pub open spec fn starts_with_ticks(r: Seq<char>, n: nat) -> bool {
    n <= r.len() && forall|i: int| 0 <= i < n ==> r[i] == FENCE_TICK
}

/// The segments of a text that stands behind an opening fence. A segment
/// runs up to the next tick. Behind it stands either the closing fence and
/// nothing more, or six ticks and the next segment.
pub open spec fn segments_from(r: Seq<char>) -> Option<Seq<Seq<char>>>
    decreases r.len(),
{
    let n = gap_before(r, FENCE_TICK);
    if n >= r.len() {
        None
    } else {
        let after = r.skip(n as int);
        if after.len() == 3 && starts_with_ticks(after, 3) {
            Some(seq![r.take(n as int)])
        } else if starts_with_ticks(after, 6) {
            match segments_from(after.skip(6)) {
                Some(others) => Some(seq![r.take(n as int)] + others),
                None => None,
            }
        } else {
            None
        }
    }
}

/// The segments of a message, one for each table, in their order: the text
/// must open with a fence, and what follows it must be cut as
/// [`segments_from`] says. There is always at least one segment, and none
/// holds a tick.
pub open spec fn segments(s: Seq<char>) -> Option<Seq<Seq<char>>> {
    if starts_with_ticks(s, 3) {
        segments_from(s.skip(3))
    } else {
        None
    }
}

/// The pieces of `s` that `ranges` name, each by its first position and the
/// position behind its last.
pub open spec fn pieces(s: Seq<char>, ranges: Seq<(usize, usize)>) -> Seq<Seq<char>> {
    Seq::new(ranges.len(), |i: int| s.subrange(ranges[i].0 as int, ranges[i].1 as int))
}

/// Whether every range lies inside a text of length `len`.
pub open spec fn within(ranges: Seq<(usize, usize)>, len: nat) -> bool {
    forall|i: int| 0 <= i < ranges.len() ==> (#[trigger] ranges[i]).0 <= ranges[i].1 <= len
}

/// There is at least one segment, and no segment holds a tick.
pub proof fn lemma_segments_from_props(r: Seq<char>)
    ensures
        segments_from(r) matches Some(segs) ==> segs.len() >= 1 && forall|i: int, j: int|
            0 <= i < segs.len() && 0 <= j < segs[i].len() ==> segs[i][j] != FENCE_TICK,
    decreases r.len(),
{
    lemma_run_len_props(r, CharClass::Except(FENCE_TICK));
    let n = gap_before(r, FENCE_TICK);
    if n < r.len() {
        let after = r.skip(n as int);
        let head = r.take(n as int);
        assert forall|j: int| 0 <= j < head.len() implies head[j] != FENCE_TICK by {
            assert(CharClass::Except(FENCE_TICK).holds(r[j]));
        }
        if after.len() == 3 && starts_with_ticks(after, 3) {
        } else if starts_with_ticks(after, 6) {
            lemma_segments_from_props(after.skip(6));
            if let Some(others) = segments_from(after.skip(6)) {
                let segs = seq![head] + others;
                assert forall|i: int, j: int|
                    0 <= i < segs.len() && 0 <= j < segs[i].len() implies segs[i][j]
                    != FENCE_TICK by {
                    if i > 0 {
                        assert(segs[i] == others[i - 1]);
                    }
                }
            }
        }
    }
}

/// Tells whether `n` ticks stand at `pos`.
pub fn ticks_at(s: &[char], pos: usize, n: usize) -> (b: bool)
    requires
        pos <= s.len(),
    ensures
        b == starts_with_ticks(s@.skip(pos as int), n as nat),
{
    if s.len() - pos < n {
        return false;
    }
    let mut i: usize = 0;
    while i < n
        invariant
            i <= n,
            pos + n <= s.len(),
            forall|j: int| 0 <= j < i ==> s@.skip(pos as int)[j] == FENCE_TICK,
        decreases n - i,
    {
        if s[pos + i] != FENCE_TICK {
            assert(s@.skip(pos as int)[i as int] != FENCE_TICK);
            return false;
        }
        i += 1;
    }
    true
}

/// Cuts a message into its segments. Returns the range of each, in their
/// order.
pub fn split_fences(s: &[char]) -> (r: Option<Vec<(usize, usize)>>)
    ensures
        match segments(s@) {
            Some(segs) => r matches Some(found) && within(found@, s@.len()) && pieces(
                s@,
                found@,
            ) == segs,
            None => r is None,
        },
{
    assert(s@.skip(0) =~= s@);
    if !ticks_at(s, 0, 3) {
        return None;
    }
    let mut found: Vec<(usize, usize)> = Vec::new();
    let mut cur: usize = 3;
    assert(pieces(s@, found@) =~= Seq::<Seq<char>>::empty());
    loop
        invariant
            3 <= cur <= s.len(),
            starts_with_ticks(s@, 3),
            within(found@, s@.len()),
            segments_from(s@.skip(3)) == match segments_from(s@.skip(cur as int)) {
                Some(others) => Some(pieces(s@, found@) + others),
                None => None,
            },
        decreases s.len() - cur,
    {
        let ghost rest = s@.skip(cur as int);
        let ghost before = pieces(s@, found@);
        let end = match seek(s, cur, FENCE_TICK) {
            Some(at) => at,
            None => {
                return None;
            },
        };
        found.push((cur, end));
        proof {
            lemma_skip_skip(s@, cur as int, end - cur);
            assert(rest.take(end - cur) =~= s@.subrange(cur as int, end as int));
            assert(pieces(s@, found@) =~= before + seq![rest.take(end - cur)]);
        }
        if s.len() - end == 3 && ticks_at(s, end, 3) {
            return Some(found);
        }
        if !ticks_at(s, end, 6) {
            return None;
        }
        proof {
            lemma_skip_skip(s@, end as int, 6);
            if let Some(others) = segments_from(s@.skip(end + 6)) {
                assert(before + (seq![rest.take(end - cur)] + others) =~= pieces(s@, found@)
                    + others);
            }
        }
        cur = end + 6;
    }
}

} // verus!
