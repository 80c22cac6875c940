//! Runs of characters of one class at the head of a text.

use vstd::prelude::*;
use crate::glyph::CharClass;

verus! {

/// How many characters at the head of `s` belong to `class` before the first
/// one that does not.
pub open spec fn run_len(s: Seq<char>, class: CharClass) -> nat
    decreases s.len(),
{
    if s.len() > 0 && class.holds(s[0]) {
        1 + run_len(s.skip(1), class)
    } else {
        0
    }
}

/// Number of blanks at the head of `s`.
pub open spec fn blank_run(s: Seq<char>) -> nat {
    run_len(s, CharClass::Blank)
}

/// Number of digits at the head of `s`.
pub open spec fn digit_run(s: Seq<char>) -> nat {
    run_len(s, CharClass::Digit)
}

/// Number of characters at the head of `s` before the first `stop`; the
/// length of `s` if there is none.
pub open spec fn gap_before(s: Seq<char>, stop: char) -> nat {
    run_len(s, CharClass::Except(stop))
}

/// A run ends inside the text; everything in it belongs to the class, and
/// what follows it, if anything, does not.
pub proof fn lemma_run_len_props(s: Seq<char>, class: CharClass)
    ensures
        run_len(s, class) <= s.len(),
        forall|j: int| 0 <= j < run_len(s, class) ==> class.holds(#[trigger] s[j]),
        run_len(s, class) < s.len() ==> !class.holds(s[run_len(s, class) as int]),
    decreases s.len(),
{
    if s.len() > 0 && class.holds(s[0]) {
        let t = s.skip(1);
        lemma_run_len_props(t, class);
        assert forall|j: int| 0 <= j < run_len(s, class) implies class.holds(#[trigger] s[j]) by {
            if j > 0 {
                assert(s[j] == t[j - 1]);
            }
        }
        if run_len(s, class) < s.len() {
            assert(s[run_len(s, class) as int] == t[run_len(t, class) as int]);
        }
    }
}

/// The run is the only length with the two properties of
/// [`lemma_run_len_props`].
pub proof fn lemma_run_len_is(s: Seq<char>, class: CharClass, n: nat)
    requires
        n <= s.len(),
        forall|j: int| 0 <= j < n ==> class.holds(#[trigger] s[j]),
        n < s.len() ==> !class.holds(s[n as int]),
    ensures
        run_len(s, class) == n,
    decreases n,
{
    if n > 0 {
        let t = s.skip(1);
        assert(class.holds(s[0]));
        assert forall|j: int| 0 <= j < n - 1 implies class.holds(#[trigger] t[j]) by {
            assert(t[j] == s[j + 1]);
        }
        if n - 1 < t.len() {
            assert(t[n - 1] == s[n as int]);
        }
        lemma_run_len_is(t, class, (n - 1) as nat);
    }
}

/// To drop `a` characters and then `b` more is to drop `a + b`; the character
/// `b` places on from `a` is the one at `a + b`.
pub proof fn lemma_skip_skip(s: Seq<char>, a: int, b: int)
    requires
        0 <= a,
        0 <= b,
        a + b <= s.len(),
    ensures
        s.skip(a).skip(b) == s.skip(a + b),
        s.skip(a).len() == s.len() - a,
        a + b < s.len() ==> s.skip(a)[b] == s[a + b],
{
    assert(s.skip(a).skip(b) =~= s.skip(a + b));
}

/// Moves a cursor over the run of `class` that starts at `pos`.
pub fn scan_run(s: &[char], pos: usize, class: CharClass) -> (end: usize)
    requires
        pos <= s.len(),
    ensures
        pos <= end <= s@.len(),
        end - pos == run_len(s@.skip(pos as int), class),
{
    let mut end = pos;
    while end < s.len() && class.accepts(s[end])
        invariant
            pos <= end <= s@.len(),
            forall|j: int| pos <= j < end ==> class.holds(#[trigger] s@[j]),
        decreases s@.len() - end,
    {
        end += 1;
    }
    proof {
        let r = s@.skip(pos as int);
        assert forall|j: int| 0 <= j < end - pos implies class.holds(#[trigger] r[j]) by {
            assert(r[j] == s@[pos + j]);
        }
        lemma_run_len_is(r, class, (end - pos) as nat);
    }
    end
}

/// Looks for the first `stop` at or after `pos`.
pub fn seek(s: &[char], pos: usize, stop: char) -> (found: Option<usize>)
    requires
        pos <= s.len(),
    ensures
        match found {
            Some(at) => at < s@.len() && at - pos == gap_before(s@.skip(pos as int), stop),
            None => gap_before(s@.skip(pos as int), stop) == s@.len() - pos,
        },
{
    let at = scan_run(s, pos, CharClass::Except(stop));
    if at < s.len() {
        Some(at)
    } else {
        None
    }
}

} // verus!
