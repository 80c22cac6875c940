//! Decimal numbers.

use vstd::prelude::*;
use crate::glyph::{is_digit, digit_value, digit_of, CharClass};
use crate::scan::{digit_run, scan_run, lemma_run_len_props};

verus! {

/// The number that a row of decimal digits stands for. Zeros in front change
/// nothing.
pub open spec fn decimal(digits: Seq<char>) -> nat
    decreases digits.len(),
{
    if digits.len() == 0 {
        0
    } else {
        10 * decimal(digits.drop_last()) + digit_value(digits.last())
    }
}

/// The number at the head of `r`: its value and how many characters it
/// takes. There is none where `r` does not start with a digit, and none where
/// the digits stand for more than `max`.
pub open spec fn number(r: Seq<char>, max: nat) -> Option<(nat, nat)> {
    let n = digit_run(r);
    if n == 0 || decimal(r.take(n as int)) > max {
        None
    } else {
        Some((decimal(r.take(n as int)), n))
    }
}

/// A number takes at least one character, none beyond the text, and stays
/// within its bound.
pub proof fn lemma_number_props(r: Seq<char>, max: nat)
    ensures
        number(r, max) matches Some((value, n)) ==> 0 < n <= r.len() && value <= max,
{
    lemma_run_len_props(r, CharClass::Digit);
}

/// Computes the value of the digits in `s[from..to]`, unless it exceeds
/// `max`.
pub fn digits_value(s: &[char], from: usize, to: usize, max: usize) -> (r: Option<usize>)
    requires
        from <= to <= s.len(),
        forall|j: int| from <= j < to ==> is_digit(#[trigger] s@[j]),
    ensures
        r == if decimal(s@.subrange(from as int, to as int)) <= max {
            Some(decimal(s@.subrange(from as int, to as int)) as usize)
        } else {
            None
        },
{
    let mut value: usize = 0;
    let mut fits = true;
    let mut i = from;
    while i < to
        invariant
            from <= i <= to <= s@.len(),
            forall|j: int| from <= j < to ==> is_digit(#[trigger] s@[j]),
            fits ==> value == decimal(s@.subrange(from as int, i as int)),
            !fits ==> decimal(s@.subrange(from as int, i as int)) > usize::MAX,
        decreases to - i,
    {
        let d = digit_of(s[i]);
        proof {
            let next = s@.subrange(from as int, i + 1);
            assert(next.drop_last() =~= s@.subrange(from as int, i as int));
            assert(next.last() == s@[i as int]);
        }
        if fits {
            match value.checked_mul(10) {
                Some(tens) => match tens.checked_add(d) {
                    Some(sum) => {
                        value = sum;
                    },
                    None => {
                        fits = false;
                    },
                },
                None => {
                    fits = false;
                },
            }
        }
        i += 1;
    }
    if fits && value <= max {
        Some(value)
    } else {
        None
    }
}

/// Reads the number that starts at `pos` and must not exceed `max`. Returns
/// its value and the position after its last digit.
pub fn read_number(s: &[char], pos: usize, max: usize) -> (r: Option<(usize, usize)>)
    requires
        pos <= s.len(),
    ensures
        match number(s@.skip(pos as int), max as nat) {
            Some((value, n)) => r matches Some((found, end)) && found == value && end == pos
                + n && pos < end <= s@.len() && value <= max,
            None => r is None,
        },
{
    let end = scan_run(s, pos, CharClass::Digit);
    if end == pos {
        return None;
    }
    proof {
        let r = s@.skip(pos as int);
        lemma_run_len_props(r, CharClass::Digit);
        assert forall|j: int| pos <= j < end implies is_digit(#[trigger] s@[j]) by {
            assert(CharClass::Digit.holds(r[j - pos]));
        }
        assert(r.take(end - pos) =~= s@.subrange(pos as int, end as int));
    }
    match digits_value(s, pos, end, max) {
        Some(value) => Some((value, end)),
        None => None,
    }
}

} // verus!
