//! The confidence-score decision: whether the decimal text of a score
//! stands at or above the fixed seven-tenths threshold.

use vstd::prelude::*;
use crate::split::{split_bytes, split_on};

verus! {

/// The decimal point of a score numeral.
pub const DOT: u8 = 46;

/// The digit that the first fractional digit is held against: the
/// threshold is seven tenths, inclusive.
pub const THRESHOLD_DIGIT: u8 = 55;

/// An ASCII decimal digit.
pub open spec fn is_ascii_digit(b: u8) -> bool {
    48 <= b && b <= 57
}

/// Every byte of `s` is a decimal digit.
pub open spec fn all_digits(s: Seq<u8>) -> bool {
    forall|i: int| 0 <= i < s.len() ==> is_ascii_digit(s[i])
}

/// Some byte of `s` is not the digit zero.
pub open spec fn has_nonzero(s: Seq<u8>) -> bool {
    exists|i: int| 0 <= i < s.len() && s[i] != 48
}

/// Whether the text `t` is a plain unsigned decimal numeral — digits,
/// optionally a point and more digits — whose value is at least seven
/// tenths. An integer numeral qualifies exactly when some digit is
/// nonzero; a pointed numeral when its integer part is nonzero or its
/// first fractional digit is seven or more. Any other shape (a sign, an
/// exponent, an empty part, a second point) does not qualify.
pub open spec fn score_ge_threshold(t: Seq<u8>) -> bool {
    let parts = split_bytes(t, DOT);
    if parts.len() == 1 {
        t.len() > 0 && all_digits(t) && has_nonzero(t)
    } else if parts.len() == 2 {
        parts[0].len() > 0 && parts[1].len() > 0 && all_digits(parts[0]) && all_digits(parts[1])
            && (has_nonzero(parts[0]) || parts[1][0] >= THRESHOLD_DIGIT)
    } else {
        false
    }
}

/// Whether every byte of `v` is a decimal digit.
fn digits_only(v: &Vec<u8>) -> (r: bool)
    ensures
        r == all_digits(v@),
{
    let mut i: usize = 0;
    while i < v.len()
        invariant
            i <= v@.len(),
            forall|j: int| 0 <= j < i ==> is_ascii_digit(v@[j]),
        decreases v@.len() - i,
    {
        let b = v[i];
        if b < 48 || b > 57 {
            return false;
        }
        i = i + 1;
    }
    true
}

/// Whether some byte of `v` is not the digit zero.
fn any_nonzero(v: &Vec<u8>) -> (r: bool)
    ensures
        r == has_nonzero(v@),
{
    let mut i: usize = 0;
    while i < v.len()
        invariant
            i <= v@.len(),
            forall|j: int| 0 <= j < i ==> v@[j] == 48,
        decreases v@.len() - i,
    {
        if v[i] != 48 {
            return true;
        }
        i = i + 1;
    }
    false
}

/// Decides whether the score text `t` meets the threshold, exactly as
/// `score_ge_threshold` states it.
pub fn score_meets_threshold(t: &Vec<u8>) -> (r: bool)
    ensures
        r == score_ge_threshold(t@),
{
    let parts = split_on(t, DOT);
    if parts.len() == 1 {
        t.len() > 0 && digits_only(t) && any_nonzero(t)
    } else if parts.len() == 2 {
        let int_part = &parts[0];
        let frac_part = &parts[1];
        int_part.len() > 0 && frac_part.len() > 0 && digits_only(int_part) && digits_only(
            frac_part,
        ) && (any_nonzero(int_part) || frac_part[0] >= THRESHOLD_DIGIT)
    } else {
        false
    }
}

} // verus!
