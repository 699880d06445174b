//! The version number that a build carries.
use vstd::prelude::*;

verus! {

pub open spec fn is_digit(c: char) -> bool {
    '0' <= c <= '9'
}

/// The value of a run of decimal digits.
pub open spec fn digits_value(d: Seq<char>) -> nat
    decreases d.len(),
{
    if d.len() == 0 {
        0
    } else {
        digits_value(d.drop_last()) * 10 + (d.last() as nat - '0' as nat) as nat
    }
}

/// A `u32` in decimal: an optional `+`, then one or more digits, with a
/// value that fits.
pub open spec fn decimal_u32(s: Seq<char>) -> Option<u32> {
    let d = if s.len() > 0 && s[0] == '+' {
        s.drop_first()
    } else {
        s
    };
    if d.len() > 0 && (forall|i: int| 0 <= i < d.len() ==> is_digit(#[trigger] d[i]))
        && digits_value(d) <= u32::MAX {
        Some(digits_value(d) as u32)
    } else {
        None
    }
}

/// Relies on `str::parse::<u32>`: an optional `+` then decimal digits, and
/// an error for anything else or a value that does not fit.
#[verifier::external_body]
pub(crate) fn parse_u32(s: &str) -> (r: Option<u32>)
    ensures
        r == decimal_u32(s@),
{
    s.parse::<u32>().ok()
}

/// The version that the build was stamped with, or 0 when it carries none
/// or one that is not a number.
pub fn get_version(stamp: Option<&str>) -> (r: u32)
    ensures
        r == match stamp {
            Some(s) => match decimal_u32(s@) {
                Some(v) => v,
                None => 0,
            },
            None => 0,
        },
{
    match stamp {
        Some(s) => match parse_u32(s) {
            Some(v) => v,
            None => 0,
        },
        None => 0,
    }
}

} // verus!
