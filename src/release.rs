//! The choices of the self-update: whether a release is newer than the
//! running build, and which of its assets serves this system.
use vstd::prelude::*;
use crate::version::{decimal_u32, parse_u32};

verus! {

/// `p` occurs in `s`.
pub open spec fn contains_seq(s: Seq<char>, p: Seq<char>) -> bool {
    exists|i: int| 0 <= i && i + p.len() <= s.len() && #[trigger] s.subrange(i, i + p.len()) == p
}

/// Relies on `str::contains` with a string pattern: whether `p` occurs in `s`.
#[verifier::external_body]
fn str_contains(s: &str, p: &str) -> (r: bool)
    ensures
        r == contains_seq(s@, p@),
{
    s.contains(p)
}

/// Whether the release tagged `tag` is newer than the running version
/// `current`; `None` when the tag is not a version number.
pub fn is_newer(tag: &str, current: u32) -> (r: Option<bool>)
    ensures
        r == match decimal_u32(tag@) {
            Some(v) => Some(v > current),
            None => None,
        },
{
    match parse_u32(tag) {
        Some(v) => Some(v > current),
        None => None,
    }
}

pub open spec fn serves(name: Option<String>, os: Seq<char>) -> bool {
    match name {
        Some(n) => contains_seq(n@, os),
        None => false,
    }
}

/// The first asset whose name mentions `os`.
pub fn pick_asset(names: &Vec<Option<String>>, os: &str) -> (r: Option<usize>)
    ensures
        match r {
            Some(i) => i < names@.len() && serves(names@[i as int], os@) && forall|j: int|
                0 <= j < i ==> !serves(#[trigger] names@[j], os@),
            None => forall|j: int| 0 <= j < names@.len() ==> !serves(#[trigger] names@[j], os@),
        },
{
    let mut i: usize = 0;
    while i < names.len()
        invariant
            i <= names@.len(),
            forall|j: int| 0 <= j < i ==> !serves(#[trigger] names@[j], os@),
        decreases names@.len() - i,
    {
        match &names[i] {
            Some(n) => {
                if str_contains(n.as_str(), os) {
                    return Some(i);
                }
            },
            None => {},
        }
        i += 1;
    }
    None
}

} // verus!
