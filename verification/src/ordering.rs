//! Comparison results as `Ordering`.

use core::cmp::Ordering;
use vstd::prelude::*;

verus! {

/// The `Ordering` that a comparison result stands for: below zero is less,
/// zero is equal, above zero is greater.
pub open spec fn sign_ordering(c: int) -> Ordering {
    if c < 0 {
        Ordering::Less
    } else if c == 0 {
        Ordering::Equal
    } else {
        Ordering::Greater
    }
}

/// The `Ordering` that a comparison result stands for.
pub fn to_ordering(c: i8) -> (r: Ordering)
    ensures
        c < 0 ==> r == Ordering::Less,
        c == 0 ==> r == Ordering::Equal,
        c > 0 ==> r == Ordering::Greater,
{
    if c < 0 {
        Ordering::Less
    } else if c == 0 {
        Ordering::Equal
    } else {
        Ordering::Greater
    }
}

} // verus!
