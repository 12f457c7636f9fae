//! Contracts for the few `std` string operations the crate builds strings
//! with, where vstd itself gives them no specification.

use vstd::prelude::*;

verus! {

/// Relies on String::push: appends exactly the one character.
pub assume_specification[ String::push ](s: &mut String, c: char)
    ensures
        final(s)@ == old(s)@.push(c),
;

/// Relies on String::push_str: appends exactly the given slice's characters.
pub assume_specification[ String::push_str ](s: &mut String, other: &str)
    ensures
        final(s)@ == old(s)@ + other@,
;

} // verus!
