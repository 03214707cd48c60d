//! Small trusted bridge to `std`'s string type.
//!
//! vstd specifies most of the `String` operations this crate uses; the one
//! missing piece is appending a single character.

use vstd::prelude::*;

verus! {

/// Relies on `String::push`: appends the given character to the end of the
/// string, leaving the earlier contents unchanged.
pub assume_specification[ String::push ](s: &mut String, ch: char)
    ensures
        final(s)@ == old(s)@.push(ch),
;

/// Relies on `char::from_u32`: returns the character with the given code
/// point, or nothing exactly when the value is a surrogate or lies beyond
/// the highest code point.
pub assume_specification[ char::from_u32 ](v: u32) -> (r: Option<char>)
    ensures
        match r {
            Some(c) => c as u32 == v,
            None => 0xD800 <= v < 0xE000 || v > 0x10FFFF,
        },
;

} // verus!
