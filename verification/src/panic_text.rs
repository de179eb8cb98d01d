//! Turning a caught panic payload into a message.
//!
//! A panic payload is an `Any` value; the host downcasts it to the two types
//! a panic message can have (`&str` from a literal, `String` from `format!`)
//! and hands both views here.

use vstd::prelude::*;

verus! {

/// The fixed text used when a payload carries no message.
pub open spec fn unknown_panic_text() -> Seq<char> {
    "unknown panic"@
}

/// Message of a caught panic: the literal text if the payload is a `&str`,
/// otherwise the owned text if it is a `String`, otherwise a fixed fallback.
pub fn panic_message(as_str: Option<&str>, as_string: Option<&String>) -> (r: String)
    ensures
        as_str matches Some(s) ==> r@ == s@,
        as_str is None ==> (as_string matches Some(s) ==> r@ == s@),
        as_str is None && as_string is None ==> r@ == unknown_panic_text(),
        as_str is None && as_string is None ==> r@ == "unknown panic"@,
{
    match as_str {
        Some(s) => s.to_owned(),
        None => match as_string {
            Some(s) => s.clone(),
            None => "unknown panic".to_owned(),
        },
    }
}

} // verus!
