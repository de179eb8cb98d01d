//! Whether the fonts loaded for a display list can bake its glyphs.

use vstd::prelude::*;
use vstd::string::StringExecFns;
use crate::Error;

verus! {

/// The outcome of loading the fonts: the loader's error becomes
/// "font load failed: " and that error; a loaded set without Main-Regular,
/// the face every missing glyph falls back to, is refused.
pub fn check_font_load(load_error: Option<&str>, has_main_regular: bool) -> (r: Result<(), Error>)
    ensures
        match load_error {
            Some(e) => r matches Err(x) && x.0@ == "font load failed: "@ + e@,
            None => if has_main_regular {
                r is Ok
            } else {
                r matches Err(x) && x.0@ == "Main-Regular font not found"@
            },
        },
{
    match load_error {
        Some(e) => Err(Error(String::from_str("font load failed: ").concat(e))),
        None => {
            if has_main_regular {
                Ok(())
            } else {
                Err(Error(String::from_str("Main-Regular font not found")))
            }
        },
    }
}

} // verus!
