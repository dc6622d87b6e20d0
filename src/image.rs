//! Where the image shown beside the sections is found by default, and whether
//! the terminal can show one.
use crate::fontmodule::{lower_of, lowercase};
use crate::helpers::{contains_str, has_sub};
use vstd::prelude::*;

verus! {

/// The path of the image shown where none is configured.
pub open spec fn default_image_path() -> Seq<char> {
    "/home/tui/Rice/Rust Projects/SlowfetchV2/src/assets/default/slowfetch.png"@
}

/// The path of the image shown where none is configured.
pub fn get_default_image_path() -> (p: String)
    ensures
        p@ == default_image_path(),
{
    "/home/tui/Rice/Rust Projects/SlowfetchV2/src/assets/default/slowfetch.png".to_string()
}


/// Whether the terminal speaks the Kitty graphics protocol: it is kitty (it
/// sets `KITTY_WINDOW_ID`), its `TERM` names kitty or Ghostty, or its
/// `TERM_PROGRAM` names Ghostty in any case.
pub open spec fn kitty_graphics(window_id_set: bool, term: Option<Seq<char>>, term_program: Option<Seq<char>>) -> bool {
    window_id_set || match term {
        Some(t) => has_sub(t, "kitty"@) || has_sub(t, "ghostty"@),
        None => false,
    } || match term_program {
        Some(p) => has_sub(lower_of(p), "ghostty"@),
        None => false,
    }
}

/// Whether the terminal speaks the Kitty graphics protocol, from whether
/// `KITTY_WINDOW_ID` is set and from `TERM` and `TERM_PROGRAM`.
pub fn supports_kitty_graphics(window_id_set: bool, term: Option<&str>, term_program: Option<&str>) -> (r: bool)
    ensures
        r == kitty_graphics(
            window_id_set,
            match term {
                Some(t) => Some(t@),
                None => None,
            },
            match term_program {
                Some(p) => Some(p@),
                None => None,
            },
        ),
{
    if window_id_set {
        return true;
    }
    if let Some(t) = term {
        if contains_str(t, "kitty") || contains_str(t, "ghostty") {
            return true;
        }
    }
    if let Some(p) = term_program {
        let lower = lowercase(p);
        if contains_str(lower.as_str(), "ghostty") {
            return true;
        }
    }
    false
}

} // verus!
