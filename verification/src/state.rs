//! Settings read from stored configuration.
use vstd::prelude::*;

use crate::text::{chars_of, string_from, trim, trim_chars};

verus! {

/// A setting's text: trimmed, and absent when nothing is left.
pub fn non_empty(s: String) -> (r: Option<String>)
    ensures
        match r {
            Some(t) => trim(s@).len() > 0 && t@ == trim(s@),
            None => trim(s@).len() == 0,
        },
{
    let t = trim_chars(chars_of(s.as_str()).as_slice());
    if t.len() == 0 {
        None
    } else {
        Some(string_from(t.as_slice()))
    }
}

} // verus!
