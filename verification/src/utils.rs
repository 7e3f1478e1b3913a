use vstd::prelude::*;

verus! {

/// Normalizes an optional text field: an empty string is treated as absent.
pub fn empty_to_none(s: Option<String>) -> (r: Option<String>)
    ensures
        match s {
            Some(v) => if v@.len() == 0 {
                r is None
            } else {
                r == Some(v)
            },
            None => r is None,
        },
{
    match s {
        Some(v) => if v.as_str().is_empty() {
            None
        } else {
            Some(v)
        },
        None => None,
    }
}

} // verus!
