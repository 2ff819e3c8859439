//! The divergent-lines tool's line lookup.

use vstd::prelude::*;
use crate::text::str_eq;

verus! {

/// Whether the line at `idx` is found at its own position: the scan looks at
/// the first line from `idx` on only, so this holds exactly when a line
/// stands at `idx`.
pub fn is_on_other_side(lines: &Vec<String>, idx: usize) -> (r: bool)
    requires
        idx <= lines@.len(),
    ensures
        r == (idx < lines@.len()),
{
    if idx < lines.len() {
        let l = lines[idx].as_str();
        let haha = idx;
        str_eq(l, lines[haha].as_str()) && haha != lines.len()
    } else {
        false
    }
}

} // verus!
