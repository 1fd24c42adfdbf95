//! Patches made of hunks: headers that name positions of the file as it was,
//! and bodies that say what goes there.

pub mod apply;
pub mod apply_laws;
pub mod byte_laws;
pub mod bytes;
pub mod line_laws;
pub mod lines;

use crate::text::split::{is_text, lines as lines_of, split_lines, trim, trimmed};
use crate::text::views;
use vstd::prelude::*;

verus! {

/// Whether a line of the text is the opening line of a patch envelope.
pub open spec fn has_envelope(text: Seq<char>) -> bool {
    exists|i: int|
        0 <= i < lines_of(text).len() && trim(#[trigger] lines_of(text)[i]) == "*** Begin Patch"@
}

pub fn opens_envelope(text: &[char]) -> (r: bool)
    ensures
        r == has_envelope(text@),
{
    let all = split_lines(text);
    let mut i: usize = 0;
    while i < all.len()
        invariant
            i <= all@.len(),
            views(all@) == lines_of(text@),
            forall|j: int|
                0 <= j < i ==> trim(#[trigger] lines_of(text@)[j]) != "*** Begin Patch"@,
        decreases all@.len() - i,
    {
        let found: bool = is_text(trimmed(all[i]), "*** Begin Patch");
        proof {
            assert(lines_of(text@)[i as int] == all@[i as int]@);
        }
        if found {
            return true;
        }
        i = i + 1;
    }
    false
}

} // verus!
