//! The unified diff of a file before and after its fixes.

use vstd::prelude::*;
use vstd::string::*;
use crate::bindings::{unified_diff, unified_diff_text};
use crate::text::{push_str, str_eq, trim_str, trimmed};

verus! {

/// The unified diff of `original` and `modified`, line by line with three
/// lines of context, under the headers `a/<file_path>` and `b/<file_path>`;
/// empty when nothing changed.
pub fn generate_diff(original: &str, modified: &str, file_path: &str) -> (r: String)
    ensures
        r@ == unified_diff_text(original@, modified@, 3, "a/"@ + file_path@, "b/"@ + file_path@),
        original@ == modified@ ==> r@.len() == 0,
{
    let mut old_header = String::new();
    push_str(&mut old_header, "a/");
    push_str(&mut old_header, file_path);
    let mut new_header = String::new();
    push_str(&mut new_header, "b/");
    push_str(&mut new_header, file_path);
    proof {
        reveal_strlit("");
        assert(old_header@ == "a/"@ + file_path@);
        assert(new_header@ == "b/"@ + file_path@);
    }
    unified_diff(original, modified, 3, old_header.as_str(), new_header.as_str())
}

/// What watch mode shows when a file changes: the diff from the text seen
/// before to the text with this scan's fixes, when there was a text before,
/// it differs from the current one, and the diff is not blank.
pub fn watch_diff(previous: &str, current: &str, modified: &str, file_path: &str) -> (r: Option<String>)
    ensures
        match r {
            Some(d) => previous@.len() > 0 && previous@ != current@ && d@ == unified_diff_text(
                previous@,
                modified@,
                3,
                "a/"@ + file_path@,
                "b/"@ + file_path@,
            ) && trimmed(d@).len() > 0,
            None => previous@.len() == 0 || previous@ == current@ || trimmed(
                unified_diff_text(previous@, modified@, 3, "a/"@ + file_path@, "b/"@ + file_path@),
            ).len() == 0,
        },
{
    if previous.is_empty() || str_eq(previous, current) {
        return None;
    }
    let d = generate_diff(previous, modified, file_path);
    if trim_str(d.as_str()).is_empty() {
        None
    } else {
        Some(d)
    }
}

} // verus!
