//! Joining path text as `PathBuf::join` does for relative parts.
use vstd::prelude::*;

use crate::text::{chars_of, extend_str, string_of};

verus! {

/// Whether `c` separates path components: `/`, and on Windows also `\`.
pub open spec fn is_separator_for(c: char, windows: bool) -> bool {
    c == '/' || (windows && c == '\\')
}

/// `base` joined with the relative part `rel`: a separator goes between them
/// unless `base` is empty or already ends in one.
pub open spec fn joined(base: Seq<char>, rel: Seq<char>, windows: bool) -> Seq<char> {
    if base.len() == 0 || is_separator_for(base.last(), windows) {
        base + rel
    } else {
        base + seq![if windows { '\\' } else { '/' }] + rel
    }
}

/// Joins a relative part onto a path (see `joined`).
pub fn join_path(base: &str, rel: &str, windows: bool) -> (r: String)
    ensures
        r@ == joined(base@, rel@, windows),
{
    let chars = chars_of(base);
    let mut out: Vec<char> = Vec::new();
    extend_str(&mut out, base);
    if chars.len() > 0 {
        let last = chars[chars.len() - 1];
        if !(last == '/' || (windows && last == '\\')) {
            if windows {
                out.push('\\');
            } else {
                out.push('/');
            }
        }
    }
    extend_str(&mut out, rel);
    string_of(&out)
}

} // verus!
