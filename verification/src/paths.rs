//! Unix paths as text.

use vstd::prelude::*;

use crate::text;
use crate::text::{owned, text_begins_with, text_ends_with};

verus! {

/// `rest` below `base`. A rest that starts at the root stands for itself.
pub open spec fn joined(base: Seq<char>, rest: Seq<char>) -> Seq<char> {
    if text::begins_with(rest, "/"@) {
        rest
    } else if base.len() == 0 || text::ends_with(base, "/"@) {
        base + rest
    } else {
        base + "/"@ + rest
    }
}

/// `rest` below `base`. A rest that starts at the root stands for itself.
pub fn join_path(base: &str, rest: &str) -> (r: String)
    ensures
        r@ == joined(base@, rest@),
{
    if text_begins_with(rest, "/") {
        return owned(rest);
    }
    let mut out = owned(base);
    if !base.is_empty() && !text_ends_with(base, "/") {
        out.append("/");
    }
    out.append(rest);
    out
}

} // verus!
