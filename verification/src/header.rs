//! The include of the bridge's header in generated C++ headers.

use crate::text::{replace_all, replaced};
use vstd::prelude::*;

verus! {

/// The header with every include of `"rust/cxx.h"` turned into one of
/// `"cxx.h"`.
pub open spec fn header_of(content: Seq<char>) -> Seq<char> {
    replaced(content, "\"rust/cxx.h\""@, "\"cxx.h\""@)
}

/// A generated header with the bridge's header included from where the
/// build puts it.
pub fn replace_cxx_header(content: &str) -> (out: String)
    ensures
        out@ == header_of(content@),
{
    replace_all(content, "\"rust/cxx.h\"", "\"cxx.h\"")
}

} // verus!
