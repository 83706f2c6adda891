//! The version summary that is appended to the page listing all versions.

use crate::text::{decimal, decimal_text, join, join_texts};
use vstd::prelude::*;
use vstd::string::StringExecFns;

verus! {

/// The summary of `versions`: how many there are, then all of them in
/// order, separated by commas.
pub open spec fn rollup_text(versions: Seq<Seq<char>>) -> Seq<char> {
    "total_versions: "@ + decimal(versions.len()) + "\nall_versions:["@ + join(versions, ","@)
        + "]"@
}

/// Writes the summary of `versions`.
pub fn rollup(versions: &Vec<String>) -> (r: String)
    ensures
        r@ == rollup_text(versions.deep_view()),
{
    let mut r = String::from_str("total_versions: ");
    let count = decimal_text(versions.len());
    r.append(count.as_str());
    r.append("\nall_versions:[");
    let list = join_texts(versions, ",");
    r.append(list.as_str());
    r.append("]");
    r
}

} // verus!
