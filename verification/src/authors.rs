//! The credits line built from the package's author list.

use vstd::prelude::*;
use vstd::string::StringExecFns;
use crate::text::{join_seq, join_with, split_on, split_seq, lemma_split_len};

verus! {

broadcast use vstd::string::group_string_axioms;

/// The authors listed in `s` (separated by `:`) as an English list: two
/// joined by "and", three or more with commas and a final ", and".
pub open spec fn authors_text(s: Seq<char>) -> Seq<char> {
    let parts = split_seq(s, ':');
    if parts.len() > 2 {
        join_seq(parts.drop_last(), ", "@) + ", and "@ + parts.last()
    } else {
        join_seq(parts, " and "@)
    }
}

/// The credits line for the `:`-separated author list `authors`.
pub fn generate_authors(authors: &str) -> (res: String)
    ensures
        res@ == authors_text(authors@),
{
    let mut parts = split_on(authors, ':');
    let ghost ps = parts@.map_values(|p: String| p@);
    proof {
        lemma_split_len(authors@, ':');
    }
    if parts.len() > 2 {
        let last = parts.pop().unwrap();
        assert(parts@.map_values(|p: String| p@) =~= ps.drop_last());
        let mut text = join_with(parts.as_slice(), ", ");
        text.append(", and ");
        text.append(last.as_str());
        text
    } else {
        join_with(parts.as_slice(), " and ")
    }
}

} // verus!
