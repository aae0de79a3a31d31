//! What a search finds, stated over sequences of characters.

use vstd::prelude::*;
use crate::lines::lines_of;
use crate::lowercase::lowercase;
use crate::substring::contains;

verus! {

/// Whether `line` matches `query`. With regard to case, the line has to
/// contain the query as it stands; without, the lowercase form of the line
/// has to contain the lowercase form of the query.
pub open spec fn line_matches(query: Seq<char>, line: Seq<char>, case_sensitive: bool) -> bool {
    if case_sensitive {
        contains(line, query)
    } else {
        contains(lowercase(line), lowercase(query))
    }
}

/// `line_matches` for a fixed query and mode, as a predicate on lines.
pub open spec fn matcher(query: Seq<char>, case_sensitive: bool) -> spec_fn(Seq<char>) -> bool {
    |line: Seq<char>| line_matches(query, line, case_sensitive)
}

/// The lines of `contents` that match `query`, in the order in which they
/// stand in `contents`.
pub open spec fn matching_lines(
    query: Seq<char>,
    contents: Seq<char>,
    case_sensitive: bool,
) -> Seq<Seq<char>> {
    lines_of(contents).filter(matcher(query, case_sensitive))
}

} // verus!
