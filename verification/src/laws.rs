//! What holds of every search, whatever the query and the text.
//!
//! The lines that a search finds are described by `matching_lines`. The
//! statements here relate them to the positions at which they stand among
//! the lines of the text.

use vstd::prelude::*;
use crate::lines::lines_of;
use crate::lowercase::{lemma_lowercase_keeps_match, lowercase};
use crate::matching::{line_matches, matcher, matching_lines};
use crate::substring::occurs_at;

verus! {

/// The indices of the lines that `keep` holds of, in rising order.
pub open spec fn kept_positions(
    lines: Seq<Seq<char>>,
    keep: spec_fn(Seq<char>) -> bool,
) -> Seq<int>
    decreases lines.len(),
{
    if lines.len() == 0 {
        Seq::empty()
    } else {
        let before = kept_positions(lines.drop_last(), keep);
        if keep(lines.last()) {
            before.push(lines.len() - 1)
        } else {
            before
        }
    }
}

/// The positions, among the lines of `contents`, of the lines that match
/// `query`, in rising order.
pub open spec fn matching_positions(
    query: Seq<char>,
    contents: Seq<char>,
    case_sensitive: bool,
) -> Seq<int> {
    kept_positions(lines_of(contents), matcher(query, case_sensitive))
}

/// Filtering keeps the lines at the kept positions: as many, each the line
/// at its position, the positions rising, and a position among them exactly
/// where `keep` holds of its line.
pub proof fn lemma_kept_positions(lines: Seq<Seq<char>>, keep: spec_fn(Seq<char>) -> bool)
    ensures
        kept_positions(lines, keep).len() == lines.filter(keep).len(),
        forall|k: int|
            0 <= k < kept_positions(lines, keep).len() ==> {
                &&& 0 <= #[trigger] kept_positions(lines, keep)[k] < lines.len()
                &&& lines.filter(keep)[k] == lines[kept_positions(lines, keep)[k]]
            },
        forall|j: int, k: int|
            0 <= j < k < kept_positions(lines, keep).len() ==> #[trigger] kept_positions(
                lines,
                keep,
            )[j] < #[trigger] kept_positions(lines, keep)[k],
        forall|i: int|
            #[trigger] kept_positions(lines, keep).contains(i) <==> 0 <= i < lines.len() && keep(
                lines[i],
            ),
    decreases lines.len(),
{
    reveal(Seq::filter);
    let at = kept_positions(lines, keep);
    if lines.len() > 0 {
        let shorter = lines.drop_last();
        let before = kept_positions(shorter, keep);
        let last = lines.len() - 1;
        lemma_kept_positions(shorter, keep);
        assert forall|i: int| 0 <= i < lines.len() && keep(lines[i]) implies at.contains(i) by {
            if i < last {
                assert(before.contains(i));
                let k = before.index_of(i);
                assert(at[k] == i);
            } else {
                assert(at[at.len() - 1] == i);
            }
        }
    }
}

/// A search without regard to case finds at least what the search with
/// regard to case finds: every position of a line that matches as it stands
/// is the position of a line that matches in lowercase, and so every line
/// found by the one is found by the other.
pub proof fn case_insensitive_finds_superset(query: Seq<char>, contents: Seq<char>)
    ensures
        forall|i: int|
            #[trigger] matching_positions(query, contents, true).contains(i)
                ==> matching_positions(query, contents, false).contains(i),
        forall|k: int|
            0 <= k < matching_lines(query, contents, true).len() ==> matching_lines(
                query,
                contents,
                false,
            ).contains(#[trigger] matching_lines(query, contents, true)[k]),
{
    let lines = lines_of(contents);
    let with_case = kept_positions(lines, matcher(query, true));
    let without_case = kept_positions(lines, matcher(query, false));
    lemma_kept_positions(lines, matcher(query, true));
    lemma_kept_positions(lines, matcher(query, false));
    assert forall|i: int| #[trigger] with_case.contains(i) implies without_case.contains(i) by {
        lemma_lowercase_keeps_match(lines[i], query);
    }
    assert forall|k: int| 0 <= k < matching_lines(query, contents, true).len() implies matching_lines(
        query,
        contents,
        false,
    ).contains(#[trigger] matching_lines(query, contents, true)[k]) by {
        let i = with_case[k];
        assert(with_case.contains(i));
        let j = without_case.index_of(i);
        assert(matching_lines(query, contents, false)[j] == lines[i]);
    }
}

/// Searching for the empty query, with or without regard to case, finds
/// every line of the text, in order and unchanged.
pub proof fn empty_query_finds_every_line(contents: Seq<char>, case_sensitive: bool)
    ensures
        matching_lines(Seq::empty(), contents, case_sensitive) == lines_of(contents),
{
    let lines = lines_of(contents);
    let keep = matcher(Seq::empty(), case_sensitive);
    assert forall|i: int| 0 <= i < lines.len() implies keep(#[trigger] lines[i]) by {
        let line = if case_sensitive {
            lines[i]
        } else {
            lowercase(lines[i])
        };
        assert(line.subrange(0, 0) =~= Seq::<char>::empty());
        assert(occurs_at(line, Seq::<char>::empty(), 0));
    }
    lemma_filter_keeps_all(lines, keep);
}

/// A filter that holds of every element changes nothing.
proof fn lemma_filter_keeps_all(lines: Seq<Seq<char>>, keep: spec_fn(Seq<char>) -> bool)
    requires
        forall|i: int| 0 <= i < lines.len() ==> keep(#[trigger] lines[i]),
    ensures
        lines.filter(keep) == lines,
    decreases lines.len(),
{
    reveal(Seq::filter);
    if lines.len() > 0 {
        let shorter = lines.drop_last();
        assert forall|i: int| 0 <= i < shorter.len() implies keep(#[trigger] shorter[i]) by {
            assert(shorter[i] == lines[i]);
        }
        lemma_filter_keeps_all(shorter, keep);
    }
}

/// No false positives: every line found is a line of the text, at one of
/// the matching positions, and matches the query under the mode of the
/// search.
pub proof fn found_lines_match(query: Seq<char>, contents: Seq<char>, case_sensitive: bool)
    ensures
        forall|k: int|
            0 <= k < matching_lines(query, contents, case_sensitive).len() ==> {
                &&& line_matches(
                    query,
                    #[trigger] matching_lines(query, contents, case_sensitive)[k],
                    case_sensitive,
                )
                &&& lines_of(contents).contains(matching_lines(query, contents, case_sensitive)[k])
            },
{
    let lines = lines_of(contents);
    let keep = matcher(query, case_sensitive);
    lemma_kept_positions(lines, keep);
    let at = kept_positions(lines, keep);
    assert forall|k: int| 0 <= k < lines.filter(keep).len() implies {
        &&& line_matches(query, #[trigger] lines.filter(keep)[k], case_sensitive)
        &&& lines.contains(lines.filter(keep)[k])
    } by {
        assert(at.contains(at[k]));
    }
}

/// No false negatives: every position of a line that matches the query is
/// among the matching positions, so that line is among the lines found.
pub proof fn matching_lines_are_found(query: Seq<char>, contents: Seq<char>, case_sensitive: bool)
    ensures
        forall|i: int|
            0 <= i < lines_of(contents).len() && line_matches(
                query,
                #[trigger] lines_of(contents)[i],
                case_sensitive,
            ) ==> {
                &&& matching_positions(query, contents, case_sensitive).contains(i)
                &&& matching_lines(query, contents, case_sensitive).contains(lines_of(contents)[i])
            },
{
    let lines = lines_of(contents);
    let keep = matcher(query, case_sensitive);
    lemma_kept_positions(lines, keep);
    let at = kept_positions(lines, keep);
    assert forall|i: int|
        0 <= i < lines.len() && line_matches(query, #[trigger] lines[i], case_sensitive) implies {
        &&& at.contains(i)
        &&& lines.filter(keep).contains(lines[i])
    } by {
        assert(keep(lines[i]));
        assert(at.contains(i));
        let k = at.index_of(i);
        assert(lines.filter(keep)[k] == lines[i]);
    }
}

/// The lines found stand in the order of the text, each position once: the
/// k-th line found is the line at the k-th matching position, and the
/// matching positions rise.
pub proof fn found_lines_keep_order(query: Seq<char>, contents: Seq<char>, case_sensitive: bool)
    ensures
        matching_lines(query, contents, case_sensitive).len() == matching_positions(
            query,
            contents,
            case_sensitive,
        ).len(),
        forall|k: int|
            0 <= k < matching_positions(query, contents, case_sensitive).len() ==> {
                &&& 0 <= #[trigger] matching_positions(query, contents, case_sensitive)[k]
                    < lines_of(contents).len()
                &&& matching_lines(query, contents, case_sensitive)[k] == lines_of(
                    contents,
                )[matching_positions(query, contents, case_sensitive)[k]]
            },
        forall|j: int, k: int|
            0 <= j < k < matching_positions(query, contents, case_sensitive).len()
                ==> #[trigger] matching_positions(query, contents, case_sensitive)[j]
                < #[trigger] matching_positions(query, contents, case_sensitive)[k],
{
    lemma_kept_positions(lines_of(contents), matcher(query, case_sensitive));
}

/// Searching twice with the same query, text and mode finds the same lines
/// in the same order: what is found depends on nothing else.
pub proof fn repeated_search_finds_the_same(
    first: Seq<Seq<char>>,
    second: Seq<Seq<char>>,
    query: Seq<char>,
    contents: Seq<char>,
    case_sensitive: bool,
)
    requires
        first == matching_lines(query, contents, case_sensitive),
        second == matching_lines(query, contents, case_sensitive),
    ensures
        first == second,
{
}

} // verus!
