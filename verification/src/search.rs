//! The search itself: the lines of a text that match a query.

use vstd::prelude::*;
use crate::config::Config;
use crate::laws::empty_query_finds_every_line;
use crate::lines::{lines, lines_of};
use crate::lowercase::{lowercase, to_lowercase};
use crate::matching::{matcher, matching_lines};
use crate::substring::contains_str;

verus! {

/// The lines of `contents` that contain `query`, in order. Each is a slice
/// of `contents`. The empty query is contained in every line.
pub fn search<'a>(query: &str, contents: &'a str) -> (found: Vec<&'a str>)
    ensures
        found.deep_view() == matching_lines(query@, contents@, true),
        query@.len() == 0 ==> found.deep_view() == lines_of(contents@),
{
    let all = lines(contents);
    let mut found: Vec<&'a str> = Vec::new();
    assert(found.deep_view() =~= all.deep_view().take(0).filter(matcher(query@, true)));
    for i in 0..all.len()
        invariant
            found.deep_view() == all.deep_view().take(i as int).filter(matcher(query@, true)),
    {
        let line = all[i];
        let ghost before = found.deep_view();
        let keep = contains_str(line, query);
        if keep {
            found.push(line);
        }
        proof {
            let seen = all.deep_view().take(i as int);
            assert(all.deep_view().take(i + 1) =~= seen.push(line@));
            seen.lemma_filter_push(line@, matcher(query@, true));
            assert(found.deep_view() =~= if keep {
                before.push(line@)
            } else {
                before
            });
        }
    }
    proof {
        assert(all.deep_view().take(all.len() as int) =~= all.deep_view());
        if query@.len() == 0 {
            assert(query@ =~= Seq::<char>::empty());
            empty_query_finds_every_line(contents@, true);
        }
    }
    found
}

/// The lines of `contents` whose lowercase form contains the lowercase form
/// of `query`, in order. Each is a slice of `contents`, as it stands there.
/// The empty query is contained in every line.
pub fn search_case_insensitive<'a>(query: &str, contents: &'a str) -> (found: Vec<&'a str>)
    ensures
        found.deep_view() == matching_lines(query@, contents@, false),
        query@.len() == 0 ==> found.deep_view() == lines_of(contents@),
{
    let needle = to_lowercase(query);
    let all = lines(contents);
    let mut found: Vec<&'a str> = Vec::new();
    assert(found.deep_view() =~= all.deep_view().take(0).filter(matcher(query@, false)));
    for i in 0..all.len()
        invariant
            needle@ == lowercase(query@),
            found.deep_view() == all.deep_view().take(i as int).filter(matcher(query@, false)),
    {
        let line = all[i];
        let ghost before = found.deep_view();
        let lowered = to_lowercase(line);
        let keep = contains_str(lowered.as_str(), needle.as_str());
        if keep {
            found.push(line);
        }
        proof {
            let seen = all.deep_view().take(i as int);
            assert(all.deep_view().take(i + 1) =~= seen.push(line@));
            seen.lemma_filter_push(line@, matcher(query@, false));
            assert(found.deep_view() =~= if keep {
                before.push(line@)
            } else {
                before
            });
        }
    }
    proof {
        assert(all.deep_view().take(all.len() as int) =~= all.deep_view());
        if query@.len() == 0 {
            assert(query@ =~= Seq::<char>::empty());
            empty_query_finds_every_line(contents@, false);
        }
    }
    found
}

/// Carries out the search that `config` describes on `contents`, the text
/// of the file that it names: the matching lines, in order, ready to be
/// printed one by one.
pub fn run<'a>(config: &Config, contents: &'a str) -> (found: Vec<&'a str>)
    ensures
        found.deep_view() == matching_lines(config.query@, contents@, config.case_sensitive),
        config.query@.len() == 0 ==> found.deep_view() == lines_of(contents@),
{
    if config.case_sensitive {
        search(config.query.as_str(), contents)
    } else {
        search_case_insensitive(config.query.as_str(), contents)
    }
}

} // verus!
