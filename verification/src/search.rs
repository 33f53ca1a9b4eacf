//! Selecting the lines of a text that contain a query.

use crate::config::Config;
use crate::lines::{lines_of, split_lines};
use crate::matching::{compared, decode_into, fold_into, has_substring, line_matches};
use vstd::prelude::*;

verus! {

/// The test that a line has to pass to be selected.
pub open spec fn matcher(query: Seq<char>, case_sensitive: bool) -> spec_fn(Seq<char>) -> bool {
    |line: Seq<char>| line_matches(line, query, case_sensitive)
}

/// The lines of `contents` that contain `query`, in the order in which they
/// stand in `contents`, each as often as it stands there.
pub open spec fn matching_lines(
    query: Seq<char>,
    contents: Seq<char>,
    case_sensitive: bool,
) -> Seq<Seq<char>> {
    lines_of(contents).filter(matcher(query, case_sensitive))
}

/// Replaces what `buffer` holds by `text` as the search compares it.
fn prepare(buffer: &mut Vec<char>, text: &str, case_sensitive: bool)
    ensures
        final(buffer)@ == compared(text@, case_sensitive),
{
    if case_sensitive {
        decode_into(buffer, text);
    } else {
        fold_into(buffer, text);
    }
}

/// The lines of `contents` that contain `query`.
fn select<'a>(query: &str, contents: &'a str, case_sensitive: bool) -> (found: Vec<&'a str>)
    ensures
        found.deep_view() == matching_lines(query@, contents@, case_sensitive),
{
    let lines = split_lines(contents);
    let mut needle: Vec<char> = Vec::new();
    prepare(&mut needle, query, case_sensitive);
    let mut hay: Vec<char> = Vec::new();
    let mut found: Vec<&'a str> = Vec::new();
    let ghost all = lines.deep_view();
    let ghost wanted = matcher(query@, case_sensitive);
    proof {
        reveal(Seq::filter);
        assert(found.deep_view() =~= all.take(0).filter(wanted));
    }
    for i in 0..lines.len()
        invariant
            all == lines.deep_view(),
            all == lines_of(contents@),
            wanted == matcher(query@, case_sensitive),
            needle@ == compared(query@, case_sensitive),
            found.deep_view() == all.take(i as int).filter(wanted),
    {
        let line = lines[i];
        let ghost before = found.deep_view();
        prepare(&mut hay, line, case_sensitive);
        if has_substring(hay.as_slice(), needle.as_slice()) {
            found.push(line);
            assert(found.deep_view() =~= before.push(line@));
        }
        proof {
            assert(all.take(i + 1) =~= all.take(i as int).push(line@));
            all.take(i as int).lemma_filter_push(line@, wanted);
        }
    }
    assert(all.take(lines.len() as int) =~= all);
    found
}

/// The lines of `contents` that contain `query`, letter case observed.
pub fn search<'a>(query: &str, contents: &'a str) -> (found: Vec<&'a str>)
    ensures
        found.deep_view() == matching_lines(query@, contents@, true),
{
    select(query, contents, true)
}

/// The lines of `contents` that contain `query`, letter case ignored: a
/// line is selected when its case-folded text contains the case-folded
/// query. The lines are returned as they stand in `contents`.
pub fn search_case_insensitive<'a>(query: &str, contents: &'a str) -> (found: Vec<&'a str>)
    ensures
        found.deep_view() == matching_lines(query@, contents@, false),
{
    select(query, contents, false)
}

/// The lines of `contents` that the search configured by `config` selects.
pub fn run<'a>(config: &Config, contents: &'a str) -> (found: Vec<&'a str>)
    ensures
        found.deep_view() == matching_lines(config@.query, contents@, config@.case_sensitive),
{
    if config.case_sensitive {
        search(config.query.as_str(), contents)
    } else {
        search_case_insensitive(config.query.as_str(), contents)
    }
}

} // verus!
