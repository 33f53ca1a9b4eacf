//! What holds of the lines of every text and of every search, whatever the
//! query and the text.

use crate::lines::{first_break, lemma_first_break, lines_of, without_carriage_return};
use crate::matching::{
    fold_case, lemma_contains_empty, lemma_fold_keeps_containment, line_matches,
};
use crate::search::{matcher, matching_lines};
use crate::sequences::{
    is_subsequence, lemma_filter_in_two_steps, lemma_filter_is_subsequence,
    lemma_filter_keeps_all,
};
use vstd::prelude::*;

verus! {

/// Where the first line feed stands once a character is added at the end.
proof fn lemma_first_break_push(text: Seq<char>, c: char)
    ensures
        first_break(text.push(c)) == if first_break(text) < text.len() {
            first_break(text)
        } else if c == '\n' {
            text.len()
        } else {
            text.len() + 1
        },
    decreases text.len(),
{
    lemma_first_break(text);
    let longer = text.push(c);
    if text.len() == 0 {
        assert(longer[0] == c);
        assert(longer.drop_first() =~= Seq::<char>::empty());
        assert(first_break(longer.drop_first()) == 0);
    } else if text[0] != '\n' {
        assert(longer[0] == text[0]);
        assert(longer.drop_first() =~= text.drop_first().push(c));
        lemma_first_break_push(text.drop_first(), c);
    } else {
        assert(longer[0] == text[0]);
    }
}

/// No line holds a line feed.
pub proof fn lemma_no_line_holds_a_line_feed(text: Seq<char>)
    ensures
        forall|i: int, j: int|
            0 <= i < lines_of(text).len() && 0 <= j < lines_of(text)[i].len() ==> lines_of(
                text,
            )[i][j] != '\n',
    decreases text.len(),
{
    let k = first_break(text) as int;
    let lines = lines_of(text);
    lemma_first_break(text);
    if text.len() > 0 && k < text.len() {
        let rest = lines_of(text.skip(k + 1));
        lemma_no_line_holds_a_line_feed(text.skip(k + 1));
        assert forall|i: int, j: int|
            0 <= i < lines.len() && 0 <= j < lines[i].len() implies lines[i][j] != '\n' by {
            if i == 0 {
                assert(lines[0] == without_carriage_return(text.take(k)));
                assert(lines[0][j] == text[j]);
            } else {
                assert(lines[i] == rest[i - 1]);
            }
        }
    }
}

/// A line feed at the end of a text whose last line has none ends that
/// line and adds no line. Where that line does not end in a carriage
/// return, the lines are the same with the line feed and without it.
pub proof fn lemma_final_line_feed_adds_no_line(text: Seq<char>)
    requires
        text.len() > 0,
        text.last() != '\n',
    ensures
        lines_of(text).len() > 0,
        lines_of(text.push('\n')) == lines_of(text).drop_last().push(
            without_carriage_return(lines_of(text).last()),
        ),
        text.last() != '\r' ==> lines_of(text.push('\n')) == lines_of(text),
    decreases text.len(),
{
    let k = first_break(text) as int;
    let longer = text.push('\n');
    lemma_first_break(text);
    lemma_first_break_push(text, '\n');
    if k < text.len() {
        let rest = text.skip(k + 1);
        assert(rest.len() > 0 && rest.last() == text.last());
        lemma_final_line_feed_adds_no_line(rest);
        assert(longer.take(k) =~= text.take(k));
        assert(longer.skip(k + 1) =~= rest.push('\n'));
        let head = seq![without_carriage_return(text.take(k))];
        let ended = without_carriage_return(lines_of(rest).last());
        assert(lines_of(text) == head + lines_of(rest));
        assert(lines_of(longer) == head + lines_of(rest.push('\n')));
        assert((head + lines_of(rest)).drop_last() =~= head + lines_of(rest).drop_last());
        assert(head + lines_of(rest).drop_last().push(ended) =~= (head + lines_of(
            rest,
        ).drop_last()).push(ended));
    } else {
        assert(longer.take(k) =~= text);
        assert(longer.skip(k + 1) =~= Seq::<char>::empty());
        assert(lines_of(longer.skip(k + 1)) =~= Seq::<Seq<char>>::empty());
        assert(lines_of(text) =~= seq![text]);
        assert(lines_of(longer) =~= seq![without_carriage_return(text)]);
        assert(seq![text].drop_last().push(without_carriage_return(text)) =~= seq![
            without_carriage_return(text),
        ]);
    }
}

/// Every selected line contains the query, under the case rule of the
/// search, and a line of the text is among the selected ones exactly when
/// it contains the query: no line that contains it is left out.
pub proof fn lemma_selected_iff_matching(
    query: Seq<char>,
    contents: Seq<char>,
    case_sensitive: bool,
)
    ensures
        forall|i: int|
            0 <= i < matching_lines(query, contents, case_sensitive).len() ==> line_matches(
                #[trigger] matching_lines(query, contents, case_sensitive)[i],
                query,
                case_sensitive,
            ),
        forall|j: int|
            0 <= j < lines_of(contents).len() ==> (matching_lines(
                query,
                contents,
                case_sensitive,
            ).contains(lines_of(contents)[j]) <==> line_matches(
                #[trigger] lines_of(contents)[j],
                query,
                case_sensitive,
            )),
{
    let lines = lines_of(contents);
    let wanted = matcher(query, case_sensitive);
    let selected = matching_lines(query, contents, case_sensitive);
    assert forall|i: int| 0 <= i < selected.len() implies line_matches(
        #[trigger] selected[i],
        query,
        case_sensitive,
    ) by {
        lines.lemma_filter_pred(wanted, i);
    }
    assert forall|j: int| 0 <= j < lines.len() implies (selected.contains(lines[j])
        <==> line_matches(#[trigger] lines[j], query, case_sensitive)) by {
        if wanted(lines[j]) {
            lines.lemma_filter_contains(wanted, j);
        }
        if selected.contains(lines[j]) {
            let i = choose|i: int| 0 <= i < selected.len() && selected[i] == lines[j];
            assert(line_matches(selected[i], query, case_sensitive));
        }
    }
}

/// A line that contains the query with letter case observed contains it
/// with letter case ignored too.
pub proof fn lemma_case_sensitive_match_is_insensitive_match(line: Seq<char>, query: Seq<char>)
    requires
        line_matches(line, query, true),
    ensures
        line_matches(line, query, false),
{
    lemma_fold_keeps_containment(line, query);
}

/// What the case-sensitive search selects is a subsequence of what the
/// case-insensitive search selects for the same query and text: the latter
/// holds every line of the former, as often and in the same order.
pub proof fn lemma_case_insensitive_selects_more(query: Seq<char>, contents: Seq<char>)
    ensures
        is_subsequence(
            matching_lines(query, contents, true),
            matching_lines(query, contents, false),
        ),
        matching_lines(query, contents, true) == matching_lines(query, contents, false).filter(
            matcher(query, true),
        ),
{
    let lines = lines_of(contents);
    let strict = matcher(query, true);
    let loose = matcher(query, false);
    assert forall|i: int| 0 <= i < lines.len() && strict(#[trigger] lines[i]) implies loose(
        lines[i],
    ) by {
        lemma_case_sensitive_match_is_insensitive_match(lines[i], query);
    }
    lemma_filter_in_two_steps(lines, strict, loose);
    lemma_filter_is_subsequence(lines.filter(loose), strict);
}

/// The empty query selects every line of the text, in order, each once for
/// each time it stands there, whether letter case is observed or not.
pub proof fn lemma_empty_query_selects_every_line(contents: Seq<char>, case_sensitive: bool)
    ensures
        matching_lines(Seq::empty(), contents, case_sensitive) == lines_of(contents),
{
    let lines = lines_of(contents);
    let wanted = matcher(Seq::empty(), case_sensitive);
    assert(fold_case(Seq::empty()) =~= Seq::<char>::empty());
    assert forall|i: int| 0 <= i < lines.len() implies wanted(lines[i]) by {
        lemma_contains_empty(lines[i]);
        lemma_contains_empty(fold_case(lines[i]));
    }
    lemma_filter_keeps_all(lines, wanted);
}

/// The selected lines are a subsequence of the lines of the text: they come
/// in the order of the text, and none comes more often than it stands
/// there.
pub proof fn lemma_selection_keeps_order(
    query: Seq<char>,
    contents: Seq<char>,
    case_sensitive: bool,
)
    ensures
        is_subsequence(matching_lines(query, contents, case_sensitive), lines_of(contents)),
{
    lemma_filter_is_subsequence(lines_of(contents), matcher(query, case_sensitive));
}

} // verus!
