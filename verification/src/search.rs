//! The search itself: the lines of a text that contain a query.

use vstd::prelude::*;
use crate::encoding::lemma_occurs_in_encoding;
use crate::lines::{
    after_first_line, first_line, lemma_lines_are_slices, lines, split_first_line,
};
use crate::substring::{find_bytes, lemma_occurs_in_transitive, occurs_in};

verus! {

/// The lines of `all` that contain `query`, in the order in which they stand
/// in `all`. A line is kept once for each time it stands in `all`, however
/// often the query stands in it.
pub open spec fn keep_matching(query: Seq<char>, all: Seq<Seq<char>>) -> Seq<Seq<char>> {
    all.filter(|line: Seq<char>| occurs_in(line, query))
}

/// The lines of `contents` that contain `query`: what `search` returns.
pub open spec fn matching_lines(query: Seq<char>, contents: Seq<char>) -> Seq<Seq<char>> {
    keep_matching(query, lines(contents))
}

/// The matching lines of a text are its first line, if it matches, and then
/// the matching lines of the rest.
pub proof fn lemma_matching_lines_step(query: Seq<char>, contents: Seq<char>)
    requires
        contents.len() > 0,
    ensures
        matching_lines(query, contents) == if occurs_in(first_line(contents), query) {
            seq![first_line(contents)] + matching_lines(query, after_first_line(contents))
        } else {
            matching_lines(query, after_first_line(contents))
        },
{
    let keep = |line: Seq<char>| occurs_in(line, query);
    let first = seq![first_line(contents)];
    let rest = lines(after_first_line(contents));
    Seq::filter_distributes_over_add(first, rest, keep);
    reveal_with_fuel(Seq::filter, 2);
}

/// Whether `pattern` stands in `text`, character for character.
pub fn contains(text: &str, pattern: &str) -> (found: bool)
    ensures
        found == occurs_in(text@, pattern@),
{
    proof {
        lemma_occurs_in_encoding(text@, pattern@);
    }
    find_bytes(text.as_bytes(), pattern.as_bytes())
}

/// Returns the lines of `contents` that contain `query`, in their order. Each
/// is a slice of `contents`. The comparison is exact: letters of different
/// case differ.
pub fn search<'a>(query: &str, contents: &'a str) -> (found: Vec<&'a str>)
    ensures
        found.deep_view() == matching_lines(query@, contents@),
{
    let mut found: Vec<&'a str> = Vec::new();
    let mut rest: &'a str = contents;
    while !rest.is_empty()
        invariant
            found.deep_view() + matching_lines(query@, rest@) == matching_lines(
                query@,
                contents@,
            ),
        decreases rest@.len(),
    {
        let (line, after) = split_first_line(rest);
        proof {
            lemma_matching_lines_step(query@, rest@);
        }
        if contains(line, query) {
            found.push(line);
        }
        rest = after;
    }
    found
}

/// `picks` names places of `full`, rising, and `part` holds what stands at
/// them, in that order.
pub open spec fn picked_in_order<T>(part: Seq<T>, full: Seq<T>, picks: Seq<int>) -> bool {
    &&& picks.len() == part.len()
    &&& forall|i: int|
        0 <= i < picks.len() ==> 0 <= #[trigger] picks[i] < full.len() && part[i] == full[picks[i]]
    &&& forall|i: int, j: int| 0 <= i < j < picks.len() ==> picks[i] < picks[j]
}

/// `part` can be had from `full` by leaving items out, the rest keeping
/// their order.
pub open spec fn is_subsequence<T>(part: Seq<T>, full: Seq<T>) -> bool {
    exists|picks: Seq<int>| picked_in_order(part, full, picks)
}

/// The places in `all` of the lines that contain `query`, rising.
pub open spec fn matching_places(query: Seq<char>, all: Seq<Seq<char>>) -> Seq<int>
    decreases all.len(),
{
    if all.len() == 0 {
        Seq::empty()
    } else if occurs_in(all.last(), query) {
        matching_places(query, all.drop_last()).push(all.len() - 1)
    } else {
        matching_places(query, all.drop_last())
    }
}

/// What is kept of `all` stands at the matching places, place by place, and
/// the matching places are the places of the lines that contain the query,
/// each once.
pub proof fn lemma_kept_at_matching_places(query: Seq<char>, all: Seq<Seq<char>>)
    ensures
        picked_in_order(keep_matching(query, all), all, matching_places(query, all)),
        forall|k: int|
            0 <= k < all.len() ==> (matching_places(query, all).contains(k) <==> occurs_in(
                #[trigger] all[k],
                query,
            )),
    decreases all.len(),
{
    reveal(Seq::filter);
    let places = matching_places(query, all);
    if all.len() > 0 {
        let front = all.drop_last();
        let last = all.len() - 1;
        let front_places = matching_places(query, front);
        lemma_kept_at_matching_places(query, front);
        assert forall|k: int| 0 <= k < all.len() implies (places.contains(k) <==> occurs_in(
            #[trigger] all[k],
            query,
        )) by {
            if k < last {
                assert(all[k] == front[k]);
                if front_places.contains(k) {
                    let i = choose|i: int| 0 <= i < front_places.len() && front_places[i] == k;
                    assert(places[i] == k);
                }
                if places.contains(k) {
                    let i = choose|i: int| 0 <= i < places.len() && places[i] == k;
                    assert(front_places[i] == k);
                }
            } else if occurs_in(all[last], query) {
                assert(places[places.len() - 1] == k);
            } else {
                if places.contains(k) {
                    let i = choose|i: int| 0 <= i < places.len() && places[i] == k;
                    assert(front_places[i] < front.len());
                }
            }
        }
    }
}

/// Every line that `search` returns contains the query, and every line of
/// the contents that contains the query is among those returned: a line that
/// is not returned does not contain it.
pub proof fn lemma_search_returns_the_matching_lines(query: Seq<char>, contents: Seq<char>)
    ensures
        forall|i: int|
            0 <= i < matching_lines(query, contents).len() ==> occurs_in(
                #[trigger] matching_lines(query, contents)[i],
                query,
            ),
        forall|k: int|
            0 <= k < lines(contents).len() && !matching_lines(query, contents).contains(
                #[trigger] lines(contents)[k],
            ) ==> !occurs_in(lines(contents)[k], query),
{
    let all = lines(contents);
    let kept = matching_lines(query, contents);
    let places = matching_places(query, all);
    lemma_kept_at_matching_places(query, all);
    assert forall|k: int| 0 <= k < all.len() && occurs_in(all[k], query) implies kept.contains(
        #[trigger] all[k],
    ) by {
        assert(places.contains(k));
        let i = choose|i: int| 0 <= i < places.len() && places[i] == k;
        assert(kept[i] == all[k]);
    }
}

/// What `search` returns is a subsequence of the lines of the contents: the
/// lines come out in the order in which they stand there.
pub proof fn lemma_search_keeps_the_order(query: Seq<char>, contents: Seq<char>)
    ensures
        is_subsequence(matching_lines(query, contents), lines(contents)),
{
    lemma_kept_at_matching_places(query, lines(contents));
}

/// Two calls of `search` with the same query and the same contents return
/// the same lines.
pub proof fn lemma_search_is_repeatable(
    query: &str,
    contents: &str,
    first: Vec<&str>,
    second: Vec<&str>,
)
    requires
        call_ensures(search, (query, contents), first),
        call_ensures(search, (query, contents), second),
    ensures
        first.deep_view() == second.deep_view(),
{
}

/// Every line that `search` returns is a contiguous run of characters of the
/// contents.
pub proof fn lemma_search_returns_slices(query: Seq<char>, contents: Seq<char>, i: int)
    requires
        0 <= i < matching_lines(query, contents).len(),
    ensures
        occurs_in(contents, matching_lines(query, contents)[i]),
{
    lemma_kept_at_matching_places(query, lines(contents));
    lemma_lines_are_slices(contents, matching_places(query, lines(contents))[i]);
}

/// A query that stands nowhere in the contents is found in no line.
pub proof fn lemma_absent_query_finds_nothing(query: Seq<char>, contents: Seq<char>)
    requires
        !occurs_in(contents, query),
    ensures
        matching_lines(query, contents) == Seq::<Seq<char>>::empty(),
{
    let kept = matching_lines(query, contents);
    if kept.len() > 0 {
        lemma_search_returns_the_matching_lines(query, contents);
        lemma_search_returns_slices(query, contents, 0);
        lemma_occurs_in_transitive(contents, kept[0], query);
    }
}

} // verus!
