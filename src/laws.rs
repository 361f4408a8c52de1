use vstd::prelude::*;

use crate::search::{
    lemma_every_line_matches_empty_query, line_pred, lower_of, matching_lines, numbered_lines,
    numbered_matches, numbered_pred,
};
use crate::text::{has_substring, lemma_lines_of_empty, lines_of};

verus! {

/// `r` is the part of `s` at the increasing positions `idx`, and a position
/// of `s` is among them exactly when its item satisfies `pred`.
pub open spec fn is_selection<A>(
    s: Seq<A>,
    r: Seq<A>,
    idx: Seq<int>,
    pred: spec_fn(A) -> bool,
) -> bool {
    &&& idx.len() == r.len()
    &&& forall|i: int, j: int| 0 <= i < j < idx.len() ==> idx[i] < idx[j]
    &&& forall|k: int|
        0 <= k < idx.len() ==> 0 <= #[trigger] idx[k] < s.len() && r[k] == s[idx[k]]
    &&& forall|j: int| 0 <= j < s.len() ==> (pred(s[j]) <==> idx.contains(j))
}

/// The test that a line contains `query`.
pub open spec fn contains_query(query: Seq<char>) -> spec_fn(Seq<char>) -> bool {
    |l: Seq<char>| has_substring(l, query)
}

/// A filter keeps, in order, exactly the items that satisfy its test.
pub proof fn lemma_filter_selects<A>(s: Seq<A>, pred: spec_fn(A) -> bool) -> (idx: Seq<int>)
    ensures
        is_selection(s, s.filter(pred), idx, pred),
    decreases s.len(),
{
    reveal(Seq::filter);
    if s.len() == 0 {
        Seq::empty()
    } else {
        let sub = lemma_filter_selects(s.drop_last(), pred);
        let last = s.len() - 1;
        assert forall|j: int| 0 <= j < last implies s.drop_last()[j] == s[j] by {}
        if pred(s.last()) {
            let idx = sub.push(last);
            assert forall|j: int| 0 <= j < s.len() implies (pred(s[j]) <==> idx.contains(j)) by {
                if j < last {
                    assert(s.drop_last()[j] == s[j]);
                    if sub.contains(j) {
                        let m = choose|m: int| 0 <= m < sub.len() && sub[m] == j;
                        assert(idx[m] == j);
                    }
                    if idx.contains(j) {
                        let m = choose|m: int| 0 <= m < idx.len() && idx[m] == j;
                        assert(m < sub.len());
                        assert(sub[m] == j);
                    }
                } else {
                    assert(idx[idx.len() - 1] == j);
                }
            }
            idx
        } else {
            assert forall|j: int| 0 <= j < s.len() implies (pred(s[j]) <==> sub.contains(j)) by {
                if j < last {
                    assert(s.drop_last()[j] == s[j]);
                } else {
                    assert(!sub.contains(j));
                }
            }
            sub
        }
    }
}

/// The exact search keeps, in their original order, every line of
/// `contents` that contains `query`, and omits every line that does not.
pub proof fn law_search_keeps_exactly_the_containing_lines(query: Seq<char>, contents: Seq<char>)
    ensures
        exists|idx: Seq<int>|
            #[trigger] is_selection(
                lines_of(contents),
                matching_lines(query, contents, false),
                idx,
                contains_query(query),
            ),
{
    let pred = line_pred(query, false);
    let idx = lemma_filter_selects(lines_of(contents), pred);
    assert(pred == contains_query(query));
    assert(is_selection(
        lines_of(contents),
        matching_lines(query, contents, false),
        idx,
        contains_query(query),
    ));
}

/// The number given with each match is the 1-based position of its line in
/// `contents`.
pub proof fn law_line_numbers_are_positions(
    query: Seq<char>,
    contents: Seq<char>,
    ignore_case: bool,
)
    ensures
        forall|i: int|
            0 <= i < numbered_matches(query, contents, ignore_case).len() ==> {
                let m = #[trigger] numbered_matches(query, contents, ignore_case)[i];
                &&& 1 <= m.0 <= lines_of(contents).len()
                &&& m.1 == lines_of(contents)[m.0 - 1]
            },
{
    let idx = lemma_filter_selects(numbered_lines(contents), numbered_pred(query, ignore_case));
    assert forall|i: int| 0 <= i < numbered_matches(query, contents, ignore_case).len() implies {
        let m = #[trigger] numbered_matches(query, contents, ignore_case)[i];
        &&& 1 <= m.0 <= lines_of(contents).len()
        &&& m.1 == lines_of(contents)[m.0 - 1]
    } by {
        assert(0 <= idx[i] < numbered_lines(contents).len());
    }
}

/// Every line that the exact search numbers, the case-insensitive search
/// numbers too, provided lowercasing keeps each exact occurrence of the
/// query in the lines of `contents`.
pub proof fn law_case_insensitive_covers_exact(query: Seq<char>, contents: Seq<char>)
    requires
        forall|k: int|
            0 <= k < lines_of(contents).len() && has_substring(#[trigger] lines_of(contents)[k], query)
                ==> has_substring(lower_of(lines_of(contents)[k]), lower_of(query)),
    ensures
        forall|i: int|
            0 <= i < numbered_matches(query, contents, false).len() ==> numbered_matches(
                query,
                contents,
                true,
            ).contains(#[trigger] numbered_matches(query, contents, false)[i]),
{
    let all = numbered_lines(contents);
    let exact = lemma_filter_selects(all, numbered_pred(query, false));
    let folded = lemma_filter_selects(all, numbered_pred(query, true));
    assert forall|i: int| 0 <= i < numbered_matches(query, contents, false).len() implies numbered_matches(
        query,
        contents,
        true,
    ).contains(#[trigger] numbered_matches(query, contents, false)[i]) by {
        let j = exact[i];
        assert(0 <= j < all.len());
        assert(exact.contains(j));
        assert(numbered_pred(query, false)(all[j]));
        assert(all[j].1 == lines_of(contents)[j]);
        assert(numbered_pred(query, true)(all[j]));
        assert(folded.contains(j));
        let m = choose|m: int| 0 <= m < folded.len() && folded[m] == j;
        assert(numbered_matches(query, contents, true)[m] == all[j]);
    }
}

/// Searching is a function of the query and the contents: equal inputs give
/// equal results, in every mode.
pub proof fn law_search_is_deterministic(
    query1: Seq<char>,
    contents1: Seq<char>,
    query2: Seq<char>,
    contents2: Seq<char>,
    ignore_case: bool,
)
    requires
        query1 == query2,
        contents1 == contents2,
    ensures
        matching_lines(query1, contents1, ignore_case) == matching_lines(
            query2,
            contents2,
            ignore_case,
        ),
        numbered_matches(query1, contents1, ignore_case) == numbered_matches(
            query2,
            contents2,
            ignore_case,
        ),
{
}

/// The empty query matches every line.
pub proof fn law_empty_query_matches_every_line(contents: Seq<char>)
    ensures
        matching_lines(Seq::empty(), contents, false) == lines_of(contents),
        numbered_matches(Seq::empty(), contents, false) == numbered_lines(contents),
{
    lemma_every_line_matches_empty_query(contents, false);
}

/// Empty contents have no matches, whatever the query.
pub proof fn law_empty_contents_have_no_matches(query: Seq<char>, ignore_case: bool)
    ensures
        matching_lines(query, Seq::empty(), ignore_case).len() == 0,
        numbered_matches(query, Seq::empty(), ignore_case).len() == 0,
{
    lemma_lines_of_empty();
    reveal(Seq::filter);
}

} // verus!
