use vstd::prelude::*;

use vstd::utf8::encode_utf8;

use crate::text::{
    byte_offsets, chars_of, contains, has_substring, line_spans, lines_of, occurs_at, slice_chars,
    window_has_substring,
};

verus! {

broadcast use vstd::string::group_string_axioms;

/// The Unicode lowercase mapping of `s`, as `str::to_lowercase` computes it.
pub uninterp spec fn lower_of(s: Seq<char>) -> Seq<char>;

/// Relies on `str::to_lowercase`: its result depends on the characters of
/// `s` alone, and the empty string maps to the empty string.
#[verifier::external_body]
fn lowercase(s: &str) -> (r: String)
    ensures
        r@ == lower_of(s@),
        s@.len() == 0 ==> r@.len() == 0,
{
    s.to_lowercase()
}

/// Whether `line` matches `query`: it contains the query, after both are
/// lowercased when `ignore_case` holds.
pub open spec fn line_matches(line: Seq<char>, query: Seq<char>, ignore_case: bool) -> bool {
    if ignore_case {
        has_substring(lower_of(line), lower_of(query))
    } else {
        has_substring(line, query)
    }
}

/// The matching test on a line paired with its number.
pub open spec fn numbered_pred(query: Seq<char>, ignore_case: bool) -> spec_fn(
    (int, Seq<char>),
) -> bool {
    |p: (int, Seq<char>)| line_matches(p.1, query, ignore_case)
}

/// The matching test on a line.
pub open spec fn line_pred(query: Seq<char>, ignore_case: bool) -> spec_fn(Seq<char>) -> bool {
    |l: Seq<char>| line_matches(l, query, ignore_case)
}

/// Each line of `contents` with its 1-based number.
pub open spec fn numbered_lines(contents: Seq<char>) -> Seq<(int, Seq<char>)> {
    Seq::new(lines_of(contents).len(), |k: int| (k + 1, lines_of(contents)[k]))
}

/// The lines of `contents` that match `query`, in their order.
pub open spec fn matching_lines(query: Seq<char>, contents: Seq<char>, ignore_case: bool) -> Seq<
    Seq<char>,
> {
    lines_of(contents).filter(line_pred(query, ignore_case))
}

/// The lines of `contents` that match `query`, in their order, each with
/// its 1-based number in `contents`.
pub open spec fn numbered_matches(
    query: Seq<char>,
    contents: Seq<char>,
    ignore_case: bool,
) -> Seq<(int, Seq<char>)> {
    numbered_lines(contents).filter(numbered_pred(query, ignore_case))
}

/// The text of each line in `r`.
pub open spec fn line_views(r: Seq<&str>) -> Seq<Seq<char>> {
    r.map_values(|l: &str| l@)
}

/// The number and text of each numbered line in `r`.
pub open spec fn numbered_views(r: Seq<(usize, &str)>) -> Seq<(int, Seq<char>)> {
    r.map_values(|p: (usize, &str)| (p.0 as int, p.1@))
}

/// Whether `line` matches `query`, lowercasing both first when
/// `ignore_case` holds.
pub fn matches_line(query: &str, line: &str, ignore_case: bool) -> (r: bool)
    ensures
        r == line_matches(line@, query@, ignore_case),
{
    if ignore_case {
        let q = lowercase(query);
        let l = lowercase(line);
        contains(l.as_str(), q.as_str())
    } else {
        contains(line, query)
    }
}

/// The lines of `contents` that match `query`, with their numbers.
fn search_numbered<'a>(query: &str, contents: &'a str, ignore_case: bool) -> (r: Vec<
    (usize, &'a str),
>)
    ensures
        numbered_views(r@) == numbered_matches(query@, contents@, ignore_case),
        ignore_case ==> query@.len() == 0 ==> lower_of(query@) == Seq::<char>::empty(),
{
    let cs = chars_of(contents);
    let offs = byte_offsets(contents, &cs);
    let spans = line_spans(&cs);
    let q = if ignore_case {
        lowercase(query)
    } else {
        query.to_owned()
    };
    let qs = chars_of(q.as_str());
    let ghost lines = lines_of(contents@);
    let ghost all = numbered_lines(contents@);
    let ghost pred = numbered_pred(query@, ignore_case);
    proof {
        if ignore_case && query@.len() == 0 {
            assert(lower_of(query@) =~= Seq::<char>::empty());
        }
    }
    let mut r: Vec<(usize, &'a str)> = Vec::new();
    let mut k: usize = 0;
    while k < spans.len()
        invariant
            k <= spans.len(),
            spans.len() == lines.len(),
            lines == lines_of(contents@),
            all == numbered_lines(contents@),
            pred == numbered_pred(query@, ignore_case),
            cs@ == contents@,
            offs.len() == contents@.len() + 1,
            forall|i: int|
                0 <= i <= contents@.len() ==> #[trigger] offs[i] == encode_utf8(
                    contents@.take(i),
                ).len(),
            qs@ == if ignore_case {
                lower_of(query@)
            } else {
                query@
            },
            forall|j: int| 0 <= j < spans.len() ==> #[trigger] spans[j].0 <= spans[j].1 <= cs.len(),
            forall|j: int|
                0 <= j < spans.len() ==> cs@.subrange(spans[j].0 as int, spans[j].1 as int)
                    == #[trigger] lines_of(cs@)[j],
            numbered_views(r@) == all.take(k as int).filter(pred),
        decreases spans.len() - k,
    {
        let (a, b) = spans[k];
        assert(spans[k as int].0 <= spans[k as int].1 <= cs.len());
        assert(cs@.subrange(a as int, b as int) == lines[k as int]);
        let hit = if ignore_case {
            let line = slice_chars(contents, &offs, a, b);
            let low = lowercase(line);
            let ls = chars_of(low.as_str());
            assert(ls@.subrange(0, ls@.len() as int) =~= ls@);
            window_has_substring(&ls, 0, ls.len(), &qs)
        } else {
            window_has_substring(&cs, a, b, &qs)
        };
        assert(hit == pred(all[k as int]));
        let ghost before = r@;
        if hit {
            let line = slice_chars(contents, &offs, a, b);
            r.push((k + 1, line));
            assert(numbered_views(r@) =~= numbered_views(before).push(all[k as int]));
        }
        proof {
            assert(all.take(k + 1).drop_last() =~= all.take(k as int));
            assert(all.take(k + 1).last() == all[k as int]);
            reveal(Seq::filter);
        }
        k = k + 1;
    }
    assert(all.take(spans.len() as int) =~= all);
    r
}

/// Dropping the numbers after filtering on the line alone is filtering the
/// lines.
pub proof fn lemma_filter_then_drop_numbers<A>(
    s: Seq<(int, A)>,
    pn: spec_fn((int, A)) -> bool,
    pl: spec_fn(A) -> bool,
)
    requires
        forall|p: (int, A)| #[trigger] pn(p) == pl(p.1),
    ensures
        s.filter(pn).map_values(|p: (int, A)| p.1) == s.map_values(|p: (int, A)| p.1).filter(pl),
    decreases s.len(),
{
    reveal(Seq::filter);
    if s.len() > 0 {
        lemma_filter_then_drop_numbers(s.drop_last(), pn, pl);
        assert(s.map_values(|p: (int, A)| p.1).drop_last() =~= s.drop_last().map_values(
            |p: (int, A)| p.1,
        ));
        assert(pn(s.last()) == pl(s.last().1));
        if pn(s.last()) {
            assert(s.filter(pn).map_values(|p: (int, A)| p.1) =~= s.drop_last().filter(
                pn,
            ).map_values(|p: (int, A)| p.1).push(s.last().1));
        }
    }
}

/// A filter that keeps every item leaves the sequence as it was.
pub proof fn lemma_filter_keeps_all<A>(s: Seq<A>, pred: spec_fn(A) -> bool)
    requires
        forall|i: int| 0 <= i < s.len() ==> #[trigger] pred(s[i]),
    ensures
        s.filter(pred) == s,
    decreases s.len(),
{
    reveal(Seq::filter);
    if s.len() > 0 {
        assert(pred(s[s.len() - 1]));
        lemma_filter_keeps_all(s.drop_last(), pred);
        assert(s.drop_last().push(s.last()) =~= s);
    }
}

/// The matching lines are the numbered matches without their numbers.
pub proof fn lemma_matches_drop_numbers(query: Seq<char>, contents: Seq<char>, ignore_case: bool)
    ensures
        numbered_matches(query, contents, ignore_case).map_values(|p: (int, Seq<char>)| p.1)
            == matching_lines(query, contents, ignore_case),
{
    let pn = numbered_pred(query, ignore_case);
    let pl = line_pred(query, ignore_case);
    lemma_filter_then_drop_numbers(numbered_lines(contents), pn, pl);
    assert(numbered_lines(contents).map_values(|p: (int, Seq<char>)| p.1) =~= lines_of(contents));
}

/// The lines of numbered matches, with the numbers dropped.
fn drop_numbers<'a>(nr: Vec<(usize, &'a str)>) -> (r: Vec<&'a str>)
    ensures
        line_views(r@) == numbered_views(nr@).map_values(|p: (int, Seq<char>)| p.1),
{
    let mut r: Vec<&'a str> = Vec::new();
    let mut k: usize = 0;
    while k < nr.len()
        invariant
            k <= nr.len(),
            line_views(r@) == numbered_views(nr@).take(k as int).map_values(
                |p: (int, Seq<char>)| p.1,
            ),
        decreases nr.len() - k,
    {
        let ghost before = r@;
        r.push(nr[k].1);
        assert(line_views(r@) =~= line_views(before).push(nr@[k as int].1@));
        assert(numbered_views(nr@).take(k + 1).map_values(|p: (int, Seq<char>)| p.1)
            =~= numbered_views(nr@).take(k as int).map_values(|p: (int, Seq<char>)| p.1).push(
            nr@[k as int].1@,
        ));
        k = k + 1;
    }
    assert(numbered_views(nr@).take(nr.len() as int) =~= numbered_views(nr@));
    r
}

/// The lines of `contents` that contain `query`, in their order. A line
/// that contains it several times is listed once; an empty query matches
/// every line.
pub fn search<'a>(query: &str, contents: &'a str) -> (r: Vec<&'a str>)
    ensures
        line_views(r@) == matching_lines(query@, contents@, false),
{
    let nr = search_numbered(query, contents, false);
    proof {
        lemma_matches_drop_numbers(query@, contents@, false);
    }
    drop_numbers(nr)
}

/// The lines of `contents` whose lowercase form contains the lowercase form
/// of `query`, in their order.
pub fn search_case_insensitive<'a>(query: &str, contents: &'a str) -> (r: Vec<&'a str>)
    ensures
        line_views(r@) == matching_lines(query@, contents@, true),
        query@.len() == 0 ==> line_views(r@) == lines_of(contents@),
{
    let nr = search_numbered(query, contents, true);
    proof {
        lemma_matches_drop_numbers(query@, contents@, true);
        if query@.len() == 0 {
            assert(query@ =~= Seq::<char>::empty());
            lemma_every_line_matches_empty_query(contents@, true);
        }
    }
    drop_numbers(nr)
}

/// The lines of `contents` that contain `query`, each with its 1-based
/// number in `contents`.
pub fn search_with_line_numbers<'a>(query: &str, contents: &'a str) -> (r: Vec<(usize, &'a str)>)
    ensures
        numbered_views(r@) == numbered_matches(query@, contents@, false),
{
    search_numbered(query, contents, false)
}

/// The lines of `contents` that match `query` regardless of case, each with
/// its 1-based number in `contents`.
pub fn search_case_insensitive_with_line_numbers<'a>(query: &str, contents: &'a str) -> (r: Vec<
    (usize, &'a str),
>)
    ensures
        numbered_views(r@) == numbered_matches(query@, contents@, true),
        query@.len() == 0 ==> numbered_views(r@) == numbered_lines(contents@),
{
    let r = search_numbered(query, contents, true);
    proof {
        if query@.len() == 0 {
            assert(query@ =~= Seq::<char>::empty());
            lemma_every_line_matches_empty_query(contents@, true);
        }
    }
    r
}

/// Every line matches a query whose compared form is empty.
pub proof fn lemma_every_line_matches_empty_query(contents: Seq<char>, ignore_case: bool)
    requires
        ignore_case ==> lower_of(Seq::<char>::empty()) == Seq::<char>::empty(),
    ensures
        matching_lines(Seq::<char>::empty(), contents, ignore_case) == lines_of(contents),
        numbered_matches(Seq::<char>::empty(), contents, ignore_case) == numbered_lines(contents),
{
    let lines = lines_of(contents);
    let all = numbered_lines(contents);
    let pred = line_pred(Seq::<char>::empty(), ignore_case);
    assert forall|i: int| 0 <= i < lines.len() implies #[trigger] pred(lines[i]) by {
        let l = if ignore_case {
            lower_of(lines[i])
        } else {
            lines[i]
        };
        assert(l.subrange(0, 0) =~= Seq::<char>::empty());
        assert(occurs_at(l, Seq::<char>::empty(), 0));
    }
    assert forall|i: int| 0 <= i < all.len() implies #[trigger] numbered_pred(
        Seq::<char>::empty(),
        ignore_case,
    )(all[i]) by {
        assert(pred(lines[i]));
    }
    lemma_filter_keeps_all(lines, pred);
    lemma_filter_keeps_all(all, numbered_pred(Seq::<char>::empty(), ignore_case));
}

} // verus!
