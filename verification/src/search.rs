//! Selecting the lines of a document that contain a query.
//!
//! `search` keeps exactly the lines that contain the query as written;
//! `search_case_insensitive` keeps exactly the lines that contain it once
//! both line and query are lowercased. Both keep the lines in document
//! order and return them with their original casing, as slices borrowing
//! from the document.

use vstd::prelude::*;

use crate::lines::spec_lines;
use crate::lines::split_lines;
use crate::text::contains_substr;
use crate::text::lemma_contains_empty;
use crate::text::lemma_contains_lower;
use crate::text::lower;
use crate::text::str_contains;
use crate::text::str_contains_ci;

verus! {

/// A line matches a query case-sensitively when it contains it as written.
pub open spec fn line_matches(line: Seq<char>, query: Seq<char>) -> bool {
    contains_substr(line, query)
}

/// A line matches a query case-insensitively when the lowercased line
/// contains the lowercased query.
pub open spec fn line_matches_ci(line: Seq<char>, query: Seq<char>) -> bool {
    contains_substr(lower(line), lower(query))
}

/// The lines of `contents` that contain `query`, in document order.
pub open spec fn search_matches(query: Seq<char>, contents: Seq<char>) -> Seq<Seq<char>> {
    spec_lines(contents).filter(|line: Seq<char>| line_matches(line, query))
}

/// The lines of `contents` that contain `query` up to lowercasing, in
/// document order.
pub open spec fn search_matches_ci(query: Seq<char>, contents: Seq<char>) -> Seq<Seq<char>> {
    spec_lines(contents).filter(|line: Seq<char>| line_matches_ci(line, query))
}

/// Filtering a singleton keeps or drops its one element.
proof fn lemma_filter_singleton<A>(x: A, pred: spec_fn(A) -> bool)
    ensures
        seq![x].filter(pred) == if pred(x) {
            seq![x]
        } else {
            Seq::<A>::empty()
        },
{
    reveal(Seq::filter);
    assert(seq![x].drop_last() =~= Seq::<A>::empty());
    assert(Seq::<A>::empty().filter(pred) =~= Seq::<A>::empty());
    if pred(x) {
        assert(seq![x].filter(pred) =~= seq![x]);
    }
}

/// Search the lines of `contents` for those containing `query` as written.
pub fn search<'a>(query: &str, contents: &'a str) -> (matches: Vec<&'a str>)
    ensures
        matches.deep_view() == search_matches(query@, contents@),
{
    let ghost pred = |line: Seq<char>| line_matches(line, query@);
    let lines = split_lines(contents);
    let mut matches: Vec<&'a str> = Vec::new();
    let mut idx: usize = 0;
    proof {
        assert(lines.deep_view().subrange(0, 0) =~= Seq::<Seq<char>>::empty());
        assert(Seq::<Seq<char>>::empty().filter(pred) =~= Seq::<Seq<char>>::empty());
        assert(matches.deep_view() =~= Seq::<Seq<char>>::empty());
    }
    while idx < lines.len()
        invariant
            idx <= lines.len(),
            lines.deep_view() == spec_lines(contents@),
            pred == (|line: Seq<char>| line_matches(line, query@)),
            matches.deep_view() == lines.deep_view().subrange(0, idx as int).filter(pred),
        decreases lines.len() - idx,
    {
        let ghost prev = matches.deep_view();
        let ghost lseq = lines.deep_view();
        let line = lines[idx];
        proof {
            assert(lseq[idx as int] == line@);
        }
        if str_contains(line, query) {
            matches.push(line);
            proof {
                assert(matches.deep_view() =~= prev + seq![line@]);
            }
        }
        proof {
            assert(lseq.subrange(0, idx + 1) =~= lseq.subrange(0, idx as int) + seq![line@]);
            Seq::filter_distributes_over_add(lseq.subrange(0, idx as int), seq![line@], pred);
            lemma_filter_singleton(line@, pred);
            if pred(line@) {
                assert(lseq.subrange(0, idx as int).filter(pred) + seq![line@] =~= prev + seq![
                    line@,
                ]);
            } else {
                assert(lseq.subrange(0, idx as int).filter(pred) + Seq::<Seq<char>>::empty()
                    =~= prev);
            }
        }
        idx = idx + 1;
    }
    proof {
        assert(lines.deep_view().subrange(0, lines.deep_view().len() as int) =~= lines.deep_view());
    }
    matches
}

/// Search the lines of `contents` for those containing `query` up to
/// lowercasing; the matching lines keep their original casing.
pub fn search_case_insensitive<'a>(query: &str, contents: &'a str) -> (matches: Vec<&'a str>)
    ensures
        matches.deep_view() == search_matches_ci(query@, contents@),
{
    let ghost pred = |line: Seq<char>| line_matches_ci(line, query@);
    let lines = split_lines(contents);
    let mut matches: Vec<&'a str> = Vec::new();
    let mut idx: usize = 0;
    proof {
        assert(lines.deep_view().subrange(0, 0) =~= Seq::<Seq<char>>::empty());
        assert(Seq::<Seq<char>>::empty().filter(pred) =~= Seq::<Seq<char>>::empty());
        assert(matches.deep_view() =~= Seq::<Seq<char>>::empty());
    }
    while idx < lines.len()
        invariant
            idx <= lines.len(),
            lines.deep_view() == spec_lines(contents@),
            pred == (|line: Seq<char>| line_matches_ci(line, query@)),
            matches.deep_view() == lines.deep_view().subrange(0, idx as int).filter(pred),
        decreases lines.len() - idx,
    {
        let ghost prev = matches.deep_view();
        let ghost lseq = lines.deep_view();
        let line = lines[idx];
        proof {
            assert(lseq[idx as int] == line@);
        }
        if str_contains_ci(line, query) {
            matches.push(line);
            proof {
                assert(matches.deep_view() =~= prev + seq![line@]);
            }
        }
        proof {
            assert(lseq.subrange(0, idx + 1) =~= lseq.subrange(0, idx as int) + seq![line@]);
            Seq::filter_distributes_over_add(lseq.subrange(0, idx as int), seq![line@], pred);
            lemma_filter_singleton(line@, pred);
            if pred(line@) {
                assert(lseq.subrange(0, idx as int).filter(pred) + seq![line@] =~= prev + seq![
                    line@,
                ]);
            } else {
                assert(lseq.subrange(0, idx as int).filter(pred) + Seq::<Seq<char>>::empty()
                    =~= prev);
            }
        }
        idx = idx + 1;
    }
    proof {
        assert(lines.deep_view().subrange(0, lines.deep_view().len() as int) =~= lines.deep_view());
    }
    matches
}

/// Filtering keeps a sequence whose elements all satisfy the predicate.
proof fn lemma_filter_true<A>(s: Seq<A>, pred: spec_fn(A) -> bool)
    requires
        forall|i: int| 0 <= i < s.len() ==> pred(#[trigger] s[i]),
    ensures
        s.filter(pred) == s,
    decreases s.len(),
{
    reveal(Seq::filter);
    if s.len() != 0 {
        assert forall|i: int| 0 <= i < s.drop_last().len() implies pred(
            #[trigger] s.drop_last()[i],
        ) by {
            assert(s.drop_last()[i] == s[i]);
        }
        lemma_filter_true(s.drop_last(), pred);
        assert(s.drop_last().push(s.last()) =~= s);
    }
}

/// Filtering empties a sequence none of whose elements satisfy the
/// predicate.
proof fn lemma_filter_none<A>(s: Seq<A>, pred: spec_fn(A) -> bool)
    requires
        forall|i: int| 0 <= i < s.len() ==> !pred(#[trigger] s[i]),
    ensures
        s.filter(pred) == Seq::<A>::empty(),
    decreases s.len(),
{
    reveal(Seq::filter);
    if s.len() != 0 {
        assert forall|i: int| 0 <= i < s.drop_last().len() implies !pred(
            #[trigger] s.drop_last()[i],
        ) by {
            assert(s.drop_last()[i] == s[i]);
        }
        lemma_filter_none(s.drop_last(), pred);
    }
}

/// An element of a filtered sequence is an element of the sequence.
proof fn lemma_filter_elements<A>(s: Seq<A>, pred: spec_fn(A) -> bool, i: int)
    requires
        0 <= i < s.filter(pred).len(),
    ensures
        s.contains(s.filter(pred)[i]),
    decreases s.len(),
{
    reveal(Seq::filter);
    if s.len() != 0 {
        let rest = s.drop_last();
        let x = s.filter(pred)[i];
        if pred(s.last()) && i == s.filter(pred).len() - 1 {
            assert(s[s.len() - 1] == x);
        } else {
            lemma_filter_elements(rest, pred, i);
            let j = choose|j: int| 0 <= j < rest.len() && rest[j] == x;
            assert(s[j] == x);
        }
    }
}

/// Filtering by a predicate that implies another is unaffected by first
/// filtering by the weaker one.
proof fn lemma_filter_implied<A>(s: Seq<A>, p1: spec_fn(A) -> bool, p2: spec_fn(A) -> bool)
    requires
        forall|x: A| #[trigger] p1(x) ==> p2(x),
    ensures
        s.filter(p2).filter(p1) == s.filter(p1),
    decreases s.len(),
{
    reveal(Seq::filter);
    if s.len() != 0 {
        let rest = s.drop_last();
        let last = s.last();
        lemma_filter_implied(rest, p1, p2);
        if p2(last) {
            assert(rest.filter(p2).push(last) =~= rest.filter(p2) + seq![last]);
            Seq::filter_distributes_over_add(rest.filter(p2), seq![last], p1);
            lemma_filter_singleton(last, p1);
            if p1(last) {
                assert(rest.filter(p1) + seq![last] =~= rest.filter(p1).push(last));
            } else {
                assert(rest.filter(p1) + Seq::<A>::empty() =~= rest.filter(p1));
            }
        } else {
            assert(!p1(last));
        }
    }
}

/// Substring containment law: every returned line contains the query, and
/// every line of the document that contains the query is returned. The
/// returned lines stand in document order, since `search_matches` filters
/// the document's lines in place.
pub proof fn lemma_search_sound_complete(query: Seq<char>, contents: Seq<char>)
    ensures
        forall|i: int|
            0 <= i < search_matches(query, contents).len() ==> line_matches(
                #[trigger] search_matches(query, contents)[i],
                query,
            ),
        forall|i: int|
            0 <= i < spec_lines(contents).len() && line_matches(
                #[trigger] spec_lines(contents)[i],
                query,
            ) ==> search_matches(query, contents).contains(spec_lines(contents)[i]),
{
    let lines = spec_lines(contents);
    let pred = |line: Seq<char>| line_matches(line, query);
    assert forall|i: int| 0 <= i < lines.filter(pred).len() implies pred(
        #[trigger] lines.filter(pred)[i],
    ) by {
        lines.lemma_filter_pred(pred, i);
    }
    assert forall|i: int| 0 <= i < lines.len() && pred(#[trigger] lines[i]) implies lines.filter(
        pred,
    ).contains(lines[i]) by {
        lines.lemma_filter_contains(pred, i);
    }
}

/// Case-insensitive superset law: a line that matches as written also
/// matches up to lowercasing; every case-sensitive match appears among the
/// case-insensitive ones; and the case-sensitive matches are exactly the
/// case-insensitive matches that also match as written, so the two results
/// agree on their relative order.
pub proof fn lemma_case_insensitive_superset(query: Seq<char>, contents: Seq<char>)
    ensures
        forall|line: Seq<char>| #[trigger]
            line_matches(line, query) ==> line_matches_ci(line, query),
        forall|i: int|
            0 <= i < search_matches(query, contents).len() ==> search_matches_ci(
                query,
                contents,
            ).contains(#[trigger] search_matches(query, contents)[i]),
        search_matches_ci(query, contents).filter(|line: Seq<char>| line_matches(line, query))
            == search_matches(query, contents),
{
    assert forall|line: Seq<char>| #[trigger] line_matches(line, query) implies line_matches_ci(
        line,
        query,
    ) by {
        lemma_contains_lower(line, query);
    }
    lemma_filter_implied(
        spec_lines(contents),
        |line: Seq<char>| line_matches(line, query),
        |line: Seq<char>| line_matches_ci(line, query),
    );
    assert forall|i: int| 0 <= i < search_matches(query, contents).len() implies search_matches_ci(
        query,
        contents,
    ).contains(#[trigger] search_matches(query, contents)[i]) by {
        lemma_filter_elements(
            search_matches_ci(query, contents),
            |line: Seq<char>| line_matches(line, query),
            i,
        );
    }
}

/// Empty query law: every line contains the empty query, so searching for
/// it returns all lines of the document unchanged, in order.
pub proof fn lemma_empty_query(contents: Seq<char>)
    ensures
        search_matches(Seq::<char>::empty(), contents) == spec_lines(contents),
{
    assert forall|line: Seq<char>| #[trigger] line_matches(line, Seq::<char>::empty()) by {
        lemma_contains_empty(line);
    }
    lemma_filter_true(
        spec_lines(contents),
        |line: Seq<char>| line_matches(line, Seq::<char>::empty()),
    );
}

/// No-match law: a query contained in no line of the document selects
/// nothing.
pub proof fn lemma_no_match(query: Seq<char>, contents: Seq<char>)
    requires
        forall|i: int|
            0 <= i < spec_lines(contents).len() ==> !line_matches(
                #[trigger] spec_lines(contents)[i],
                query,
            ),
    ensures
        search_matches(query, contents) == Seq::<Seq<char>>::empty(),
{
    lemma_filter_none(spec_lines(contents), |line: Seq<char>| line_matches(line, query));
}

} // verus!
