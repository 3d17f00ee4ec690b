//! Splitting a document into lines.
//!
//! A document is split at each newline character; a carriage return that
//! immediately precedes a newline belongs to the terminator and is dropped;
//! a final newline terminates the last line rather than opening an empty
//! one. `spec_lines` states this mathematically and `split_lines` computes
//! it, returning slices that borrow from the document.

use vstd::prelude::*;

verus! {

/// A line that was terminated by a newline sheds one trailing carriage
/// return, so that a two-character terminator is also dropped whole.
pub open spec fn strip_cr(line: Seq<char>) -> Seq<char> {
    if line.len() > 0 && line.last() == '\r' {
        line.drop_last()
    } else {
        line
    }
}

/// Position of the first newline in `s`, or `s.len()` if there is none.
pub open spec fn first_nl(s: Seq<char>) -> nat
    decreases s.len(),
{
    if s.len() == 0 {
        0
    } else if s[0] == '\n' {
        0
    } else {
        (1 + first_nl(s.drop_first())) as nat
    }
}

/// The lines of `s`: the maximal newline-free pieces, each shorn of a
/// carriage return that stood against its terminator, with no empty final
/// line for a document that ends in a newline.
pub open spec fn spec_lines(s: Seq<char>) -> Seq<Seq<char>>
    decreases s.len(),
{
    if s.len() == 0 {
        Seq::empty()
    } else if first_nl(s) >= s.len() {
        seq![s]
    } else {
        seq![strip_cr(s.subrange(0, first_nl(s) as int))] + spec_lines(
            s.subrange(first_nl(s) as int + 1, s.len() as int),
        )
    }
}

/// `first_nl` is in bounds, points at a newline when one exists, and
/// nothing before it is a newline.
pub proof fn lemma_first_nl(s: Seq<char>)
    ensures
        first_nl(s) <= s.len(),
        forall|k: int| 0 <= k < first_nl(s) ==> s[k] != '\n',
        first_nl(s) < s.len() ==> s[first_nl(s) as int] == '\n',
    decreases s.len(),
{
    if s.len() == 0 {
    } else if s[0] == '\n' {
    } else {
        lemma_first_nl(s.drop_first());
        assert forall|k: int| 0 <= k < first_nl(s) implies s[k] != '\n' by {
            if k > 0 {
                assert(s.drop_first()[k - 1] == s[k]);
            }
        }
        if first_nl(s) < s.len() {
            assert(s.drop_first()[first_nl(s) - 1] == s[first_nl(s) as int]);
        }
    }
}

/// A position with no newline before it, and a newline at it or the end of
/// `s` at it, is exactly `first_nl`.
pub proof fn lemma_first_nl_is(s: Seq<char>, j: int)
    requires
        0 <= j <= s.len(),
        forall|k: int| 0 <= k < j ==> s[k] != '\n',
        j < s.len() ==> s[j] == '\n',
    ensures
        first_nl(s) == j,
{
    lemma_first_nl(s);
    let f = first_nl(s) as int;
    if f < j {
        assert(s[f] == '\n');
        assert(false);
    } else if f > j {
        assert(s[j] != '\n');
        assert(false);
    }
}

/// Split `contents` into its lines.
pub fn split_lines<'a>(contents: &'a str) -> (lines: Vec<&'a str>)
    ensures
        lines.deep_view() == spec_lines(contents@),
{
    let n = contents.unicode_len();
    let mut lines: Vec<&'a str> = Vec::new();
    let mut start: usize = 0;
    proof {
        assert(contents@.subrange(0, n as int) =~= contents@);
        assert(lines.deep_view() =~= Seq::<Seq<char>>::empty());
        assert(lines.deep_view() + spec_lines(contents@) =~= spec_lines(contents@));
    }
    while start < n
        invariant
            start <= n,
            n == contents@.len(),
            spec_lines(contents@) == lines.deep_view() + spec_lines(
                contents@.subrange(start as int, n as int),
            ),
        decreases n - start,
    {
        let ghost prev = lines.deep_view();
        let ghost rem = contents@.subrange(start as int, n as int);
        let mut j: usize = start;
        while j < n && contents.get_char(j) != '\n'
            invariant
                start <= j <= n,
                n == contents@.len(),
                forall|k: int| start <= k < j ==> contents@[k] != '\n',
            decreases n - j,
        {
            j = j + 1;
        }
        proof {
            assert forall|k: int| 0 <= k < j - start implies rem[k] != '\n' by {
                assert(rem[k] == contents@[start + k]);
            }
            if j < n {
                assert(rem[j - start] == contents@[j as int]);
            }
            lemma_first_nl_is(rem, j - start);
        }
        if j < n {
            let mut end: usize = j;
            if end > start && contents.get_char(end - 1) == '\r' {
                end = end - 1;
            }
            let line = contents.substring_char(start, end);
            lines.push(line);
            proof {
                let i = j - start;
                let seg = rem.subrange(0, i);
                assert(seg =~= contents@.subrange(start as int, j as int));
                assert(strip_cr(seg) =~= line@);
                let rest = rem.subrange(i + 1, rem.len() as int);
                assert(rest =~= contents@.subrange(j + 1, n as int));
                assert(spec_lines(rem) == seq![strip_cr(seg)] + spec_lines(rest));
                assert(lines.deep_view() =~= prev + seq![line@]);
                assert(prev + (seq![line@] + spec_lines(rest)) =~= (prev + seq![line@])
                    + spec_lines(rest));
            }
            start = j + 1;
        } else {
            let line = contents.substring_char(start, n);
            lines.push(line);
            proof {
                assert(line@ =~= rem);
                assert(spec_lines(rem) == seq![rem]);
                assert(lines.deep_view() =~= prev + seq![line@]);
                assert(contents@.subrange(n as int, n as int) =~= Seq::<char>::empty());
                assert(prev + seq![rem] + spec_lines(Seq::<char>::empty()) =~= prev + seq![rem]);
            }
            start = n;
        }
    }
    proof {
        assert(contents@.subrange(n as int, n as int) =~= Seq::<char>::empty());
        assert(lines.deep_view() + spec_lines(Seq::<char>::empty()) =~= lines.deep_view());
    }
    lines
}

} // verus!
