//! Characters and substring containment.
//!
//! The spec functions here give the mathematical meaning of a
//! case-insensitive character, of lowercasing a whole sequence, and of one
//! character sequence occurring inside another; the executable functions
//! decide those predicates character by character.

use vstd::prelude::*;

verus! {

/// Lowercase mapping of one character: an ASCII uppercase letter becomes the
/// corresponding lowercase letter, every other character is unchanged.
pub open spec fn lower_char(c: char) -> char {
    if 'A' <= c && c <= 'Z' {
        (((c as u32) + 32) as u8) as char
    } else {
        c
    }
}

/// The sequence with every character lowercased by `lower_char`.
pub open spec fn lower(s: Seq<char>) -> Seq<char> {
    s.map_values(|c: char| lower_char(c))
}

/// `needle` occurs in `hay` starting at position `i`.
pub open spec fn matches_at(hay: Seq<char>, needle: Seq<char>, i: int) -> bool {
    &&& 0 <= i
    &&& i + needle.len() <= hay.len()
    &&& hay.subrange(i, i + needle.len()) == needle
}

/// `needle` occurs somewhere in `hay`. The empty needle occurs in every
/// `hay`, at position zero.
pub open spec fn contains_substr(hay: Seq<char>, needle: Seq<char>) -> bool {
    exists|i: int| matches_at(hay, needle, i)
}

/// The empty needle is contained in every haystack.
pub proof fn lemma_contains_empty(hay: Seq<char>)
    ensures
        contains_substr(hay, Seq::<char>::empty()),
{
    assert(hay.subrange(0, 0) =~= Seq::<char>::empty());
    assert(matches_at(hay, Seq::<char>::empty(), 0));
}

/// Lowercase one character.
pub fn to_lower_char(c: char) -> (r: char)
    ensures
        r == lower_char(c),
{
    let u: u32 = c as u32;
    if 65 <= u && u <= 90 {
        ((u + 32) as u8) as char
    } else {
        c
    }
}

/// Character-for-character equality of two string slices.
pub fn eq_str(a: &str, b: &str) -> (r: bool)
    ensures
        r == (a@ == b@),
{
    let n = a.unicode_len();
    if n != b.unicode_len() {
        return false;
    }
    let mut i: usize = 0;
    while i < n
        invariant
            i <= n,
            n == a@.len(),
            n == b@.len(),
            forall|k: int| 0 <= k < i ==> a@[k] == b@[k],
        decreases n - i,
    {
        if a.get_char(i) != b.get_char(i) {
            return false;
        }
        i = i + 1;
    }
    proof {
        assert(a@ =~= b@);
    }
    true
}

/// Whether `needle` occurs in `hay` at position `i`, compared character by
/// character.
fn matches_at_exec(hay: &str, needle: &str, i: usize) -> (r: bool)
    requires
        i + needle@.len() <= hay@.len(),
        hay@.len() <= usize::MAX,
    ensures
        r == matches_at(hay@, needle@, i as int),
{
    let m = needle.unicode_len();
    let mut j: usize = 0;
    while j < m
        invariant
            j <= m,
            m == needle@.len(),
            i + m <= hay@.len(),
            hay@.len() <= usize::MAX,
            forall|k: int| 0 <= k < j ==> hay@[i + k] == needle@[k],
        decreases m - j,
    {
        if hay.get_char(i + j) != needle.get_char(j) {
            proof {
                assert(hay@.subrange(i as int, i + m)[j as int] == hay@[i + j]);
            }
            return false;
        }
        j = j + 1;
    }
    proof {
        assert(hay@.subrange(i as int, i + m) =~= needle@);
    }
    true
}

/// Whether `needle` occurs anywhere in `hay`.
pub fn str_contains(hay: &str, needle: &str) -> (r: bool)
    ensures
        r == contains_substr(hay@, needle@),
{
    let n = hay.unicode_len();
    let m = needle.unicode_len();
    if m > n {
        return false;
    }
    if m == 0 {
        proof {
            assert(needle@ =~= Seq::<char>::empty());
            lemma_contains_empty(hay@);
        }
        return true;
    }
    let mut i: usize = 0;
    while i <= n - m
        invariant
            1 <= m <= n,
            i <= n - m + 1,
            n == hay@.len(),
            m == needle@.len(),
            forall|k: int| 0 <= k < i ==> !matches_at(hay@, needle@, k),
        decreases n - i,
    {
        if matches_at_exec(hay, needle, i) {
            return true;
        }
        i = i + 1;
    }
    proof {
        assert forall|k: int| !matches_at(hay@, needle@, k) by {
            if 0 <= k < i {
            } else if k >= i {
                assert(k + needle@.len() > hay@.len());
            }
        }
    }
    false
}

/// Whether `needle` occurs in `hay` at position `i` once both are
/// lowercased, compared character by character.
fn matches_at_ci_exec(hay: &str, needle: &str, i: usize) -> (r: bool)
    requires
        i + needle@.len() <= hay@.len(),
        hay@.len() <= usize::MAX,
    ensures
        r == matches_at(lower(hay@), lower(needle@), i as int),
{
    let m = needle.unicode_len();
    let mut j: usize = 0;
    while j < m
        invariant
            j <= m,
            m == needle@.len(),
            i + m <= hay@.len(),
            hay@.len() <= usize::MAX,
            forall|k: int| 0 <= k < j ==> lower(hay@)[i + k] == lower(needle@)[k],
        decreases m - j,
    {
        if to_lower_char(hay.get_char(i + j)) != to_lower_char(needle.get_char(j)) {
            proof {
                assert(lower(hay@).subrange(i as int, i + m)[j as int] == lower(hay@)[i + j]);
            }
            return false;
        }
        j = j + 1;
    }
    proof {
        assert(lower(hay@).subrange(i as int, i + m) =~= lower(needle@));
    }
    true
}

/// Whether `needle` occurs anywhere in `hay` once both are lowercased.
pub fn str_contains_ci(hay: &str, needle: &str) -> (r: bool)
    ensures
        r == contains_substr(lower(hay@), lower(needle@)),
{
    let n = hay.unicode_len();
    let m = needle.unicode_len();
    if m > n {
        return false;
    }
    if m == 0 {
        proof {
            assert(lower(needle@) =~= Seq::<char>::empty());
            lemma_contains_empty(lower(hay@));
        }
        return true;
    }
    let mut i: usize = 0;
    while i <= n - m
        invariant
            1 <= m <= n,
            i <= n - m + 1,
            n == hay@.len(),
            m == needle@.len(),
            forall|k: int| 0 <= k < i ==> !matches_at(lower(hay@), lower(needle@), k),
        decreases n - i,
    {
        if matches_at_ci_exec(hay, needle, i) {
            return true;
        }
        i = i + 1;
    }
    proof {
        assert forall|k: int| !matches_at(lower(hay@), lower(needle@), k) by {
            if 0 <= k < i {
            } else if k >= i {
                assert(k + lower(needle@).len() > lower(hay@).len());
            }
        }
    }
    false
}

/// Lowercasing commutes with taking a subrange.
pub proof fn lemma_lower_subrange(s: Seq<char>, a: int, b: int)
    requires
        0 <= a <= b <= s.len(),
    ensures
        lower(s).subrange(a, b) == lower(s.subrange(a, b)),
{
    assert(lower(s).subrange(a, b) =~= lower(s.subrange(a, b)));
}

/// A case-sensitive occurrence is also an occurrence after lowercasing.
pub proof fn lemma_contains_lower(hay: Seq<char>, needle: Seq<char>)
    requires
        contains_substr(hay, needle),
    ensures
        contains_substr(lower(hay), lower(needle)),
{
    let i = choose|i: int| matches_at(hay, needle, i);
    lemma_lower_subrange(hay, i, i + needle.len());
    assert(lower(hay).subrange(i, i + lower(needle).len()) == lower(needle));
    assert(matches_at(lower(hay), lower(needle), i));
}

} // verus!
