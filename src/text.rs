//! Character-level helpers on strings.

use vstd::prelude::*;

verus! {

pub open spec fn has_prefix(s: Seq<char>, p: Seq<char>) -> bool {
    p.len() <= s.len() && s.subrange(0, p.len() as int) == p
}

pub open spec fn has_suffix(s: Seq<char>, p: Seq<char>) -> bool {
    p.len() <= s.len() && s.subrange(s.len() - p.len(), s.len() as int) == p
}

/// Whether `s` begins with `p`.
pub fn starts_with(s: &str, p: &str) -> (r: bool)
    ensures
        r == has_prefix(s@, p@),
{
    let n = s.unicode_len();
    let m = p.unicode_len();
    if m > n {
        return false;
    }
    let mut i: usize = 0;
    while i < m
        invariant
            m <= n,
            n == s@.len(),
            m == p@.len(),
            i <= m,
            s@.subrange(0, i as int) == p@.subrange(0, i as int),
        decreases m - i,
    {
        if s.get_char(i) != p.get_char(i) {
            assert(s@.subrange(0, m as int)[i as int] != p@[i as int]);
            return false;
        }
        assert(s@.subrange(0, i + 1) =~= s@.subrange(0, i as int).push(s@[i as int]));
        assert(p@.subrange(0, i + 1) =~= p@.subrange(0, i as int).push(p@[i as int]));
        i = i + 1;
    }
    assert(p@.subrange(0, m as int) =~= p@);
    true
}

/// Whether `s` ends with `p`.
pub fn ends_with(s: &str, p: &str) -> (r: bool)
    ensures
        r == has_suffix(s@, p@),
{
    let n = s.unicode_len();
    let m = p.unicode_len();
    if m > n {
        return false;
    }
    let off = n - m;
    let mut i: usize = 0;
    while i < m
        invariant
            m <= n,
            off == n - m,
            n == s@.len(),
            m == p@.len(),
            i <= m,
            s@.subrange(off as int, off + i) == p@.subrange(0, i as int),
        decreases m - i,
    {
        if s.get_char(off + i) != p.get_char(i) {
            assert(s@.subrange(off as int, n as int)[i as int] != p@[i as int]);
            return false;
        }
        assert(s@.subrange(off as int, off + i + 1) =~= s@.subrange(off as int, off + i).push(s@[off + i]));
        assert(p@.subrange(0, i + 1) =~= p@.subrange(0, i as int).push(p@[i as int]));
        i = i + 1;
    }
    assert(p@.subrange(0, m as int) =~= p@);
    true
}

/// Whether the two strings hold the same characters.
pub fn same_text(s: &str, t: &str) -> (r: bool)
    ensures
        r == (s@ == t@),
{
    let n = s.unicode_len();
    let m = t.unicode_len();
    let r = n == m && starts_with(s, t);
    proof {
        assert(s@ =~= s@.subrange(0, n as int));
        if s@ == t@ {
            assert(has_prefix(s@, t@));
        }
    }
    r
}

/// Whether `c` occurs in `s`.
pub fn has_char(s: &str, c: char) -> (r: bool)
    ensures
        r == s@.contains(c),
{
    let n = s.unicode_len();
    let mut i: usize = 0;
    while i < n
        invariant
            n == s@.len(),
            i <= n,
            forall|j: int| 0 <= j < i ==> s@[j] != c,
        decreases n - i,
    {
        if s.get_char(i) == c {
            return true;
        }
        i = i + 1;
    }
    false
}

} // verus!
