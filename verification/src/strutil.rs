//! Verified text scanning: substring search, prefix tests, character scans
//! and trailing-newline removal, over `&str` views.

use vstd::prelude::*;

verus! {

/// `p` occurs in `s` starting at offset `i`.
pub open spec fn matches_at(s: Seq<char>, p: Seq<char>, i: int) -> bool {
    0 <= i && i + p.len() <= s.len() && s.subrange(i, i + p.len()) == p
}

/// `p` occurs somewhere in `s`.
pub open spec fn has_substring(s: Seq<char>, p: Seq<char>) -> bool {
    exists|i: int| matches_at(s, p, i)
}

/// `s` begins with `p`.
pub open spec fn has_prefix(s: Seq<char>, p: Seq<char>) -> bool {
    p.len() <= s.len() && s.subrange(0, p.len() as int) == p
}

/// Index of the first occurrence of `c` in `s` at or after `start`, or
/// `s.len()` when there is none.
pub open spec fn first_at_or_after(s: Seq<char>, c: char, start: int) -> int
    decreases s.len() - start,
    when 0 <= start <= s.len()
{
    if start >= s.len() {
        s.len() as int
    } else if s[start] == c {
        start
    } else {
        first_at_or_after(s, c, start + 1)
    }
}

/// Whether `p` occurs in `s` at exactly the offset `i`.
fn str_matches_at(s: &str, p: &str, i: usize) -> (r: bool)
    requires
        i + p@.len() <= s@.len() <= usize::MAX,
    ensures
        r == matches_at(s@, p@, i as int),
{
    let m = p.unicode_len();
    let mut j: usize = 0;
    while j < m
        invariant
            0 <= j <= m,
            m == p@.len(),
            i + m <= s@.len() <= usize::MAX,
            forall|k: int| 0 <= k < j ==> s@[i + k] == p@[k],
        decreases m - j,
    {
        if s.get_char(i + j) != p.get_char(j) {
            proof {
                let sub = s@.subrange(i as int, i + m as int);
                assert(sub.len() == m && sub[j as int] == s@[i + j]);
            }
            return false;
        }
        j = j + 1;
    }
    proof {
        assert(s@.subrange(i as int, i + m as int) =~= p@);
    }
    true
}

/// Substring search: whether `p` occurs anywhere in `s`.
pub fn str_contains(s: &str, p: &str) -> (r: bool)
    ensures
        r == has_substring(s@, p@),
{
    let n = s.unicode_len();
    let m = p.unicode_len();
    if m > n {
        proof {
            assert(forall|i: int| !matches_at(s@, p@, i));
        }
        return false;
    }
    let last = n - m;
    let mut i: usize = 0;
    loop
        invariant
            0 <= i <= last,
            m <= n,
            n == s@.len(),
            m == p@.len(),
            last == n - m,
            forall|k: int| 0 <= k < i ==> !matches_at(s@, p@, k),
        decreases last - i,
    {
        if str_matches_at(s, p, i) {
            return true;
        }
        if i == last {
            proof {
                assert(forall|k: int| matches_at(s@, p@, k) ==> 0 <= k <= last);
            }
            return false;
        }
        i = i + 1;
    }
}

/// Whether `s` begins with `p`.
pub fn str_has_prefix(s: &str, p: &str) -> (r: bool)
    ensures
        r == has_prefix(s@, p@),
{
    let n = s.unicode_len();
    let m = p.unicode_len();
    if m > n {
        return false;
    }
    str_matches_at(s, p, 0)
}

/// First index of `c` in `s` at or after `start`; `s`'s length when absent.
pub fn str_find_from(s: &str, c: char, start: usize) -> (r: usize)
    requires
        start <= s@.len(),
    ensures
        r == first_at_or_after(s@, c, start as int),
        start <= r <= s@.len(),
        r < s@.len() ==> s@[r as int] == c,
        forall|k: int| start <= k < r ==> s@[k] != c,
{
    let n = s.unicode_len();
    let mut i: usize = start;
    while i < n
        invariant
            start <= i <= n,
            n == s@.len(),
            first_at_or_after(s@, c, start as int) == first_at_or_after(s@, c, i as int),
            forall|k: int| start <= k < i ==> s@[k] != c,
        decreases n - i,
    {
        if s.get_char(i) == c {
            return i;
        }
        i = i + 1;
    }
    n
}

/// Character-for-character string equality.
pub fn str_eq(a: &str, b: &str) -> (r: bool)
    ensures
        r == (a@ == b@),
{
    let n = a.unicode_len();
    let m = b.unicode_len();
    if n != m {
        return false;
    }
    let mut i: usize = 0;
    while i < n
        invariant
            0 <= i <= n,
            n == a@.len(),
            n == b@.len(),
            forall|k: int| 0 <= k < i ==> a@[k] == b@[k],
        decreases n - i,
    {
        if a.get_char(i) != b.get_char(i) {
            return false;
        }
        i = i + 1;
    }
    proof {
        assert(a@ =~= b@);
    }
    true
}

/// `s` with one trailing newline removed, if it ends in one.
pub open spec fn without_trailing_newline(s: Seq<char>) -> Seq<char> {
    if s.len() > 0 && s.last() == '\n' {
        s.drop_last()
    } else {
        s
    }
}

/// Removes one trailing newline, as a sensor file's text carries.
pub fn strip_trailing_newline(s: &str) -> (r: &str)
    ensures
        r@ == without_trailing_newline(s@),
{
    let n = s.unicode_len();
    if n > 0 && s.get_char(n - 1) == '\n' {
        let r = s.substring_char(0, n - 1);
        proof {
            assert(r@ =~= s@.drop_last());
        }
        r
    } else {
        s
    }
}

} // verus!
