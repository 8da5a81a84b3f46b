//! Character-sequence helpers: searching for a separator and the lemmas that
//! relate a search to concatenation.

use vstd::prelude::*;

verus! {

/// Index of the first occurrence of `c` in `s`, or `s.len()` when `c` does
/// not occur.
pub open spec fn spec_find(s: Seq<char>, c: char) -> int
    decreases s.len(),
{
    if s.len() == 0 {
        0
    } else if s[0] == c {
        0
    } else {
        1 + spec_find(s.skip(1), c)
    }
}

/// What the first-occurrence index satisfies: it is in range, nothing before
/// it is `c`, and it lands on `c` unless `c` is absent.
pub proof fn lemma_find_props(s: Seq<char>, c: char)
    ensures
        0 <= spec_find(s, c) <= s.len(),
        forall|i: int| 0 <= i < spec_find(s, c) ==> s[i] != c,
        spec_find(s, c) < s.len() ==> s[spec_find(s, c)] == c,
    decreases s.len(),
{
    if s.len() == 0 {
    } else if s[0] == c {
    } else {
        lemma_find_props(s.skip(1), c);
        assert forall|i: int| 0 <= i < spec_find(s, c) implies s[i] != c by {
            if i > 0 {
                assert(s.skip(1)[i - 1] != c);
            }
        }
    }
}

/// Any index with the three properties of `lemma_find_props` is the
/// first-occurrence index.
pub proof fn lemma_find_unique(s: Seq<char>, c: char, k: int)
    requires
        0 <= k <= s.len(),
        forall|i: int| 0 <= i < k ==> s[i] != c,
        k < s.len() ==> s[k] == c,
    ensures
        spec_find(s, c) == k,
{
    lemma_find_props(s, c);
    let f = spec_find(s, c);
    if f < k {
        assert(s[f] != c);
        assert(s[f] == c);
    } else if k < f {
        assert(s[k] != c);
        assert(s[k] == c);
    }
}

/// Searching a concatenation whose first part is free of `c` skips that part.
pub proof fn lemma_find_over_concat(a: Seq<char>, b: Seq<char>, c: char)
    requires
        forall|i: int| 0 <= i < a.len() ==> a[i] != c,
    ensures
        spec_find(a + b, c) == a.len() + spec_find(b, c),
    decreases a.len(),
{
    if a.len() == 0 {
        assert(a + b =~= b);
    } else {
        assert((a + b)[0] == a[0]);
        assert((a + b).skip(1) =~= a.skip(1) + b);
        lemma_find_over_concat(a.skip(1), b, c);
    }
}

/// Scans `s` from index `from` for the character `c`; returns the index of
/// the first occurrence at or after `from`, or the length of `s` when there
/// is none.
pub fn find_char(s: &str, from: usize, c: char) -> (r: usize)
    requires
        from <= s@.len(),
    ensures
        r - from == spec_find(s@.skip(from as int), c),
        from <= r <= s@.len(),
{
    let n = s.unicode_len();
    let mut j = from;
    while j < n
        invariant
            from <= j <= n,
            n == s@.len(),
            forall|i: int| from <= i < j ==> s@[i] != c,
        decreases n - j,
    {
        if s.get_char(j) == c {
            proof {
                let t = s@.skip(from as int);
                assert forall|i: int| 0 <= i < j - from implies t[i] != c by {
                    assert(t[i] == s@[from + i]);
                }
                assert(t[j - from] == c);
                lemma_find_unique(t, c, j - from);
            }
            return j;
        }
        j += 1;
    }
    proof {
        let t = s@.skip(from as int);
        assert forall|i: int| 0 <= i < t.len() implies t[i] != c by {
            assert(t[i] == s@[from + i]);
        }
        lemma_find_unique(t, c, t.len() as int);
    }
    n
}

} // verus!
