//! Verified string helpers shared by the route-table components.

use vstd::prelude::*;

verus! {

/// The largest index below `i` at which `s` holds `'/'`, or -1 if none.
pub open spec fn last_slash_below(s: Seq<char>, i: int) -> int
    decreases i,
{
    if i <= 0 {
        -1
    } else if s[i - 1] == '/' {
        i - 1
    } else {
        last_slash_below(s, i - 1)
    }
}

/// The index of the last `'/'` in `s`, or -1 if `s` has none.
pub open spec fn last_slash(s: Seq<char>) -> int {
    last_slash_below(s, s.len() as int)
}

/// The final path segment of `s`: everything after the last `'/'`, or all of
/// `s` when it has no `'/'`.
pub open spec fn last_segment(s: Seq<char>) -> Seq<char> {
    s.subrange(last_slash(s) + 1, s.len() as int)
}

/// What `last_slash_below` returns: -1 and no slash below `i`, or the
/// greatest index of a slash below `i`.
pub proof fn lemma_last_slash_below(s: Seq<char>, i: int)
    requires
        i <= s.len(),
    ensures
        last_slash_below(s, i) >= -1,
        last_slash_below(s, i) < i || i <= 0,
        last_slash_below(s, i) >= 0 ==> s[last_slash_below(s, i)] == '/',
        forall|k: int| last_slash_below(s, i) < k < i ==> s[k] != '/',
    decreases i,
{
    if i > 0 && s[i - 1] != '/' {
        lemma_last_slash_below(s, i - 1);
    }
}

/// `last_slash` is the unique slash index that no later slash follows.
pub proof fn lemma_last_slash_unique(s: Seq<char>, m: int)
    requires
        -1 <= m < s.len(),
        m >= 0 ==> s[m] == '/',
        forall|k: int| m < k < s.len() ==> s[k] != '/',
    ensures
        last_slash(s) == m,
{
    lemma_last_slash_below(s, s.len() as int);
    let l = last_slash_below(s, s.len() as int);
    if l < m {
        assert(s[m] != '/');
    } else if l > m {
        assert(s[l] == '/');
        assert(s[l] != '/');
    }
}

/// Compares two string slices character by character.
pub fn str_eq(a: &str, b: &str) -> (r: bool)
    ensures
        r == (a@ == b@),
{
    let na = a.unicode_len();
    let nb = b.unicode_len();
    if na != nb {
        return false;
    }
    let mut i: usize = 0;
    while i < na
        invariant
            i <= na == a@.len(),
            na == nb == b@.len(),
            forall|j: int| 0 <= j < i ==> a@[j] == b@[j],
        decreases na - i,
    {
        if a.get_char(i) != b.get_char(i) {
            return false;
        }
        i = i + 1;
    }
    proof {
        assert(a@ =~= b@);
    }
    true
}

/// Whether the first `k` characters of `s` equal the first `k` of `p`.
pub fn str_prefix_eq(s: &str, p: &str, k: usize) -> (r: bool)
    requires
        k <= p@.len(),
    ensures
        r == (s@.len() >= k && s@.subrange(0, k as int) == p@.subrange(0, k as int)),
{
    let n = s.unicode_len();
    if n < k {
        return false;
    }
    let mut i: usize = 0;
    while i < k
        invariant
            i <= k <= p@.len(),
            k <= n == s@.len(),
            forall|j: int| 0 <= j < i ==> s@[j] == p@[j],
        decreases k - i,
    {
        if s.get_char(i) != p.get_char(i) {
            proof {
                assert(s@.subrange(0, k as int)[i as int] != p@.subrange(0, k as int)[i as int]);
            }
            return false;
        }
        i = i + 1;
    }
    proof {
        assert(s@.subrange(0, k as int) =~= p@.subrange(0, k as int));
    }
    true
}

/// The final path segment of `s`.
pub fn last_segment_of(s: &str) -> (r: &str)
    ensures
        r@ == last_segment(s@),
{
    let n = s.unicode_len();
    let mut i: usize = 0;
    let mut found: bool = false;
    let mut m: usize = 0;
    while i < n
        invariant
            i <= n == s@.len(),
            found ==> m < i && s@[m as int] == '/',
            found ==> forall|k: int| m < k < i ==> s@[k] != '/',
            !found ==> forall|k: int| 0 <= k < i ==> s@[k] != '/',
        decreases n - i,
    {
        if s.get_char(i) == '/' {
            found = true;
            m = i;
        }
        i = i + 1;
    }
    if found {
        proof {
            lemma_last_slash_unique(s@, m as int);
        }
        s.substring_char(m + 1, n)
    } else {
        proof {
            lemma_last_slash_unique(s@, -1);
            assert(last_segment(s@) =~= s@);
        }
        s
    }
}

} // verus!
