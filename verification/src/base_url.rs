//! Resolution of the externally visible base URL.
//!
//! Computed once at boot: when a sub-path is configured (a deployment behind
//! a reverse proxy or under a sub-path), the base URL is the external origin
//! joined with the sub-path, trimmed of leading and trailing slashes so that
//! no slash is duplicated; otherwise it is the origin unchanged. Every
//! self-referential link rendered afterwards consults this one value; it is
//! never recomputed at request time.

use vstd::prelude::*;

verus! {

/// `s` without its leading slashes.
pub open spec fn trim_leading(s: Seq<char>) -> Seq<char>
    decreases s.len(),
{
    if s.len() > 0 && s[0] == '/' {
        trim_leading(s.drop_first())
    } else {
        s
    }
}

/// `s` without its trailing slashes.
pub open spec fn trim_trailing(s: Seq<char>) -> Seq<char>
    decreases s.len(),
{
    if s.len() > 0 && s.last() == '/' {
        trim_trailing(s.drop_last())
    } else {
        s
    }
}

/// `s` without leading or trailing slashes.
pub open spec fn trim_slashes(s: Seq<char>) -> Seq<char> {
    trim_trailing(trim_leading(s))
}

/// The resolved base URL: the origin joined with the trimmed sub-path when
/// one is configured, the origin alone otherwise.
pub open spec fn spec_base_url(origin: Seq<char>, sub_path: Option<Seq<char>>) -> Seq<char> {
    match sub_path {
        Option::None => origin,
        Option::Some(p) => origin + seq!['/'] + trim_slashes(p),
    }
}

/// `trim_leading` drops exactly the leading run of slashes.
pub proof fn lemma_trim_leading(s: Seq<char>, k: int)
    requires
        0 <= k <= s.len(),
        forall|j: int| 0 <= j < k ==> s[j] == '/',
        k < s.len() ==> s[k] != '/',
    ensures
        trim_leading(s) == s.subrange(k, s.len() as int),
    decreases s.len(),
{
    if k == 0 {
        assert(trim_leading(s) =~= s.subrange(0, s.len() as int));
    } else {
        assert(s[0] == '/');
        let t = s.drop_first();
        assert forall|j: int| 0 <= j < k - 1 implies t[j] == '/' by {
            assert(t[j] == s[j + 1]);
        }
        lemma_trim_leading(t, k - 1);
        assert(t.subrange(k - 1, t.len() as int) =~= s.subrange(k, s.len() as int));
    }
}

/// `trim_trailing` drops exactly the trailing run of slashes.
pub proof fn lemma_trim_trailing(s: Seq<char>, e: int)
    requires
        0 <= e <= s.len(),
        forall|j: int| e <= j < s.len() ==> s[j] == '/',
        e > 0 ==> s[e - 1] != '/',
    ensures
        trim_trailing(s) == s.subrange(0, e),
    decreases s.len(),
{
    if e == s.len() {
        if s.len() > 0 && s.last() == '/' {
            assert(s[e - 1] == '/');
        }
        assert(trim_trailing(s) =~= s.subrange(0, e));
    } else {
        assert(s.last() == '/');
        let t = s.drop_last();
        lemma_trim_trailing(t, e);
        assert(t.subrange(0, e) =~= s.subrange(0, e));
    }
}

/// Resolves the base URL from the external origin and the optionally
/// configured sub-path.
pub fn resolve_base_url(external_origin: &str, configured_sub_path: Option<&str>) -> (r: String)
    ensures
        r@ == spec_base_url(
            external_origin@,
            match configured_sub_path {
                Option::None => Option::None,
                Option::Some(p) => Option::Some(p@),
            },
        ),
{
    match configured_sub_path {
        Option::None => String::from_str(external_origin),
        Option::Some(p) => {
            let n = p.unicode_len();
            let mut start: usize = 0;
            while start < n && p.get_char(start) == '/'
                invariant
                    start <= n == p@.len(),
                    forall|j: int| 0 <= j < start ==> p@[j] == '/',
                decreases n - start,
            {
                start = start + 1;
            }
            let mut end = n;
            while end > start && p.get_char(end - 1) == '/'
                invariant
                    start <= end <= n == p@.len(),
                    forall|j: int| end <= j < n ==> p@[j] == '/',
                decreases end,
            {
                end = end - 1;
            }
            let trimmed = p.substring_char(start, end);
            proof {
                lemma_trim_leading(p@, start as int);
                let mid = p@.subrange(start as int, p@.len() as int);
                assert forall|j: int| end - start <= j < mid.len() implies mid[j] == '/' by {
                    assert(mid[j] == p@[j + start]);
                }
                if end > start {
                    assert(mid[end - start - 1] == p@[end - 1]);
                }
                lemma_trim_trailing(mid, end - start);
                assert(mid.subrange(0, end - start) =~= p@.subrange(start as int, end as int));
                assert(trim_slashes(p@) == trimmed@);
            }
            let mut r = String::from_str(external_origin);
            r.append("/");
            r.append(trimmed);
            proof {
                reveal_strlit("/");
                assert(r@ =~= external_origin@ + seq!['/'] + trim_slashes(p@));
            }
            r
        },
    }
}

} // verus!
