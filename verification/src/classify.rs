//! Cache-policy classification of asset file names.
//!
//! Build tooling embeds a content hash into the names of files it wants
//! cached for a long time: such a name carries the marker `-dxh` followed by
//! a run of hexadecimal digits, up to the extension dot. A file whose name
//! ends this way never changes content under that name, so its responses may
//! be cached forever; every other file must stay revalidatable.

use vstd::prelude::*;

verus! {

/// The marker that precedes an embedded content hash: the characters `-dxh`.
pub open spec fn marker_chars() -> Seq<char> {
    seq!['-', 'd', 'x', 'h']
}

/// True when the marker occurs in `s` starting at index `i`.
pub open spec fn marker_at(s: Seq<char>, i: int) -> bool {
    &&& 0 <= i
    &&& i + 4 <= s.len()
    &&& s[i] == '-'
    &&& s[i + 1] == 'd'
    &&& s[i + 2] == 'x'
    &&& s[i + 3] == 'h'
}

/// The largest index below `i` at which the marker occurs in `s`, or -1 if
/// the marker does not occur below `i`.
pub open spec fn last_marker_below(s: Seq<char>, i: int) -> int
    decreases i,
{
    if i <= 0 {
        -1
    } else if marker_at(s, i - 1) {
        i - 1
    } else {
        last_marker_below(s, i - 1)
    }
}

/// The index of the last occurrence of the marker in `s`, or -1 if none.
pub open spec fn last_marker(s: Seq<char>) -> int {
    last_marker_below(s, s.len() as int)
}

/// The first index at or after `from` that holds `'.'`, or the length of `s`
/// when no dot follows.
pub open spec fn run_end(s: Seq<char>, from: int) -> int
    decreases s.len() - from,
{
    if from < 0 || from >= s.len() {
        s.len() as int
    } else if s[from] == '.' {
        from
    } else {
        run_end(s, from + 1)
    }
}

/// Hexadecimal digit characters, in either case.
pub open spec fn is_hex_digit(c: char) -> bool {
    ||| ('0' as u32) <= (c as u32) <= ('9' as u32)
    ||| ('a' as u32) <= (c as u32) <= ('f' as u32)
    ||| ('A' as u32) <= (c as u32) <= ('F' as u32)
}

/// A file name is classified immutable exactly when it contains the marker
/// and the text after the marker's last occurrence, up to the extension dot
/// (or the end of the name), is a non-empty run of hexadecimal digits.
pub open spec fn is_immutable_name(s: Seq<char>) -> bool {
    let m = last_marker(s);
    &&& m >= 0
    &&& run_end(s, m + 4) > m + 4
    &&& forall|k: int| m + 4 <= k < run_end(s, m + 4) ==> is_hex_digit(#[trigger] s[k])
}

/// What `last_marker_below` returns: either -1 and no occurrence below `i`,
/// or the greatest index of an occurrence below `i`.
pub proof fn lemma_last_marker_below(s: Seq<char>, i: int)
    ensures
        last_marker_below(s, i) >= -1,
        last_marker_below(s, i) == -1 ==> forall|k: int|
            #![trigger marker_at(s, k)]
            0 <= k < i ==> !marker_at(s, k),
        last_marker_below(s, i) >= 0 ==> marker_at(s, last_marker_below(s, i)),
        last_marker_below(s, i) >= 0 ==> last_marker_below(s, i) < i,
        last_marker_below(s, i) >= 0 ==> forall|k: int|
            #![trigger marker_at(s, k)]
            last_marker_below(s, i) < k < i ==> !marker_at(s, k),
    decreases i,
{
    if i > 0 && !marker_at(s, i - 1) {
        lemma_last_marker_below(s, i - 1);
    }
}

/// `last_marker` is the unique occurrence index that no later occurrence
/// follows.
pub proof fn lemma_last_marker_unique(s: Seq<char>, m: int)
    requires
        marker_at(s, m),
        forall|k: int| m < k < s.len() ==> !#[trigger] marker_at(s, k),
    ensures
        last_marker(s) == m,
{
    lemma_last_marker_below(s, s.len() as int);
    let l = last_marker_below(s, s.len() as int);
    if l == -1 {
        assert(!marker_at(s, m));
    } else if l < m {
        assert(!marker_at(s, m));
    } else if l > m {
        assert(marker_at(s, l));
        assert(!marker_at(s, l));
    }
}

/// Characterisation of `run_end`: no dot strictly before it, and a dot at it
/// unless it is the end of the string.
pub proof fn lemma_run_end(s: Seq<char>, from: int)
    requires
        0 <= from <= s.len(),
    ensures
        from <= run_end(s, from) <= s.len(),
        forall|j: int| from <= j < run_end(s, from) ==> s[j] != '.',
        run_end(s, from) < s.len() ==> s[run_end(s, from)] == '.',
    decreases s.len() - from,
{
    if from < s.len() && s[from] != '.' {
        lemma_run_end(s, from + 1);
    }
}

/// `run_end` is the unique dot-free frontier.
pub proof fn lemma_run_end_unique(s: Seq<char>, from: int, e: int)
    requires
        0 <= from <= e <= s.len(),
        forall|j: int| from <= j < e ==> s[j] != '.',
        e < s.len() ==> s[e] == '.',
    ensures
        run_end(s, from) == e,
{
    lemma_run_end(s, from);
}

/// Recognises a hexadecimal digit character.
pub fn hex_digit(c: char) -> (r: bool)
    ensures
        r == is_hex_digit(c),
{
    let u = c as u32;
    (48 <= u && u <= 57) || (97 <= u && u <= 102) || (65 <= u && u <= 70)
}

/// Classifies a file name by its cache policy: true means the name embeds a
/// content hash after the last occurrence of the marker `-dxh` (the file may
/// be cached forever), false means the file must stay revalidatable.
pub fn file_name_looks_immutable(file_name: &str) -> (r: bool)
    ensures
        r == is_immutable_name(file_name@),
{
    let ghost s = file_name@;
    let n = file_name.unicode_len();
    let mut found: bool = false;
    let mut m: usize = 0;
    if n >= 4 {
        let mut i: usize = 0;
        while i <= n - 4
            invariant
                4 <= n == s.len(),
                i <= n - 3,
                found ==> marker_at(s, m as int) && (m as int) < i,
                found ==> forall|k: int| m < k < i ==> !marker_at(s, k),
                !found ==> forall|k: int| 0 <= k < i ==> !marker_at(s, k),
                s == file_name@,
            decreases n - i,
        {
            let c0 = file_name.get_char(i);
            let c1 = file_name.get_char(i + 1);
            let c2 = file_name.get_char(i + 2);
            let c3 = file_name.get_char(i + 3);
            if c0 == '-' && c1 == 'd' && c2 == 'x' && c3 == 'h' {
                found = true;
                m = i;
            }
            i = i + 1;
        }
        assert(forall|k: int| m < k < s.len() ==> !marker_at(s, k));
    }
    if !found {
        proof {
            assert(forall|k: int| 0 <= k < s.len() ==> !marker_at(s, k));
            lemma_last_marker_below(s, s.len() as int);
            if last_marker(s) >= 0 {
                assert(marker_at(s, last_marker(s)));
            }
        }
        return false;
    }
    proof {
        lemma_last_marker_unique(s, m as int);
    }
    let start = m + 4;
    let mut k = start;
    let mut all_hex = true;
    while k < n && all_hex
        invariant
            start <= k <= n,
            n == s.len(),
            start == m + 4,
            m + 4 <= n,
            last_marker(s) == m as int,
            s == file_name@,
            all_hex ==> forall|j: int| start <= j < k ==> s[j] != '.',
            all_hex ==> forall|j: int| start <= j < k ==> is_hex_digit(#[trigger] s[j]),
            !all_hex ==> exists|j: int|
                start <= j < run_end(s, start as int) && !is_hex_digit(#[trigger] s[j]),
        decreases n - k,
    {
        let c = file_name.get_char(k);
        if c == '.' {
            proof {
                lemma_run_end_unique(s, start as int, k as int);
            }
            if k == start {
                // The run between the marker and the extension dot is empty.
                return false;
            }
            return true;
        }
        if !hex_digit(c) {
            proof {
                lemma_run_end(s, start as int);
                if run_end(s, start as int) <= k {
                    // A dot would have been found before index k.
                    assert(run_end(s, start as int) < s.len());
                    assert(false);
                }
                assert(start <= k < run_end(s, start as int) && !is_hex_digit(s[k as int]));
            }
            all_hex = false;
        }
        k = k + 1;
    }
    if all_hex {
        // No dot follows the marker: the run extends to the end of the name.
        proof {
            lemma_run_end_unique(s, start as int, n as int);
        }
        start < n
    } else {
        proof {
            lemma_run_end(s, start as int);
        }
        false
    }
}

/// A marker followed by a non-empty hexadecimal run and an extension is
/// classified immutable: for every name of the form
/// `<name>-dxh<hash>.<ext>` where `hash` is a non-empty run of hexadecimal
/// digits and the marker does not occur inside `ext`, the whole file name is
/// immutable.
pub proof fn lemma_hashed_name_immutable(name: Seq<char>, hash: Seq<char>, ext: Seq<char>)
    requires
        hash.len() > 0,
        forall|j: int| 0 <= j < hash.len() ==> is_hex_digit(#[trigger] hash[j]),
        forall|j: int| !#[trigger] marker_at(ext, j),
    ensures
        is_immutable_name(name + marker_chars() + hash + seq!['.'] + ext),
{
    let s = name + marker_chars() + hash + seq!['.'] + ext;
    let nl = name.len() as int;
    let hl = hash.len() as int;
    let dot = nl + 4 + hl;
    assert(s.len() == nl + 4 + hl + 1 + ext.len());
    assert(s[nl] == '-' && s[nl + 1] == 'd' && s[nl + 2] == 'x' && s[nl + 3] == 'h');
    assert(marker_at(s, nl));
    assert(forall|j: int| nl + 4 <= j < dot ==> s[j] == hash[j - (nl + 4)]);
    assert(s[dot] == '.');
    assert(forall|j: int| dot < j < s.len() ==> s[j] == ext[j - (dot + 1)]);
    assert forall|k: int| nl < k < s.len() implies !marker_at(s, k) by {
        if marker_at(s, k) {
            if k < nl + 4 {
                assert(s[k] == '-');
            } else if k < dot {
                assert(is_hex_digit(s[k]) && s[k] == '-');
            } else if k == dot {
                assert(s[k] == '-');
            } else {
                assert(k + 4 <= s.len());
                let e = k - (dot + 1);
                assert(ext[e] == s[k] && ext[e + 1] == s[k + 1] && ext[e + 2] == s[k + 2]
                    && ext[e + 3] == s[k + 3]);
                assert(marker_at(ext, e));
            }
        }
    }
    lemma_last_marker_unique(s, nl);
    assert forall|j: int| nl + 4 <= j < dot implies s[j] != '.' by {
        assert(is_hex_digit(s[j]));
    }
    lemma_run_end_unique(s, nl + 4, dot);
}

/// A name in which the marker never occurs is classified mutable.
pub proof fn lemma_unmarked_name_mutable(s: Seq<char>)
    requires
        forall|j: int| !#[trigger] marker_at(s, j),
    ensures
        !is_immutable_name(s),
{
    lemma_last_marker_below(s, s.len() as int);
    if last_marker(s) >= 0 {
        assert(marker_at(s, last_marker(s)));
    }
}

/// A non-hexadecimal character between the last marker occurrence and the
/// extension dot makes the name mutable.
pub proof fn lemma_non_hex_run_mutable(s: Seq<char>, j: int)
    requires
        last_marker(s) + 4 <= j < run_end(s, last_marker(s) + 4),
        !is_hex_digit(s[j]),
    ensures
        !is_immutable_name(s),
{
}

} // verus!
