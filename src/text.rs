//! Character-level string operations used by the policy and destination logic.

use vstd::prelude::*;
use vstd::string::*;

verus! {

/// `pat` occurs in `s` starting at position `i`.
pub open spec fn occurs_at(s: Seq<char>, pat: Seq<char>, i: int) -> bool {
    0 <= i && i + pat.len() <= s.len() && s.subrange(i, i + pat.len()) == pat
}

/// `pat` occurs somewhere in `s`.
pub open spec fn contains_seq(s: Seq<char>, pat: Seq<char>) -> bool {
    exists|i: int| occurs_at(s, pat, i)
}

/// Exact string equality.
pub fn str_eq(a: &str, b: &str) -> (r: bool)
    ensures
        r == (a@ == b@),
{
    let n = a.unicode_len();
    if n != b.unicode_len() {
        return false;
    }
    let mut i: usize = 0;
    while i < n
        invariant
            n == a@.len(),
            n == b@.len(),
            i <= n,
            forall|j: int| 0 <= j < i ==> a@[j] == b@[j],
        decreases n - i,
    {
        if a.get_char(i) != b.get_char(i) {
            return false;
        }
        i = i + 1;
    }
    assert(a@ =~= b@);
    true
}


/// The code point of `c`, with ASCII upper-case letters folded to lower case.
pub open spec fn ascii_fold(c: char) -> int {
    if 'A' <= c && c <= 'Z' {
        c as int + 32
    } else {
        c as int
    }
}

/// `a` and `b` are equal up to ASCII case.
pub open spec fn eq_ignore_ascii_case_seq(a: Seq<char>, b: Seq<char>) -> bool {
    a.len() == b.len() && forall|i: int| 0 <= i < a.len() ==> ascii_fold(a[i]) == ascii_fold(b[i])
}

/// Equality up to ASCII case: letters `A`..=`Z` match `a`..=`z`, every other
/// character matches only itself.
pub fn eq_ignore_ascii_case(a: &str, b: &str) -> (r: bool)
    ensures
        r == eq_ignore_ascii_case_seq(a@, b@),
{
    let n = a.unicode_len();
    if n != b.unicode_len() {
        return false;
    }
    let mut i: usize = 0;
    while i < n
        invariant
            n == a@.len(),
            n == b@.len(),
            i <= n,
            forall|j: int| 0 <= j < i ==> ascii_fold(a@[j]) == ascii_fold(b@[j]),
        decreases n - i,
    {
        let ca = a.get_char(i);
        let cb = b.get_char(i);
        let fa: u32 = if 'A' <= ca && ca <= 'Z' {
            ca as u32 + 32
        } else {
            ca as u32
        };
        let fb: u32 = if 'A' <= cb && cb <= 'Z' {
            cb as u32 + 32
        } else {
            cb as u32
        };
        if fa != fb {
            return false;
        }
        i = i + 1;
    }
    true
}

/// Whether `pat` occurs in `s` at character position `i`.
fn occurs_at_exec(s: &str, pat: &str, i: usize) -> (r: bool)
    requires
        i + pat@.len() <= s@.len(),
    ensures
        r == occurs_at(s@, pat@, i as int),
{
    let n = s.unicode_len();
    let m = pat.unicode_len();
    let mut j: usize = 0;
    while j < m
        invariant
            n == s@.len(),
            m == pat@.len(),
            i + m <= s@.len(),
            j <= m,
            forall|k: int| 0 <= k < j ==> s@[i + k] == pat@[k],
        decreases m - j,
    {
        if s.get_char(i + j) != pat.get_char(j) {
            assert(s@.subrange(i as int, i + m)[j as int] != pat@[j as int]);
            return false;
        }
        j = j + 1;
    }
    assert(s@.subrange(i as int, i + m) =~= pat@);
    true
}

/// Whether `pat` occurs anywhere in `s`.
pub fn contains_str(s: &str, pat: &str) -> (r: bool)
    ensures
        r == contains_seq(s@, pat@),
{
    let n = s.unicode_len();
    let m = pat.unicode_len();
    if m > n {
        return false;
    }
    if m == 0 {
        assert(s@.subrange(0, 0) =~= pat@);
        assert(occurs_at(s@, pat@, 0));
        return true;
    }
    let mut i: usize = 0;
    while i <= n - m
        invariant
            n == s@.len(),
            m == pat@.len(),
            0 < m <= n,
            i <= n - m + 1,
            forall|k: int| 0 <= k < i ==> !occurs_at(s@, pat@, k),
        decreases n - i,
    {
        if occurs_at_exec(s, pat, i) {
            return true;
        }
        i = i + 1;
    }
    proof {
        true_if_never(s@, pat@, i as int);
    }
    false
}

proof fn true_if_never(s: Seq<char>, pat: Seq<char>, i: int)
    requires
        i + pat.len() > s.len(),
        forall|k: int| 0 <= k < i ==> !occurs_at(s, pat, k),
    ensures
        !contains_seq(s, pat),
{
}

/// `s` with every occurrence of `pat` replaced by `with`, scanning from the
/// left and never letting two replaced occurrences overlap.
pub open spec fn replace_seq(s: Seq<char>, pat: Seq<char>, with: Seq<char>) -> Seq<char>
    decreases s.len(),
{
    if pat.len() == 0 || s.len() < pat.len() {
        s
    } else if s.subrange(0, pat.len() as int) == pat {
        with + replace_seq(s.subrange(pat.len() as int, s.len() as int), pat, with)
    } else {
        seq![s[0]] + replace_seq(s.subrange(1, s.len() as int), pat, with)
    }
}

proof fn lemma_replace_skip(s: Seq<char>, pat: Seq<char>, with: Seq<char>)
    requires
        s.len() > 0,
        pat.len() > 0,
        !(pat.len() <= s.len() && s.subrange(0, pat.len() as int) == pat),
    ensures
        replace_seq(s, pat, with) == seq![s[0]] + replace_seq(s.subrange(1, s.len() as int), pat, with),
{
    if s.len() < pat.len() {
        let t = s.subrange(1, s.len() as int);
        assert(replace_seq(t, pat, with) == t);
        assert(seq![s[0]] + t =~= s);
    }
}

/// `s` with every occurrence of the non-empty `pat` replaced by `with`.
pub(crate) fn replace_str(s: &str, pat: &str, with: &str) -> (r: String)
    requires
        pat@.len() > 0,
    ensures
        r@ == replace_seq(s@, pat@, with@),
{
    let n = s.unicode_len();
    let m = pat.unicode_len();
    let mut out = String::new();
    let mut seg: usize = 0;
    let mut i: usize = 0;
    assert(s@.subrange(0, n as int) =~= s@);
    assert(out@ + s@.subrange(0, 0) =~= Seq::<char>::empty());
    while i < n
        invariant
            n == s@.len(),
            m == pat@.len(),
            m > 0,
            seg <= i <= n,
            out@ + s@.subrange(seg as int, i as int) + replace_seq(
                s@.subrange(i as int, n as int),
                pat@,
                with@,
            ) == replace_seq(s@, pat@, with@),
        decreases n - i,
    {
        let ghost rest = s@.subrange(i as int, n as int);
        if m <= n - i && occurs_at_exec(s, pat, i) {
            assert(rest.subrange(0, m as int) =~= pat@);
            assert(rest.subrange(m as int, rest.len() as int) =~= s@.subrange(i + m, n as int));
            let ghost before = out@;
            let piece = s.substring_char(seg, i);
            out.append(piece);
            out.append(with);
            assert(out@ + s@.subrange(i + m, i + m) + replace_seq(
                s@.subrange(i + m, n as int),
                pat@,
                with@,
            ) =~= before + s@.subrange(seg as int, i as int) + replace_seq(rest, pat@, with@));
            i = i + m;
            seg = i;
        } else {
            assert(!(m <= rest.len() && rest.subrange(0, m as int) == pat@)) by {
                if m <= rest.len() && rest.subrange(0, m as int) == pat@ {
                    assert(s@.subrange(i as int, i + m) =~= rest.subrange(0, m as int));
                }
            }
            proof {
                lemma_replace_skip(rest, pat@, with@);
            }
            assert(rest.subrange(1, rest.len() as int) =~= s@.subrange(i + 1, n as int));
            assert(out@ + s@.subrange(seg as int, i + 1) + replace_seq(
                s@.subrange(i + 1, n as int),
                pat@,
                with@,
            ) =~= out@ + s@.subrange(seg as int, i as int) + replace_seq(rest, pat@, with@));
            i = i + 1;
        }
    }
    let tail = s.substring_char(seg, n);
    let ghost before = out@;
    out.append(tail);
    assert(replace_seq(s@.subrange(n as int, n as int), pat@, with@) =~= Seq::<char>::empty());
    assert(out@ =~= before + s@.subrange(seg as int, n as int) + replace_seq(
        s@.subrange(n as int, n as int),
        pat@,
        with@,
    ));
    out
}

} // verus!
