//! Small executable helpers over byte strings, with exact sequence-level
//! specifications. Everything in the crate models text as `Seq<u8>`.

use vstd::prelude::*;

verus! {

/// The views of a sequence of byte vectors, element by element.
pub open spec fn views_of(s: Seq<Vec<u8>>) -> Seq<Seq<u8>> {
    Seq::new(s.len(), |i: int| s[i]@)
}

/// `pre` is a prefix of `s`.
pub open spec fn is_prefix(pre: Seq<u8>, s: Seq<u8>) -> bool {
    pre.len() <= s.len() && s.subrange(0, pre.len() as int) == pre
}

/// `suf` is a suffix of `s`.
pub open spec fn is_suffix(suf: Seq<u8>, s: Seq<u8>) -> bool {
    suf.len() <= s.len() && s.subrange(s.len() - suf.len(), s.len() as int) == suf
}

/// `pat` occurs in `s` starting at index `i`.
pub open spec fn matches_at(s: Seq<u8>, i: int, pat: Seq<u8>) -> bool {
    0 <= i && i + pat.len() <= s.len() && s.subrange(i, i + pat.len()) == pat
}

/// `pat` occurs somewhere in `s`.
pub open spec fn contains_seq(s: Seq<u8>, pat: Seq<u8>) -> bool {
    exists|i: int| matches_at(s, i, pat)
}

/// The least index `k` in `j .. s.len()` with `s[k] == b1 || s[k] == b2`,
/// or `s.len()` when no such index exists.
pub open spec fn find2(s: Seq<u8>, j: int, b1: u8, b2: u8) -> int
    decreases s.len() - j when 0 <= j <= s.len()
{
    if j >= s.len() {
        j
    } else if s[j] == b1 || s[j] == b2 {
        j
    } else {
        find2(s, j + 1, b1, b2)
    }
}

/// The greatest index holding `b`, or `-1` when `b` does not occur.
pub open spec fn rfind(s: Seq<u8>, b: u8) -> int
    decreases s.len()
{
    if s.len() == 0 {
        -1
    } else if s[s.len() - 1] == b {
        s.len() - 1
    } else {
        rfind(s.drop_last(), b)
    }
}

pub proof fn lemma_find2_bounds(s: Seq<u8>, j: int, b1: u8, b2: u8)
    requires
        0 <= j <= s.len(),
    ensures
        j <= find2(s, j, b1, b2) <= s.len(),
        find2(s, j, b1, b2) < s.len() ==> (s[find2(s, j, b1, b2)] == b1 || s[find2(s, j, b1, b2)] == b2),
        forall|k: int| j <= k < find2(s, j, b1, b2) ==> s[k] != b1 && s[k] != b2,
    decreases s.len() - j,
{
    if j < s.len() && s[j] != b1 && s[j] != b2 {
        lemma_find2_bounds(s, j + 1, b1, b2);
    }
}

pub proof fn lemma_rfind_bounds(s: Seq<u8>, b: u8)
    ensures
        -1 <= rfind(s, b) < s.len(),
        rfind(s, b) >= 0 ==> s[rfind(s, b)] == b,
        forall|k: int| rfind(s, b) < k < s.len() ==> s[k] != b,
    decreases s.len(),
{
    if s.len() > 0 && s[s.len() - 1] != b {
        lemma_rfind_bounds(s.drop_last(), b);
        assert forall|k: int| rfind(s, b) < k < s.len() implies s[k] != b by {
            if k < s.len() - 1 {
                assert(s.drop_last()[k] == s[k]);
            }
        }
    }
}

pub fn starts_with(s: &Vec<u8>, pre: &Vec<u8>) -> (r: bool)
    ensures
        r == is_prefix(pre@, s@),
{
    if pre.len() > s.len() {
        return false;
    }
    let mut i: usize = 0;
    while i < pre.len()
        invariant
            i <= pre.len() <= s.len(),
            forall|j: int| 0 <= j < i ==> s@[j] == pre@[j],
        decreases pre.len() - i,
    {
        if s[i] != pre[i] {
            assert(s@.subrange(0, pre@.len() as int)[i as int] == s@[i as int]);
            return false;
        }
        i += 1;
    }
    proof {
        assert(s@.subrange(0, pre@.len() as int) =~= pre@);
    }
    true
}

/// Whether `pat` occurs at index `i` of `s`; `i` may lie anywhere.
pub fn match_at(s: &Vec<u8>, i: usize, pat: &Vec<u8>) -> (r: bool)
    ensures
        r == matches_at(s@, i as int, pat@),
{
    if pat.len() > s.len() || i > s.len() - pat.len() {
        return false;
    }
    let mut k: usize = 0;
    while k < pat.len()
        invariant
            i + pat.len() <= s.len(),
            k <= pat.len(),
            forall|j: int| 0 <= j < k ==> s@[i + j] == pat@[j],
        decreases pat.len() - k,
    {
        if s[i + k] != pat[k] {
            assert(s@.subrange(i as int, i + pat@.len())[k as int] == s@[i + k]);
            return false;
        }
        k += 1;
    }
    proof {
        assert(s@.subrange(i as int, i + pat@.len()) =~= pat@);
    }
    true
}

pub fn contains_bytes(s: &Vec<u8>, pat: &Vec<u8>) -> (r: bool)
    ensures
        r == contains_seq(s@, pat@),
{
    if pat.len() == 0 {
        assert(matches_at(s@, 0, pat@)) by {
            assert(s@.subrange(0, 0) =~= pat@);
        }
        return true;
    }
    if pat.len() > s.len() {
        assert(forall|i: int| !matches_at(s@, i, pat@));
        return false;
    }
    let mut i: usize = 0;
    let n: usize = s.len();
    let last: usize = n - pat.len();
    while i <= last
        invariant
            pat@.len() >= 1,
            n == s@.len(),
            last == s@.len() - pat@.len(),
            last < n,
            i <= last + 1,
            forall|j: int| 0 <= j < i ==> !matches_at(s@, j, pat@),
        decreases last + 1 - i,
    {
        if match_at(s, i, pat) {
            return true;
        }
        i += 1;
    }
    assert(forall|j: int| !matches_at(s@, j, pat@));
    false
}

pub fn eq_bytes(a: &Vec<u8>, b: &Vec<u8>) -> (r: bool)
    ensures
        r == (a@ == b@),
{
    if a.len() != b.len() {
        return false;
    }
    let mut i: usize = 0;
    while i < a.len()
        invariant
            a@.len() == b@.len(),
            i <= a@.len(),
            forall|j: int| 0 <= j < i ==> a@[j] == b@[j],
        decreases a.len() - i,
    {
        if a[i] != b[i] {
            return false;
        }
        i += 1;
    }
    proof {
        assert(a@ =~= b@);
    }
    true
}

pub fn copy_bytes(s: &Vec<u8>) -> (r: Vec<u8>)
    ensures
        r@ == s@,
{
    copy_range(s, 0, s.len())
}

pub fn copy_range(s: &Vec<u8>, a: usize, b: usize) -> (r: Vec<u8>)
    requires
        a <= b <= s@.len(),
    ensures
        r@ == s@.subrange(a as int, b as int),
{
    let mut out: Vec<u8> = Vec::new();
    proof {
        assert(out@ =~= s@.subrange(a as int, a as int));
    }
    let mut i: usize = a;
    while i < b
        invariant
            a <= i <= b <= s@.len(),
            out@ == s@.subrange(a as int, i as int),
        decreases b - i,
    {
        out.push(s[i]);
        proof {
            assert(out@ =~= s@.subrange(a as int, i + 1));
        }
        i += 1;
    }
    out
}

/// Appends `s[a .. b]` to `out`.
pub fn append_range(out: &mut Vec<u8>, s: &Vec<u8>, a: usize, b: usize)
    requires
        a <= b <= s@.len(),
    ensures
        final(out)@ == old(out)@ + s@.subrange(a as int, b as int),
{
    proof {
        assert(out@ =~= old(out)@ + s@.subrange(a as int, a as int));
    }
    let mut i: usize = a;
    while i < b
        invariant
            a <= i <= b <= s@.len(),
            out@ == old(out)@ + s@.subrange(a as int, i as int),
        decreases b - i,
    {
        out.push(s[i]);
        proof {
            assert(out@ =~= old(out)@ + s@.subrange(a as int, i + 1));
        }
        i += 1;
    }
}

pub fn find2_exec(s: &Vec<u8>, j: usize, b1: u8, b2: u8) -> (r: usize)
    requires
        j <= s@.len(),
    ensures
        r == find2(s@, j as int, b1, b2),
{
    let mut i: usize = j;
    while i < s.len()
        invariant
            j <= i <= s@.len(),
            find2(s@, j as int, b1, b2) == find2(s@, i as int, b1, b2),
        decreases s.len() - i,
    {
        if s[i] == b1 || s[i] == b2 {
            return i;
        }
        i += 1;
    }
    i
}

pub fn rfind_exec(s: &Vec<u8>, b: u8) -> (r: Option<usize>)
    ensures
        match r {
            Some(k) => rfind(s@, b) == k as int,
            None => rfind(s@, b) == -1,
        },
{
    proof {
        lemma_rfind_bounds(s@, b);
    }
    let mut i: usize = s.len();
    while i > 0
        invariant
            i <= s@.len(),
            forall|k: int| i <= k < s@.len() ==> s@[k] != b,
            -1 <= rfind(s@, b) < s@.len(),
            rfind(s@, b) >= 0 ==> s@[rfind(s@, b)] == b,
            forall|k: int| rfind(s@, b) < k < s@.len() ==> s@[k] != b,
        decreases i,
    {
        i -= 1;
        if s[i] == b {
            proof {
                if rfind(s@, b) < i as int {
                    assert(s@[i as int] != b);
                }
                if rfind(s@, b) > i as int {
                    assert(s@[rfind(s@, b)] != b);
                }
            }
            return Some(i);
        }
    }
    proof {
        if rfind(s@, b) >= 0 {
            assert(s@[rfind(s@, b)] != b);
        }
    }
    None
}

} // verus!
