//! The link rewriter: replaces every absolute `http://` or `https://`
//! reference inside an `href=` or `src=` attribute with the mirror-relative
//! reference of the same resource, leaving all other bytes unchanged. The
//! driver walks the stored tree and calls this once per HTML file.

use vstd::prelude::*;
use crate::bytes::is_prefix;
use crate::extract::{link_at, link_value, link_end, value_start, value_end, attr_len_at};
use crate::paths::{http_pref, https_pref, rel_ref_of};

verus! {

/// An absolute link starts at `i`: a quoted attribute value carrying an
/// `http://` or `https://` scheme.
pub open spec fn abs_at(s: Seq<u8>, i: int) -> bool {
    &&& link_at(s, i)
    &&& (is_prefix(http_pref(), link_value(s, i)) || is_prefix(https_pref(), link_value(s, i)))
}

/// The document from index `i` on, with every absolute link value replaced
/// by its mirror-relative reference in double quotes.
pub open spec fn rewrite_from(s: Seq<u8>, i: int) -> Seq<u8>
    decreases s.len() - i when 0 <= i <= s.len()
    via rewrite_from_decreases
{
    if i >= s.len() {
        Seq::empty()
    } else if abs_at(s, i) {
        s.subrange(i, i + attr_len_at(s, i)) + seq![34u8] + rel_ref_of(link_value(s, i))
            + seq![34u8] + rewrite_from(s, link_end(s, i))
    } else {
        seq![s[i]] + rewrite_from(s, i + 1)
    }
}

#[via_fn]
proof fn rewrite_from_decreases(s: Seq<u8>, i: int) {
    if 0 <= i && i < s.len() && abs_at(s, i) {
        crate::bytes::lemma_find2_bounds(s, value_start(s, i), 34u8, 39u8);
    }
}

/// One whole rewriting pass over a document.
pub open spec fn spec_rewrite(s: Seq<u8>) -> Seq<u8> {
    rewrite_from(s, 0)
}

/// No absolute link is left anywhere in the document.
pub open spec fn clean(s: Seq<u8>) -> bool {
    forall|i: int| !abs_at(s, i)
}

/// On a document without absolute links the rewriting pass changes nothing.
pub proof fn lemma_rewrite_clean_identity(s: Seq<u8>, i: int)
    requires
        clean(s),
        0 <= i <= s.len(),
    ensures
        rewrite_from(s, i) == s.subrange(i, s.len() as int),
    decreases s.len() - i,
{
    if i < s.len() {
        lemma_rewrite_clean_identity(s, i + 1);
        assert(seq![s[i]] + s.subrange(i + 1, s.len() as int) =~= s.subrange(i, s.len() as int));
    } else {
        assert(s.subrange(i, s.len() as int) =~= Seq::<u8>::empty());
    }
}

/// Idempotence of the rewriting pass: when one pass leaves a document with
/// no remaining absolute reference, a second pass reproduces its output
/// byte for byte. A document whose rewritten link values themselves spell
/// out a new absolute attribute is the one family of inputs left aside.
pub proof fn lemma_rewrite_idempotent(s: Seq<u8>)
    requires
        clean(spec_rewrite(s)),
    ensures
        spec_rewrite(spec_rewrite(s)) == spec_rewrite(s),
{
    lemma_rewrite_clean_identity(spec_rewrite(s), 0);
    assert(spec_rewrite(s).subrange(0, spec_rewrite(s).len() as int) =~= spec_rewrite(s));
}

/// Locates an absolute link at `i`, yielding the bounds of its value.
fn try_abs_at(s: &Vec<u8>, i: usize, hp: &Vec<u8>, sp: &Vec<u8>, http_v: &Vec<u8>, https_v: &Vec<u8>) -> (r:
    Option<(usize, usize)>)
    requires
        hp@ == crate::extract::href_eq(),
        sp@ == crate::extract::src_eq(),
        http_v@ == http_pref(),
        https_v@ == https_pref(),
        i <= s@.len(),
    ensures
        match r {
            Some(pair) => abs_at(s@, i as int) && pair.0 == value_start(s@, i as int) && pair.1
                == value_end(s@, i as int) && i < pair.0 <= pair.1 < s@.len(),
            None => !abs_at(s@, i as int),
        },
{
    let pair = match crate::extract::try_link_at(s, i, hp, sp) {
        Some(p) => p,
        None => {
            return None;
        },
    };
    let val = crate::bytes::copy_range(s, pair.0, pair.1);
    if crate::bytes::starts_with(&val, http_v) || crate::bytes::starts_with(&val, https_v) {
        Some(pair)
    } else {
        None
    }
}

/// Rewrites one document: the executable form of `spec_rewrite`.
pub fn rewrite_links(s: &Vec<u8>) -> (r: Vec<u8>)
    ensures
        r@ == spec_rewrite(s@),
{
    let hp = crate::extract::href_pat_vec();
    let sp = crate::extract::src_pat_vec();
    let http_v = crate::paths::http_pref_vec();
    let https_v = crate::paths::https_pref_vec();
    let mut out: Vec<u8> = Vec::new();
    let mut i: usize = 0;
    let n: usize = s.len();
    proof {
        assert(out@ + rewrite_from(s@, 0) =~= rewrite_from(s@, 0));
    }
    while i < n
        invariant
            hp@ == crate::extract::href_eq(),
            sp@ == crate::extract::src_eq(),
            http_v@ == http_pref(),
            https_v@ == https_pref(),
            n == s@.len(),
            i <= n,
            out@ + rewrite_from(s@, i as int) == rewrite_from(s@, 0),
        decreases n - i,
    {
        match try_abs_at(s, i, &hp, &sp, &http_v, &https_v) {
            Some(pair) => {
                let vs = pair.0;
                let ve = pair.1;
                let ghost pre = out@;
                let al = vs - i - 1;
                proof {
                    assert(al as int == attr_len_at(s@, i as int));
                }
                crate::bytes::append_range(&mut out, s, i, i + al);
                out.push(34);
                let val = crate::bytes::copy_range(s, vs, ve);
                proof {
                    assert(val@ == link_value(s@, i as int));
                }
                let rel = crate::paths::make_relative(&val);
                let m: usize = rel.len();
                crate::bytes::append_range(&mut out, &rel, 0, m);
                out.push(34);
                proof {
                    assert(rel@.subrange(0, rel@.len() as int) =~= rel@);
                    assert(rewrite_from(s@, i as int) == s@.subrange(
                        i as int,
                        i + attr_len_at(s@, i as int),
                    ) + seq![34u8] + rel_ref_of(link_value(s@, i as int)) + seq![34u8]
                        + rewrite_from(s@, ve + 1));
                    assert(out@ =~= pre + s@.subrange(i as int, i + attr_len_at(s@, i as int))
                        + seq![34u8] + rel_ref_of(link_value(s@, i as int)) + seq![34u8]);
                    assert(out@ + rewrite_from(s@, ve + 1) =~= pre + rewrite_from(s@, i as int));
                }
                i = ve + 1;
            },
            None => {
                let ghost pre = out@;
                out.push(s[i]);
                proof {
                    assert(rewrite_from(s@, i as int) == seq![s@[i as int]] + rewrite_from(
                        s@,
                        i + 1,
                    ));
                    assert(out@ =~= pre.push(s@[i as int]));
                    assert(out@ + rewrite_from(s@, i + 1) =~= pre + rewrite_from(s@, i as int));
                }
                i += 1;
            },
        }
    }
    proof {
        assert(rewrite_from(s@, i as int) == Seq::<u8>::empty());
        assert(out@ + rewrite_from(s@, i as int) =~= out@);
    }
    out
}

/// Whether a document holds no absolute link at all: when this holds of a
/// rewritten file, a second rewriting pass is the identity on it.
pub fn is_clean(s: &Vec<u8>) -> (r: bool)
    ensures
        r == clean(s@),
{
    let hp = crate::extract::href_pat_vec();
    let sp = crate::extract::src_pat_vec();
    let http_v = crate::paths::http_pref_vec();
    let https_v = crate::paths::https_pref_vec();
    let mut i: usize = 0;
    let n: usize = s.len();
    while i < n
        invariant
            hp@ == crate::extract::href_eq(),
            sp@ == crate::extract::src_eq(),
            http_v@ == http_pref(),
            https_v@ == https_pref(),
            n == s@.len(),
            i <= n,
            forall|j: int| 0 <= j < i ==> !abs_at(s@, j),
        decreases n - i,
    {
        if let Some(_pair) = try_abs_at(s, i, &hp, &sp, &http_v, &https_v) {
            assert(abs_at(s@, i as int));
            return false;
        }
        i += 1;
    }
    assert forall|j: int| !abs_at(s@, j) by {
        if j < 0 || j >= s@.len() {
            assert(attr_len_at(s@, j) == 0);
        }
    }
    true
}

} // verus!
