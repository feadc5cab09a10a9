//! The link extractor: scans raw page bytes for hyperlink-reference
//! (`href=`) and resource-reference (`src=`) attributes and yields their
//! quoted values verbatim, in first-occurrence order. Malformed markup never
//! fails; it simply yields no further links.

use vstd::prelude::*;
use crate::bytes::{matches_at, find2, views_of, lemma_find2_bounds};

verus! {

pub open spec fn is_quote(b: u8) -> bool {
    b == 34 || b == 39
}

/// The bytes of `href=`.
pub open spec fn href_eq() -> Seq<u8> {
    seq![104u8, 114u8, 101u8, 102u8, 61u8]
}

/// The bytes of `src=`.
pub open spec fn src_eq() -> Seq<u8> {
    seq![115u8, 114u8, 99u8, 61u8]
}

/// Length of the attribute introducer at `i`: 5 for `href=`, 4 for `src=`,
/// 0 when neither occurs there.
pub open spec fn attr_len_at(s: Seq<u8>, i: int) -> int {
    if matches_at(s, i, href_eq()) {
        5
    } else if matches_at(s, i, src_eq()) {
        4
    } else {
        0
    }
}

/// Index right after the opening quote of the attribute value at `i`.
pub open spec fn value_start(s: Seq<u8>, i: int) -> int {
    i + attr_len_at(s, i) + 1
}

/// Index of the quote closing the attribute value at `i` (the first quote at
/// or after `value_start`), or `s.len()` when none exists.
pub open spec fn value_end(s: Seq<u8>, i: int) -> int {
    find2(s, value_start(s, i), 34u8, 39u8)
}

/// A well-formed quoted link value begins at `i`: an attribute introducer,
/// an opening quote, at least one non-quote byte, and a closing quote.
pub open spec fn link_at(s: Seq<u8>, i: int) -> bool {
    let al = attr_len_at(s, i);
    &&& al > 0
    &&& i + al < s.len()
    &&& is_quote(s[i + al])
    &&& value_end(s, i) < s.len()
    &&& value_end(s, i) > value_start(s, i)
}

/// The quoted value of the link at `i`.
pub open spec fn link_value(s: Seq<u8>, i: int) -> Seq<u8> {
    s.subrange(value_start(s, i), value_end(s, i))
}

/// First scan index after the link at `i`.
pub open spec fn link_end(s: Seq<u8>, i: int) -> int {
    value_end(s, i) + 1
}

/// The links of `s` from index `i` on, in first-occurrence order.
pub open spec fn extract_from(s: Seq<u8>, i: int) -> Seq<Seq<u8>>
    decreases s.len() - i when 0 <= i <= s.len()
    via extract_from_decreases
{
    if i >= s.len() {
        Seq::empty()
    } else if link_at(s, i) {
        seq![link_value(s, i)] + extract_from(s, link_end(s, i))
    } else {
        extract_from(s, i + 1)
    }
}

#[via_fn]
proof fn extract_from_decreases(s: Seq<u8>, i: int) {
    if 0 <= i && i < s.len() && link_at(s, i) {
        lemma_find2_bounds(s, value_start(s, i), 34u8, 39u8);
    }
}

/// All links of a document, in first-occurrence order.
pub open spec fn spec_extract_links(s: Seq<u8>) -> Seq<Seq<u8>> {
    extract_from(s, 0)
}

pub fn href_pat_vec() -> (r: Vec<u8>)
    ensures
        r@ == href_eq(),
{
    let mut v: Vec<u8> = Vec::new();
    v.push(104);
    v.push(114);
    v.push(101);
    v.push(102);
    v.push(61);
    proof {
        assert(v@ =~= href_eq());
    }
    v
}

pub fn src_pat_vec() -> (r: Vec<u8>)
    ensures
        r@ == src_eq(),
{
    let mut v: Vec<u8> = Vec::new();
    v.push(115);
    v.push(114);
    v.push(99);
    v.push(61);
    proof {
        assert(v@ =~= src_eq());
    }
    v
}

/// Decides whether a link starts at `i` and locates its value.
pub(crate) fn try_link_at(s: &Vec<u8>, i: usize, hp: &Vec<u8>, sp: &Vec<u8>) -> (r: Option<(usize, usize)>)
    requires
        hp@ == href_eq(),
        sp@ == src_eq(),
        i <= s@.len(),
    ensures
        match r {
            Some(pair) => link_at(s@, i as int) && pair.0 == value_start(s@, i as int) && pair.1
                == value_end(s@, i as int) && i < pair.0 <= pair.1 < s@.len(),
            None => !link_at(s@, i as int),
        },
{
    let n: usize = s.len();
    let al: usize;
    if crate::bytes::match_at(s, i, hp) {
        al = 5;
    } else if crate::bytes::match_at(s, i, sp) {
        al = 4;
    } else {
        return None;
    }
    assert(al as int == attr_len_at(s@, i as int));
    if n - i <= al {
        return None;
    }
    let q = s[i + al];
    if !(q == 34 || q == 39) {
        return None;
    }
    let vs = i + al + 1;
    let ve = crate::bytes::find2_exec(s, vs, 34, 39);
    proof {
        lemma_find2_bounds(s@, vs as int, 34u8, 39u8);
    }
    if ve >= n {
        return None;
    }
    if ve == vs {
        return None;
    }
    Some((vs, ve))
}

/// Extracts every quoted `href=` / `src=` value from raw page bytes.
pub fn extract_links(body: &Vec<u8>) -> (r: Vec<Vec<u8>>)
    ensures
        views_of(r@) == spec_extract_links(body@),
{
    let hp = href_pat_vec();
    let sp = src_pat_vec();
    let mut out: Vec<Vec<u8>> = Vec::new();
    let mut i: usize = 0;
    let n: usize = body.len();
    proof {
        assert(views_of(out@) + extract_from(body@, 0) =~= extract_from(body@, 0));
    }
    while i < n
        invariant
            hp@ == href_eq(),
            sp@ == src_eq(),
            n == body@.len(),
            i <= n,
            views_of(out@) + extract_from(body@, i as int) == extract_from(body@, 0),
        decreases n - i,
    {
        match try_link_at(body, i, &hp, &sp) {
            Some(pair) => {
                let vs = pair.0;
                let ve = pair.1;
                let val = crate::bytes::copy_range(body, vs, ve);
                let ghost prev = views_of(out@);
                proof {
                    assert(val@ == link_value(body@, i as int));
                }
                out.push(val);
                proof {
                    assert(views_of(out@) =~= prev.push(link_value(body@, i as int)));
                    assert(extract_from(body@, i as int) == seq![link_value(body@, i as int)]
                        + extract_from(body@, ve + 1));
                    assert(views_of(out@) + extract_from(body@, ve + 1) =~= prev + extract_from(
                        body@,
                        i as int,
                    ));
                }
                i = ve + 1;
            },
            None => {
                proof {
                    assert(extract_from(body@, i as int) == extract_from(body@, i + 1));
                }
                i += 1;
            },
        }
    }
    proof {
        assert(extract_from(body@, i as int) == Seq::<Seq<u8>>::empty());
        assert(views_of(out@) + extract_from(body@, i as int) =~= views_of(out@));
    }
    out
}

} // verus!
