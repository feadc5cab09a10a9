//! The path mapper: converts a URL path into a local file path under the
//! mirror root, and — for the link rewriter — converts an absolute URL into
//! the mirror-relative reference of the same resource.

use vstd::prelude::*;
use crate::bytes::{contains_seq, rfind, views_of, lemma_rfind_bounds};

verus! {

/// The bytes of `index.html`.
pub open spec fn index_html() -> Seq<u8> {
    seq![105u8, 110u8, 100u8, 101u8, 120u8, 46u8, 104u8, 116u8, 109u8, 108u8]
}

/// The bytes of `html`.
pub open spec fn html_ext() -> Seq<u8> {
    seq![104u8, 116u8, 109u8, 108u8]
}

/// The bytes of `http://`.
pub open spec fn http_pref() -> Seq<u8> {
    seq![104u8, 116u8, 116u8, 112u8, 58u8, 47u8, 47u8]
}

/// The bytes of `https://`.
pub open spec fn https_pref() -> Seq<u8> {
    seq![104u8, 116u8, 116u8, 112u8, 115u8, 58u8, 47u8, 47u8]
}

/// Where a URL is stored: a directory-like path (empty or ending in `/`)
/// maps to `root/index.html`; any other path maps to `root/<path without
/// its leading slash>`, keeping every intermediate segment.
pub open spec fn spec_local_path(root: Seq<u8>, upath: Seq<u8>) -> Seq<u8> {
    if upath.len() == 0 || upath[upath.len() - 1] == 47u8 {
        root + seq![47u8] + index_html()
    } else if upath[0] == 47u8 {
        root + seq![47u8] + upath.subrange(1, upath.len() as int)
    } else {
        root + seq![47u8] + upath
    }
}

/// The directory holding `p`: everything before the last `/`, or empty when
/// `p` has none.
pub open spec fn parent_of(p: Seq<u8>) -> Seq<u8> {
    if rfind(p, 47u8) >= 0 {
        p.subrange(0, rfind(p, 47u8))
    } else {
        Seq::empty()
    }
}

/// Some excluded directory occurs in the resolved parent directory. This is
/// re-checked against the concrete local path, not only the URL path.
pub open spec fn parent_excluded(parent: Seq<u8>, dirs: Seq<Seq<u8>>) -> bool {
    exists|k: int| 0 <= k < dirs.len() && contains_seq(parent, dirs[k])
}

/// The mirror-relative reference of a URL path: `index.html` for an empty
/// or root path, the path without its first byte otherwise.
pub open spec fn path_rel(p: Seq<u8>) -> Seq<u8> {
    if p.len() == 0 || p == seq![47u8] {
        index_html()
    } else {
        p.subrange(1, p.len() as int)
    }
}

/// The mirror-relative reference of a URL string: the path rule applied to
/// the parsed URL's path (queries and fragments fall away with the parse);
/// a value that does not parse to a URL with a domain is returned
/// unchanged.
pub open spec fn rel_ref_of(u: Seq<u8>) -> Seq<u8> {
    match crate::urls::parsed_url(u) {
        Some(parts) => path_rel(parts.2),
        None => u,
    }
}

/// A file path names an HTML file: its last segment has the `html`
/// extension after a dot that does not begin the segment.
pub open spec fn spec_is_html_file(p: Seq<u8>) -> bool {
    let seg_start = rfind(p, 47u8) + 1;
    let dot = rfind(p, 46u8);
    &&& dot > seg_start
    &&& dot + 1 <= p.len()
    &&& p.subrange(dot + 1, p.len() as int) == html_ext()
}

pub fn index_html_vec() -> (r: Vec<u8>)
    ensures
        r@ == index_html(),
{
    let mut v: Vec<u8> = Vec::new();
    v.push(105);
    v.push(110);
    v.push(100);
    v.push(101);
    v.push(120);
    v.push(46);
    v.push(104);
    v.push(116);
    v.push(109);
    v.push(108);
    proof {
        assert(v@ =~= index_html());
    }
    v
}

pub(crate) fn http_pref_vec() -> (r: Vec<u8>)
    ensures
        r@ == http_pref(),
{
    let mut v: Vec<u8> = Vec::new();
    v.push(104);
    v.push(116);
    v.push(116);
    v.push(112);
    v.push(58);
    v.push(47);
    v.push(47);
    proof {
        assert(v@ =~= http_pref());
    }
    v
}

pub(crate) fn https_pref_vec() -> (r: Vec<u8>)
    ensures
        r@ == https_pref(),
{
    let mut v: Vec<u8> = Vec::new();
    v.push(104);
    v.push(116);
    v.push(116);
    v.push(112);
    v.push(115);
    v.push(58);
    v.push(47);
    v.push(47);
    proof {
        assert(v@ =~= https_pref());
    }
    v
}

/// Maps a URL path to the local file path under `root`.
pub fn map_url_to_path(root: &Vec<u8>, upath: &Vec<u8>) -> (r: Vec<u8>)
    ensures
        r@ == spec_local_path(root@, upath@),
{
    let mut out = crate::bytes::copy_bytes(root);
    out.push(47);
    let n: usize = upath.len();
    if n == 0 || upath[n - 1] == 47 {
        let idx = index_html_vec();
        let m: usize = idx.len();
        crate::bytes::append_range(&mut out, &idx, 0, m);
        proof {
            assert(idx@.subrange(0, idx@.len() as int) =~= index_html());
            assert(out@ =~= root@ + seq![47u8] + index_html());
        }
    } else if upath[0] == 47 {
        crate::bytes::append_range(&mut out, upath, 1, n);
        proof {
            assert(out@ =~= root@ + seq![47u8] + upath@.subrange(1, upath@.len() as int));
        }
    } else {
        crate::bytes::append_range(&mut out, upath, 0, n);
        proof {
            assert(upath@.subrange(0, upath@.len() as int) =~= upath@);
            assert(out@ =~= root@ + seq![47u8] + upath@);
        }
    }
    out
}

/// The parent directory of a local path.
pub fn parent_dir(p: &Vec<u8>) -> (r: Vec<u8>)
    ensures
        r@ == parent_of(p@),
{
    proof {
        lemma_rfind_bounds(p@, 47u8);
    }
    match crate::bytes::rfind_exec(p, 47) {
        Some(k) => crate::bytes::copy_range(p, 0, k),
        None => {
            let empty: Vec<u8> = Vec::new();
            proof {
                assert(empty@ =~= Seq::<u8>::empty());
            }
            empty
        },
    }
}

/// Whether some excluded directory occurs in `parent`.
pub fn is_parent_excluded(parent: &Vec<u8>, dirs: &Vec<Vec<u8>>) -> (r: bool)
    ensures
        r == parent_excluded(parent@, views_of(dirs@)),
{
    let mut k: usize = 0;
    let n: usize = dirs.len();
    while k < n
        invariant
            n == dirs@.len(),
            k <= n,
            forall|j: int| 0 <= j < k ==> !contains_seq(parent@, views_of(dirs@)[j]),
        decreases n - k,
    {
        if crate::bytes::contains_bytes(parent, &dirs[k]) {
            assert(contains_seq(parent@, views_of(dirs@)[k as int]));
            return true;
        }
        k += 1;
    }
    false
}

/// The rewriter's inverse mapping, as executable code: the path is read
/// from the parsed URL through the same trusted parse the crawl uses.
pub fn make_relative(u: &Vec<u8>) -> (r: Vec<u8>)
    ensures
        r@ == rel_ref_of(u@),
{
    match crate::urls::parse_page_url(u) {
        Some(p) => {
            let n: usize = p.path.len();
            if n == 0 {
                return index_html_vec();
            }
            if n == 1 && p.path[0] == 47 {
                proof {
                    assert(p.path@ =~= seq![47u8]);
                }
                return index_html_vec();
            }
            proof {
                if n == 1 {
                    assert(p.path@ != seq![47u8]);
                } else {
                    assert(p.path@.len() != 1);
                }
            }
            crate::bytes::copy_range(&p.path, 1, n)
        },
        None => crate::bytes::copy_bytes(u),
    }
}

/// Whether a local path names an HTML file, so that the link rewriting pass
/// touches it; every other file is left untouched.
pub fn is_html_file(p: &Vec<u8>) -> (r: bool)
    ensures
        r == spec_is_html_file(p@),
{
    let n: usize = p.len();
    proof {
        lemma_rfind_bounds(p@, 47u8);
        lemma_rfind_bounds(p@, 46u8);
    }
    let seg_start: usize = match crate::bytes::rfind_exec(p, 47) {
        Some(k) => k + 1,
        None => 0,
    };
    let dot: usize = match crate::bytes::rfind_exec(p, 46) {
        Some(k) => k,
        None => {
            return false;
        },
    };
    if dot < seg_start || dot == seg_start {
        return false;
    }
    if n - dot != 5 {
        assert(p@.subrange(dot + 1, p@.len() as int).len() != html_ext().len());
        return false;
    }
    let ok = p[dot + 1] == 104 && p[dot + 2] == 116 && p[dot + 3] == 109 && p[dot + 4] == 108;
    proof {
        let tail = p@.subrange(dot + 1, p@.len() as int);
        assert(tail.len() == 4);
        assert(tail[0] == p@[dot + 1]);
        assert(tail[1] == p@[dot + 2]);
        assert(tail[2] == p@[dot + 3]);
        assert(tail[3] == p@[dot + 4]);
        if ok {
            assert(tail =~= html_ext());
        }
    }
    ok
}

} // verus!
