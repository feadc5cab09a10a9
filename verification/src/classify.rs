//! Crawl configuration and the URL classifier: a pure predicate deciding
//! whether a candidate URL may be fetched at all.

use vstd::prelude::*;
use crate::bytes::{is_prefix, is_suffix, views_of};
use crate::urls::PageUrl;

verus! {

/// First index of `sep` in `s`, or `s.len()` when absent.
pub open spec fn first_index(s: Seq<u8>, sep: u8) -> int
    decreases s.len(),
{
    if s.len() == 0 {
        0
    } else if s[0] == sep {
        0
    } else {
        1 + first_index(s.drop_first(), sep)
    }
}

pub proof fn lemma_first_index(s: Seq<u8>, sep: u8)
    ensures
        0 <= first_index(s, sep) <= s.len(),
        first_index(s, sep) < s.len() ==> s[first_index(s, sep)] == sep,
        forall|k: int| 0 <= k < first_index(s, sep) ==> s[k] != sep,
    decreases s.len(),
{
    if s.len() > 0 && s[0] != sep {
        lemma_first_index(s.drop_first(), sep);
        assert forall|k: int| 0 <= k < first_index(s, sep) implies s[k] != sep by {
            if k > 0 {
                assert(s.drop_first()[k - 1] == s[k]);
            }
        }
    }
}

/// Splitting `s` at `sep`, keeping empty segments, as `str::split` does.
pub open spec fn spec_split(s: Seq<u8>, sep: u8) -> Seq<Seq<u8>>
    decreases s.len(),
    via spec_split_decreases
{
    let i = first_index(s, sep);
    if i >= s.len() {
        seq![s]
    } else {
        seq![s.subrange(0, i)] + spec_split(s.subrange(i + 1, s.len() as int), sep)
    }
}

#[via_fn]
proof fn spec_split_decreases(s: Seq<u8>, sep: u8) {
    lemma_first_index(s, sep);
}

/// `first_index` is determined by this characterization; it relates the
/// executable scan to the recursive definition.
pub proof fn lemma_first_index_is(s: Seq<u8>, sep: u8, i: int)
    requires
        0 <= i <= s.len(),
        i < s.len() ==> s[i] == sep,
        forall|k: int| 0 <= k < i ==> s[k] != sep,
    ensures
        first_index(s, sep) == i,
{
    lemma_first_index(s, sep);
    if first_index(s, sep) < i {
        assert(s[first_index(s, sep)] == sep);
    }
    if i < first_index(s, sep) && i < s.len() {
        assert(s[i] != sep);
    }
}

/// Splits a comma-separated option value, as the crawl configuration does
/// for reject patterns and excluded directories.
pub fn split_commas(s: &Vec<u8>) -> (r: Vec<Vec<u8>>)
    ensures
        views_of(r@) == spec_split(s@, 44u8),
{
    split_byte(s, 44)
}

/// Splits at every occurrence of `sep`, keeping empty segments.
pub fn split_byte(s: &Vec<u8>, sep: u8) -> (r: Vec<Vec<u8>>)
    ensures
        views_of(r@) == spec_split(s@, sep),
{
    let n: usize = s.len();
    let mut out: Vec<Vec<u8>> = Vec::new();
    let mut start: usize = 0;
    let mut i: usize = 0;
    proof {
        assert(s@.subrange(0, s@.len() as int) =~= s@);
        assert(views_of(out@) + spec_split(s@.subrange(0, s@.len() as int), sep) =~= spec_split(
            s@,
            sep,
        ));
    }
    while i < n
        invariant
            n == s@.len(),
            start <= i <= n,
            forall|k: int| start <= k < i ==> s@[k] != sep,
            views_of(out@) + spec_split(s@.subrange(start as int, s@.len() as int), sep)
                == spec_split(s@, sep),
        decreases n - i,
    {
        if s[i] == sep {
            let seg = crate::bytes::copy_range(s, start, i);
            let ghost segv = seg@;
            let ghost prev = views_of(out@);
            proof {
                let rest = s@.subrange(start as int, s@.len() as int);
                assert forall|k: int| 0 <= k < i - start implies rest[k] != sep by {
                    assert(rest[k] == s@[start + k]);
                }
                assert(rest[i - start] == s@[i as int]);
                lemma_first_index_is(rest, sep, i - start);
                assert(rest.subrange(0, i - start) =~= segv);
                assert(rest.subrange(i - start + 1, rest.len() as int) =~= s@.subrange(
                    i + 1,
                    s@.len() as int,
                ));
            }
            out.push(seg);
            proof {
                assert(views_of(out@) =~= prev.push(segv));
                assert(views_of(out@) + spec_split(s@.subrange(i + 1, s@.len() as int), sep)
                    =~= spec_split(s@, sep));
            }
            start = i + 1;
        }
        i += 1;
    }
    let seg = crate::bytes::copy_range(s, start, n);
    let ghost segv = seg@;
    let ghost prev = views_of(out@);
    proof {
        let rest = s@.subrange(start as int, s@.len() as int);
        assert forall|k: int| 0 <= k < rest.len() implies rest[k] != sep by {
            assert(rest[k] == s@[start + k]);
        }
        lemma_first_index_is(rest, sep, rest.len() as int);
        assert(rest =~= segv);
    }
    out.push(seg);
    proof {
        assert(views_of(out@) =~= prev.push(segv));
        assert(views_of(out@) =~= spec_split(s@, sep));
    }
    out
}

/// The immutable configuration of one mirror run.
pub struct CrawlConfig {
    /// The target domain; also the name of the mirror root directory.
    pub host: Vec<u8>,
    /// Reject tokens: a URL whose path ends in `"." + token` is skipped.
    pub reject: Vec<Vec<u8>>,
    /// Excluded directories: prefixes of URL paths that are never crawled,
    /// and substrings of resolved parent directories that are never stored.
    pub exclude: Vec<Vec<u8>>,
    /// Whether the offline link rewriting pass is requested.
    pub convert_links: bool,
}

/// The path ends in `"." + token` for some configured token.
pub open spec fn matches_reject(path: Seq<u8>, tokens: Seq<Seq<u8>>) -> bool {
    exists|k: int| 0 <= k < tokens.len() && is_suffix(seq![46u8] + tokens[k], path)
}

/// Some excluded directory is a prefix of the path.
pub open spec fn in_excluded_dir(path: Seq<u8>, dirs: Seq<Seq<u8>>) -> bool {
    exists|k: int| 0 <= k < dirs.len() && is_prefix(dirs[k], path)
}

/// The classifier: a URL `(full, host, path)` may be fetched under the given
/// configuration. Evaluated before a URL enters the visited set, so that
/// excluded subtrees cost no fetch.
pub open spec fn spec_eligible(
    u: (Seq<u8>, Seq<u8>, Seq<u8>),
    host: Seq<u8>,
    reject: Seq<Seq<u8>>,
    exclude: Seq<Seq<u8>>,
) -> bool {
    &&& u.1 == host
    &&& !matches_reject(u.2, reject)
    &&& !in_excluded_dir(u.2, exclude)
}

/// The path ends in `"." + tok`.
fn ends_in_dot_token(path: &Vec<u8>, tok: &Vec<u8>) -> (r: bool)
    ensures
        r == is_suffix(seq![46u8] + tok@, path@),
{
    let ghost suf = seq![46u8] + tok@;
    let plen: usize = path.len();
    let tlen: usize = tok.len();
    if tlen >= plen {
        return false;
    }
    let dot_at: usize = plen - 1 - tlen;
    if path[dot_at] != 46u8 {
        assert(path@.subrange(path@.len() - suf.len(), path@.len() as int)[0] == path@[
            dot_at as int]);
        return false;
    }
    let mut k: usize = 0;
    while k < tlen
        invariant
            suf == seq![46u8] + tok@,
            plen == path@.len(),
            tlen == tok@.len(),
            tlen < plen,
            dot_at == plen - 1 - tlen,
            k <= tlen,
            path@[dot_at as int] == 46u8,
            forall|j: int| 0 <= j < k ==> path@[dot_at + 1 + j] == tok@[j],
        decreases tlen - k,
    {
        if path[dot_at + 1 + k] != tok[k] {
            proof {
                assert(suf.len() == 1 + tok@.len());
                assert(path@.len() - suf.len() == dot_at as int);
                assert(path@.subrange(dot_at as int, path@.len() as int)[k + 1] == path@[dot_at + 1
                    + k]);
                assert(suf[k + 1] == tok@[k as int]);
            }
            return false;
        }
        k += 1;
    }
    proof {
        assert(path@.subrange(path@.len() - suf.len(), path@.len() as int) =~= suf);
    }
    true
}

impl CrawlConfig {
    /// Builds the configuration for one run from the raw option values:
    /// the target host and the comma-separated reject and exclusion lists.
    pub fn new(
        host: Vec<u8>,
        reject_list: Option<Vec<u8>>,
        exclude_list: Option<Vec<u8>>,
        convert_links: bool,
    ) -> (r: CrawlConfig)
        ensures
            r.host == host,
            views_of(r.reject@) == match reject_list {
                Some(v) => spec_split(v@, 44u8),
                None => Seq::<Seq<u8>>::empty(),
            },
            views_of(r.exclude@) == match exclude_list {
                Some(v) => spec_split(v@, 44u8),
                None => Seq::<Seq<u8>>::empty(),
            },
            r.convert_links == convert_links,
    {
        let reject = match reject_list {
            Some(v) => split_commas(&v),
            None => {
                let empty: Vec<Vec<u8>> = Vec::new();
                proof {
                    assert(views_of(empty@) =~= Seq::<Seq<u8>>::empty());
                }
                empty
            },
        };
        let exclude = match exclude_list {
            Some(v) => split_commas(&v),
            None => {
                let empty: Vec<Vec<u8>> = Vec::new();
                proof {
                    assert(views_of(empty@) =~= Seq::<Seq<u8>>::empty());
                }
                empty
            },
        };
        CrawlConfig { host, reject, exclude, convert_links }
    }

    /// The classifier as executable code.
    pub fn is_eligible(&self, u: &PageUrl) -> (r: bool)
        ensures
            r == spec_eligible(u@, self.host@, views_of(self.reject@), views_of(self.exclude@)),
    {
        if !crate::bytes::eq_bytes(&u.host, &self.host) {
            return false;
        }
        let mut k: usize = 0;
        let nr: usize = self.reject.len();
        while k < nr
            invariant
                nr == self.reject@.len(),
                k <= nr,
                forall|j: int| 0 <= j < k ==> !is_suffix(
                    seq![46u8] + views_of(self.reject@)[j],
                    u.path@,
                ),
            decreases nr - k,
        {
            if ends_in_dot_token(&u.path, &self.reject[k]) {
                assert(is_suffix(seq![46u8] + views_of(self.reject@)[k as int], u.path@));
                assert(matches_reject(u.path@, views_of(self.reject@)));
                return false;
            }
            k += 1;
        }
        assert(!matches_reject(u.path@, views_of(self.reject@)));
        let mut k: usize = 0;
        let ne: usize = self.exclude.len();
        while k < ne
            invariant
                ne == self.exclude@.len(),
                k <= ne,
                forall|j: int| 0 <= j < k ==> !is_prefix(views_of(self.exclude@)[j], u.path@),
            decreases ne - k,
        {
            if crate::bytes::starts_with(&u.path, &self.exclude[k]) {
                assert(is_prefix(views_of(self.exclude@)[k as int], u.path@));
                assert(in_excluded_dir(u.path@, views_of(self.exclude@)));
                return false;
            }
            k += 1;
        }
        assert(!in_excluded_dir(u.path@, views_of(self.exclude@)));
        true
    }
}

/// A URL whose path carries a configured reject token as its extension is
/// never eligible, whatever the rest of the configuration says.
pub proof fn lemma_reject_token_skipped(
    u: (Seq<u8>, Seq<u8>, Seq<u8>),
    host: Seq<u8>,
    reject: Seq<Seq<u8>>,
    exclude: Seq<Seq<u8>>,
    k: int,
)
    requires
        0 <= k < reject.len(),
        is_suffix(seq![46u8] + reject[k], u.2),
    ensures
        !spec_eligible(u, host, reject, exclude),
{
}

/// A URL whose path lies under a configured excluded directory is never
/// eligible, so the subtree costs no fetch at all.
pub proof fn lemma_excluded_dir_skipped(
    u: (Seq<u8>, Seq<u8>, Seq<u8>),
    host: Seq<u8>,
    reject: Seq<Seq<u8>>,
    exclude: Seq<Seq<u8>>,
    k: int,
)
    requires
        0 <= k < exclude.len(),
        is_prefix(exclude[k], u.2),
    ensures
        !spec_eligible(u, host, reject, exclude),
{
}

/// A URL on another host than the target domain is never eligible: the crawl
/// never leaves the seed's domain.
pub proof fn lemma_foreign_host_skipped(
    u: (Seq<u8>, Seq<u8>, Seq<u8>),
    host: Seq<u8>,
    reject: Seq<Seq<u8>>,
    exclude: Seq<Seq<u8>>,
)
    requires
        u.1 != host,
    ensures
        !spec_eligible(u, host, reject, exclude),
{
}

} // verus!
