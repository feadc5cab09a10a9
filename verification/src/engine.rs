//! The crawl engine: owns the visited set and the frontier of discovered
//! URLs, and decides — URL by URL — what the driver loop must fetch and
//! where a fetched body is stored. The driver performs the network and
//! filesystem effects and hands their results back; every decision here is
//! verified.
//!
//! A URL is inserted into the visited set before its fetch begins, so a URL
//! is handed out to fetch at most once per run, whatever cycles the site
//! contains.

use vstd::prelude::*;
use crate::bytes::{views_of, contains_seq};
use crate::urls::{PageUrl, joined_url};
use crate::classify::{CrawlConfig, spec_eligible};
use crate::paths::{spec_local_path, parent_of, parent_excluded};

verus! {

/// The views of a sequence of URLs, element by element.
pub open spec fn urls_of(s: Seq<PageUrl>) -> Seq<(Seq<u8>, Seq<u8>, Seq<u8>)> {
    Seq::new(s.len(), |i: int| s[i]@)
}

/// No URL string occurs twice.
pub open spec fn unique_seq(s: Seq<Seq<u8>>) -> bool {
    forall|i: int, j: int| 0 <= i < j < s.len() ==> s[i] != s[j]
}

pub proof fn lemma_unique_push(v: Seq<Seq<u8>>, x: Seq<u8>)
    requires
        unique_seq(v),
        !v.contains(x),
    ensures
        unique_seq(v.push(x)),
{
    assert forall|i: int, j: int| 0 <= i < j < v.push(x).len() implies v.push(x)[i] != v.push(x)[j]
    by {
        if j == v.len() {
            if v[i] == x {
                assert(v.contains(x));
            }
        }
    }
}

/// Once a URL is recorded as visited it stays visited under any later
/// extension of the visited set, so it can never be handed out to fetch a
/// second time in the same run.
pub proof fn lemma_visited_is_permanent(v1: Seq<Seq<u8>>, v2: Seq<Seq<u8>>, u: Seq<u8>)
    requires
        v1.contains(u),
        v1.is_prefix_of(v2),
    ensures
        v2.contains(u),
{
    let i = choose|i: int| 0 <= i < v1.len() && v1[i] == u;
    assert(v2[i] == u);
}

/// What `next_url` yields from a frontier: candidates are taken from the
/// back; the first one that is eligible and not yet visited is returned
/// together with the remaining frontier; ineligible or already-visited
/// candidates are dropped silently.
pub open spec fn spec_next(
    frontier: Seq<(Seq<u8>, Seq<u8>, Seq<u8>)>,
    visited: Seq<Seq<u8>>,
    host: Seq<u8>,
    reject: Seq<Seq<u8>>,
    exclude: Seq<Seq<u8>>,
) -> (Option<(Seq<u8>, Seq<u8>, Seq<u8>)>, Seq<(Seq<u8>, Seq<u8>, Seq<u8>)>)
    decreases frontier.len(),
{
    if frontier.len() == 0 {
        (None, frontier)
    } else {
        let u = frontier.last();
        let rest = frontier.drop_last();
        if spec_eligible(u, host, reject, exclude) && !visited.contains(u.0) {
            (Some(u), rest)
        } else {
            spec_next(rest, visited, host, reject, exclude)
        }
    }
}

/// The same-host links of a page, resolved against the page's URL, in
/// extraction order: what one page contributes to the frontier.
pub open spec fn spec_enqueue(base: Seq<u8>, phost: Seq<u8>, links: Seq<Seq<u8>>) -> Seq<
    (Seq<u8>, Seq<u8>, Seq<u8>),
>
    decreases links.len(),
{
    if links.len() == 0 {
        Seq::empty()
    } else {
        let head = match joined_url(base, links[0]) {
            Some(v) => if v.1 == phost {
                seq![v]
            } else {
                Seq::empty()
            },
            None => Seq::empty(),
        };
        head + spec_enqueue(base, phost, links.drop_first())
    }
}

proof fn lemma_enqueue_snoc(base: Seq<u8>, phost: Seq<u8>, links: Seq<Seq<u8>>, x: Seq<u8>)
    ensures
        spec_enqueue(base, phost, links.push(x)) == spec_enqueue(base, phost, links)
            + spec_enqueue(base, phost, seq![x]),
    decreases links.len(),
{
    if links.len() == 0 {
        assert(links.push(x)[0] == x);
        assert(links.push(x).drop_first() =~= Seq::<Seq<u8>>::empty());
        assert(seq![x].drop_first() =~= Seq::<Seq<u8>>::empty());
        assert(spec_enqueue(base, phost, links) + spec_enqueue(base, phost, seq![x])
            =~= spec_enqueue(base, phost, seq![x]));
        assert(spec_enqueue(base, phost, links.push(x)) =~= spec_enqueue(base, phost, seq![x]));
    } else {
        assert(links.push(x)[0] == links[0]);
        assert(links.push(x).drop_first() =~= links.drop_first().push(x));
        lemma_enqueue_snoc(base, phost, links.drop_first(), x);
        assert(spec_enqueue(base, phost, links.push(x)) =~= spec_enqueue(base, phost, links)
            + spec_enqueue(base, phost, seq![x]));
    }
}

proof fn lemma_enqueue_one(base: Seq<u8>, phost: Seq<u8>, l: Seq<u8>)
    ensures
        spec_enqueue(base, phost, seq![l]) == (match joined_url(base, l) {
            Some(v) => if v.1 == phost {
                seq![v]
            } else {
                Seq::<(Seq<u8>, Seq<u8>, Seq<u8>)>::empty()
            },
            None => Seq::<(Seq<u8>, Seq<u8>, Seq<u8>)>::empty(),
        }),
{
    let one = seq![l];
    assert(one[0] == l);
    assert(one.drop_first() =~= Seq::<Seq<u8>>::empty());
    assert(spec_enqueue(base, phost, one.drop_first()) =~= Seq::<(Seq<u8>, Seq<u8>, Seq<u8>)>::empty());
    let head = match joined_url(base, l) {
        Some(v) => if v.1 == phost {
            seq![v]
        } else {
            Seq::<(Seq<u8>, Seq<u8>, Seq<u8>)>::empty()
        },
        None => Seq::<(Seq<u8>, Seq<u8>, Seq<u8>)>::empty(),
    };
    assert(spec_enqueue(base, phost, one) == head + spec_enqueue(base, phost, one.drop_first()));
    assert(head + spec_enqueue(base, phost, one.drop_first()) =~= head);
}

/// Whether the excluded-directory re-check lets a page be stored, and at
/// which local path.
pub open spec fn spec_plan_store(root: Seq<u8>, upath: Seq<u8>, dirs: Seq<Seq<u8>>) -> Option<
    Seq<u8>,
> {
    let p = spec_local_path(root, upath);
    if parent_excluded(parent_of(p), dirs) {
        None
    } else {
        Some(p)
    }
}

/// The bytes of `text/html`.
pub open spec fn text_html() -> Seq<u8> {
    seq![116u8, 101u8, 120u8, 116u8, 47u8, 104u8, 116u8, 109u8, 108u8]
}

/// Whether an HTTP status code counts as success; only a successful
/// response is stored, any other status abandons its URL's branch.
pub fn is_success_status(code: u16) -> (r: bool)
    ensures
        r == (200 <= code < 300),
{
    200 <= code && code < 300
}

/// Whether a content-type header value names the HTML media type; only then
/// are a stored page's links followed.
pub fn is_html_content_type(ct: &Vec<u8>) -> (r: bool)
    ensures
        r == contains_seq(ct@, text_html()),
{
    let mut pat: Vec<u8> = Vec::new();
    pat.push(116);
    pat.push(101);
    pat.push(120);
    pat.push(116);
    pat.push(47);
    pat.push(104);
    pat.push(116);
    pat.push(109);
    pat.push(108);
    proof {
        assert(pat@ =~= text_html());
    }
    crate::bytes::contains_bytes(ct, &pat)
}

/// The crawl state for one run: the immutable configuration, the visited
/// set, and the frontier of discovered but not yet fetched URLs.
pub struct CrawlEngine {
    pub config: CrawlConfig,
    pub visited: Vec<Vec<u8>>,
    pub frontier: Vec<PageUrl>,
}

impl CrawlEngine {
    /// The visited set never records a URL twice.
    pub open spec fn wf(self) -> bool {
        unique_seq(views_of(self.visited@))
    }

    /// Starts a run: the target domain is the seed's host, the frontier
    /// holds exactly the seed, and nothing is visited yet.
    pub fn new(
        seed: PageUrl,
        reject_list: Option<Vec<u8>>,
        exclude_list: Option<Vec<u8>>,
        convert_links: bool,
    ) -> (r: CrawlEngine)
        ensures
            r.wf(),
            r.config.host@ == seed.host@,
            views_of(r.config.reject@) == match reject_list {
                Some(v) => crate::classify::spec_split(v@, 44u8),
                None => Seq::<Seq<u8>>::empty(),
            },
            views_of(r.config.exclude@) == match exclude_list {
                Some(v) => crate::classify::spec_split(v@, 44u8),
                None => Seq::<Seq<u8>>::empty(),
            },
            r.config.convert_links == convert_links,
            views_of(r.visited@) == Seq::<Seq<u8>>::empty(),
            urls_of(r.frontier@) == seq![seed@],
    {
        let host = crate::bytes::copy_bytes(&seed.host);
        let config = CrawlConfig::new(host, reject_list, exclude_list, convert_links);
        let visited: Vec<Vec<u8>> = Vec::new();
        let mut frontier: Vec<PageUrl> = Vec::new();
        let ghost seedv = seed@;
        frontier.push(seed);
        proof {
            assert(views_of(visited@) =~= Seq::<Seq<u8>>::empty());
            assert(urls_of(frontier@) =~= seq![seedv]);
        }
        CrawlEngine { config, visited, frontier }
    }

    fn contains_visited(&self, full: &Vec<u8>) -> (r: bool)
        ensures
            r == views_of(self.visited@).contains(full@),
    {
        let mut k: usize = 0;
        let n: usize = self.visited.len();
        while k < n
            invariant
                n == self.visited@.len(),
                k <= n,
                forall|j: int| 0 <= j < k ==> views_of(self.visited@)[j] != full@,
            decreases n - k,
        {
            if crate::bytes::eq_bytes(&self.visited[k], full) {
                assert(views_of(self.visited@)[k as int] == full@);
                return true;
            }
            k += 1;
        }
        assert(!views_of(self.visited@).contains(full@));
        false
    }

    /// Hands out the next URL to fetch, or `None` when the frontier is
    /// drained. A returned URL is eligible under the configuration — in
    /// particular its host is the target domain — was not visited before,
    /// and is recorded as visited before this returns, so it can never be
    /// handed out again.
    pub fn next_url(&mut self) -> (r: Option<PageUrl>)
        requires
            old(self).wf(),
        ensures
            final(self).wf(),
            final(self).config == old(self).config,
            views_of(old(self).visited@).is_prefix_of(views_of(final(self).visited@)),
            ({
                let step = spec_next(
                    urls_of(old(self).frontier@),
                    views_of(old(self).visited@),
                    old(self).config.host@,
                    views_of(old(self).config.reject@),
                    views_of(old(self).config.exclude@),
                );
                &&& urls_of(final(self).frontier@) == step.1
                &&& match r {
                    Some(u) => {
                        &&& step.0 == Some(u@)
                        &&& spec_eligible(
                            u@,
                            old(self).config.host@,
                            views_of(old(self).config.reject@),
                            views_of(old(self).config.exclude@),
                        )
                        &&& !views_of(old(self).visited@).contains(u.full@)
                        &&& views_of(final(self).visited@) == views_of(old(self).visited@).push(
                            u.full@,
                        )
                    },
                    None => {
                        &&& step.0 is None
                        &&& final(self).visited == old(self).visited
                    },
                }
            }),
    {
        loop
            invariant
                self.wf(),
                self.visited == old(self).visited,
                self.config == old(self).config,
                spec_next(
                    urls_of(self.frontier@),
                    views_of(self.visited@),
                    self.config.host@,
                    views_of(self.config.reject@),
                    views_of(self.config.exclude@),
                ) == spec_next(
                    urls_of(old(self).frontier@),
                    views_of(old(self).visited@),
                    old(self).config.host@,
                    views_of(old(self).config.reject@),
                    views_of(old(self).config.exclude@),
                ),
            decreases self.frontier.len(),
        {
            let ghost pre_frontier = urls_of(self.frontier@);
            let u = match self.frontier.pop() {
                Some(u) => u,
                None => {
                    return None;
                },
            };
            proof {
                assert(pre_frontier.len() > 0);
                assert(u@ == pre_frontier.last());
                assert(urls_of(self.frontier@) =~= pre_frontier.drop_last());
            }
            if self.config.is_eligible(&u) && !self.contains_visited(&u.full) {
                let full_copy = crate::bytes::copy_bytes(&u.full);
                let ghost pre_visited = views_of(self.visited@);
                proof {
                    lemma_unique_push(pre_visited, u.full@);
                }
                self.visited.push(full_copy);
                proof {
                    assert(views_of(self.visited@) =~= pre_visited.push(u.full@));
                    assert(pre_visited.push(u.full@).subrange(0, pre_visited.len() as int)
                        =~= pre_visited);
                }
                return Some(u);
            }
        }
    }

    /// Where a fetched page is stored, re-checking the excluded directories
    /// against the resolved parent directory; `None` means the store is
    /// skipped although the URL itself was eligible.
    pub fn plan_store(&self, page: &PageUrl) -> (r: Option<Vec<u8>>)
        ensures
            match r {
                Some(p) => spec_plan_store(
                    self.config.host@,
                    page.path@,
                    views_of(self.config.exclude@),
                ) == Some(p@),
                None => spec_plan_store(
                    self.config.host@,
                    page.path@,
                    views_of(self.config.exclude@),
                ) is None,
            },
    {
        let p = crate::paths::map_url_to_path(&self.config.host, &page.path);
        let par = crate::paths::parent_dir(&p);
        if crate::paths::is_parent_excluded(&par, &self.config.exclude) {
            None
        } else {
            Some(p)
        }
    }

    /// Extracts the links of a stored HTML page, resolves each against the
    /// page's URL, and appends exactly the same-host results — in document
    /// order — to the frontier. Visited set and configuration are untouched:
    /// enqueuing never fetches.
    pub fn enqueue_links(&mut self, page: &PageUrl, body: &Vec<u8>)
        requires
            old(self).wf(),
        ensures
            final(self).wf(),
            final(self).config == old(self).config,
            final(self).visited == old(self).visited,
            urls_of(final(self).frontier@) == urls_of(old(self).frontier@) + spec_enqueue(
                page.full@,
                page.host@,
                crate::extract::spec_extract_links(body@),
            ),
    {
        let links = crate::extract::extract_links(body);
        let ghost linksv = views_of(links@);
        let mut j: usize = 0;
        let n: usize = links.len();
        proof {
            assert(linksv.take(0) =~= Seq::<Seq<u8>>::empty());
            assert(urls_of(self.frontier@) + spec_enqueue(page.full@, page.host@, linksv.take(0))
                =~= urls_of(self.frontier@));
        }
        while j < n
            invariant
                n == links@.len(),
                j <= n,
                linksv == views_of(links@),
                linksv == crate::extract::spec_extract_links(body@),
                self.wf(),
                self.visited == old(self).visited,
                self.config == old(self).config,
                urls_of(self.frontier@) == urls_of(old(self).frontier@) + spec_enqueue(
                    page.full@,
                    page.host@,
                    linksv.take(j as int),
                ),
            decreases n - j,
        {
            let ghost pre = urls_of(self.frontier@);
            proof {
                assert(linksv[j as int] == links@[j as int]@);
                assert(linksv.take(j + 1) =~= linksv.take(j as int).push(linksv[j as int]));
                lemma_enqueue_snoc(page.full@, page.host@, linksv.take(j as int), linksv[j as int]);
                lemma_enqueue_one(page.full@, page.host@, linksv[j as int]);
            }
            match crate::urls::resolve_link(&page.full, &links[j]) {
                Some(u) => {
                    if crate::bytes::eq_bytes(&u.host, &page.host) {
                        let ghost uv = u@;
                        self.frontier.push(u);
                        proof {
                            assert(urls_of(self.frontier@) =~= pre.push(uv));
                            assert(spec_enqueue(page.full@, page.host@, seq![linksv[j as int]])
                                =~= seq![uv]);
                            assert(urls_of(self.frontier@) =~= urls_of(old(self).frontier@)
                                + spec_enqueue(page.full@, page.host@, linksv.take(j + 1)));
                        }
                    } else {
                        proof {
                            assert(spec_enqueue(page.full@, page.host@, seq![linksv[j as int]])
                                =~= Seq::<(Seq<u8>, Seq<u8>, Seq<u8>)>::empty());
                            assert(urls_of(self.frontier@) =~= urls_of(old(self).frontier@)
                                + spec_enqueue(page.full@, page.host@, linksv.take(j + 1)));
                        }
                    }
                },
                None => {
                    proof {
                        assert(spec_enqueue(page.full@, page.host@, seq![linksv[j as int]])
                            =~= Seq::<(Seq<u8>, Seq<u8>, Seq<u8>)>::empty());
                        assert(urls_of(self.frontier@) =~= urls_of(old(self).frontier@)
                            + spec_enqueue(page.full@, page.host@, linksv.take(j + 1)));
                    }
                },
            }
            j += 1;
        }
        proof {
            assert(linksv.take(n as int) =~= linksv);
        }
    }
}

} // verus!
