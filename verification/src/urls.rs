//! The crate's own model of a parsed URL: the full serialization, the host
//! (domain) and the path, each held as plain bytes. Parsing and reference
//! resolution are done by the `url` crate behind two trusted wrappers; all
//! logic that reads a URL works on the plain fields and is verified.

use vstd::prelude::*;

verus! {

/// A URL with a domain host, reduced to the three strings the crawl logic
/// reads: the full serialization, the host, and the path.
pub struct PageUrl {
    pub full: Vec<u8>,
    pub host: Vec<u8>,
    pub path: Vec<u8>,
}

impl View for PageUrl {
    type V = (Seq<u8>, Seq<u8>, Seq<u8>);

    open spec fn view(&self) -> Self::V {
        (self.full@, self.host@, self.path@)
    }
}

/// The (serialization, domain, path) that parsing a URL string yields, or
/// `None` when the string does not parse to a URL with a domain. The value
/// depends on the input string alone; it is pinned down only by the trusted
/// wrapper around the `url` crate.
pub uninterp spec fn parsed_url(s: Seq<u8>) -> Option<(Seq<u8>, Seq<u8>, Seq<u8>)>;

/// The (serialization, domain, path) that resolving `link` against the URL
/// serialized as `base` yields, or `None` when resolution fails or the result
/// has no domain. A function of the two strings alone.
pub uninterp spec fn joined_url(base: Seq<u8>, link: Seq<u8>) -> Option<(Seq<u8>, Seq<u8>, Seq<u8>)>;

/// Relies on `url::Url::parse`, reading the result through `Url::as_str`,
/// `Url::domain` and `Url::path`: all are functions of the input string
/// alone. `None` covers a parse error, a non-UTF-8 input, and a URL whose
/// host is absent or not a domain. The `url` crate's parser gives a URL
/// with a host either an empty path (possible for a non-special scheme) or
/// one led by a `/` slash; only that much is claimed of the path.
#[verifier::external_body]
fn parse_url(s: &Vec<u8>) -> (r: Option<PageUrl>)
    ensures
        match r {
            Some(u) => parsed_url(s@) == Some(u@) && (u.path@.len() >= 1 ==> u.path@[0]
                == 47u8),
            None => parsed_url(s@) is None,
        },
{
    let txt = match core::str::from_utf8(s) {
        Ok(t) => t,
        Err(_) => return None,
    };
    let u = match url::Url::parse(txt) {
        Ok(u) => u,
        Err(_) => return None,
    };
    let host = u.domain()?.as_bytes().to_vec();
    Some(PageUrl { full: u.as_str().as_bytes().to_vec(), host, path: u.path().as_bytes().to_vec() })
}

/// Relies on `url::Url::join` (standard base-URL reference resolution),
/// after re-parsing the base URL's own serialization with `url::Url::parse`;
/// the result is read as in `parse_url` and depends on the two strings
/// alone. `None` covers any failure along the way and a result without a
/// domain host.
#[verifier::external_body]
fn join_url(base: &Vec<u8>, link: &Vec<u8>) -> (r: Option<PageUrl>)
    ensures
        match r {
            Some(u) => joined_url(base@, link@) == Some(u@) && (u.path@.len() >= 1 ==> u.path@[0]
                == 47u8),
            None => joined_url(base@, link@) is None,
        },
{
    let b = core::str::from_utf8(base).ok()?;
    let l = core::str::from_utf8(link).ok()?;
    let parsed = url::Url::parse(b).ok()?;
    let joined = parsed.join(l).ok()?;
    let host = joined.domain()?.as_bytes().to_vec();
    Some(PageUrl { full: joined.as_str().as_bytes().to_vec(), host, path: joined.path().as_bytes().to_vec() })
}

/// Parses a seed or candidate URL string into the crate's model.
pub fn parse_page_url(s: &Vec<u8>) -> (r: Option<PageUrl>)
    ensures
        match r {
            Some(u) => parsed_url(s@) == Some(u@) && (u.path@.len() >= 1 ==> u.path@[0]
                == 47u8),
            None => parsed_url(s@) is None,
        },
{
    parse_url(s)
}

/// Resolves a link found on a page against that page's URL.
pub fn resolve_link(base: &Vec<u8>, link: &Vec<u8>) -> (r: Option<PageUrl>)
    ensures
        match r {
            Some(u) => joined_url(base@, link@) == Some(u@) && (u.path@.len() >= 1 ==> u.path@[0]
                == 47u8),
            None => joined_url(base@, link@) is None,
        },
{
    join_url(base, link)
}

} // verus!
