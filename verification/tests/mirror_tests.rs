use webmirror::engine::{CrawlEngine, is_html_content_type};
use webmirror::urls::parse_page_url;
use webmirror::paths::{map_url_to_path, make_relative, is_html_file};
use webmirror::extract::extract_links;
use webmirror::rewrite::{rewrite_links, is_clean};

fn v(s: &str) -> Vec<u8> {
    s.as_bytes().to_vec()
}

fn s(b: &[u8]) -> String {
    String::from_utf8(b.to_vec()).unwrap()
}

/// Drives a crawl over an in-memory site: each page is (url, content-type,
/// body). Returns the fetched URLs in order and the stored local paths.
fn run_crawl(
    seed: &str,
    pages: &[(&str, &str, &str)],
    reject: Option<&str>,
    exclude: Option<&str>,
) -> (Vec<String>, Vec<String>) {
    let seed_url = parse_page_url(&v(seed)).expect("seed must parse");
    let mut eng = CrawlEngine::new(
        seed_url,
        reject.map(v),
        exclude.map(v),
        false,
    );
    let mut fetched: Vec<String> = Vec::new();
    let mut stored: Vec<String> = Vec::new();
    while let Some(u) = eng.next_url() {
        let full = s(&u.full);
        fetched.push(full.clone());
        let page = pages.iter().find(|p| p.0 == full);
        let (ct, body) = match page {
            Some(p) => (v(p.1), v(p.2)),
            None => continue, // fetch failed: branch abandoned, siblings go on
        };
        if let Some(path) = eng.plan_store(&u) {
            stored.push(s(&path));
        } else {
            continue;
        }
        if is_html_content_type(&ct) {
            eng.enqueue_links(&u, &body);
        }
    }
    (fetched, stored)
}

#[test]
fn crawl_fetches_each_url_once() {
    // The seed links to itself and to a sibling that links back: every
    // distinct reachable URL is fetched exactly once.
    let (fetched, _) = run_crawl(
        "https://ex.com/",
        &[
            (
                "https://ex.com/",
                "text/html",
                "<a href=\"/\">me</a> <a href=\"/b.html\">b</a>",
            ),
            (
                "https://ex.com/b.html",
                "text/html",
                "<a href=\"/\">back</a>",
            ),
        ],
        None,
        None,
    );
    assert_eq!(fetched.len(), 2);
    assert!(fetched.contains(&"https://ex.com/".to_string()));
    assert!(fetched.contains(&"https://ex.com/b.html".to_string()));
}

#[test]
fn crawl_never_leaves_the_domain() {
    let (fetched, _) = run_crawl(
        "https://ex.com/",
        &[
            (
                "https://ex.com/",
                "text/html",
                "<a href=\"/a.html\">in</a> <a href=\"https://other.org/x.html\">out</a>",
            ),
            ("https://ex.com/a.html", "text/html", "nothing"),
        ],
        None,
        None,
    );
    assert_eq!(fetched.len(), 2);
    for u in &fetched {
        assert!(u.starts_with("https://ex.com/"));
    }
}

#[test]
fn reject_token_skips_matching_extension() {
    let (fetched, _) = run_crawl(
        "https://ex.com/",
        &[
            (
                "https://ex.com/",
                "text/html",
                "<a href=\"/report.pdf\">p</a> <a href=\"/report.html\">h</a>",
            ),
            ("https://ex.com/report.html", "text/html", "done"),
            ("https://ex.com/report.pdf", "application/pdf", "binary"),
        ],
        Some("pdf"),
        None,
    );
    assert!(fetched.contains(&"https://ex.com/report.html".to_string()));
    assert!(!fetched.contains(&"https://ex.com/report.pdf".to_string()));
}

#[test]
fn excluded_directory_is_never_fetched_or_stored() {
    let (fetched, stored) = run_crawl(
        "https://ex.com/",
        &[
            (
                "https://ex.com/",
                "text/html",
                "<a href=\"/private/secret.html\">s</a> <a href=\"/pub.html\">p</a>",
            ),
            ("https://ex.com/pub.html", "text/html", "fine"),
            ("https://ex.com/private/secret.html", "text/html", "hidden"),
        ],
        None,
        Some("/private"),
    );
    assert!(!fetched.contains(&"https://ex.com/private/secret.html".to_string()));
    for p in &stored {
        assert!(!p.starts_with("ex.com/private"));
    }
    assert!(stored.contains(&"ex.com/pub.html".to_string()));
}

#[test]
fn path_mapping_round_trip() {
    let root_page = parse_page_url(&v("https://example.com/")).unwrap();
    assert_eq!(
        s(&map_url_to_path(&v("example.com"), &root_page.path)),
        "example.com/index.html"
    );
    let deep = parse_page_url(&v("https://example.com/a/b.html")).unwrap();
    assert_eq!(
        s(&map_url_to_path(&v("example.com"), &deep.path)),
        "example.com/a/b.html"
    );
}

#[test]
fn rewrite_is_idempotent_on_a_tree() {
    let files = vec![
        "<a href=\"https://ex.com/a/b.html\">x</a> <img src=\"https://ex.com/i.png\"> text",
        "<a href='http://ex.com'>root</a> plain text with no links",
        "no links at all",
    ];
    for f in files {
        let once = rewrite_links(&v(f));
        let twice = rewrite_links(&once);
        assert_eq!(once, twice);
        assert!(is_clean(&once));
    }
}

#[test]
fn end_to_end_mirror_and_conversion() {
    let index_body = "<a href=\"/a.html\">a</a> <img src=\"https://ex.com/img.png\">";
    let (fetched, stored) = run_crawl(
        "https://ex.com/",
        &[
            ("https://ex.com/", "text/html", index_body),
            ("https://ex.com/a.html", "text/html", "leaf"),
            ("https://ex.com/img.png", "image/png", "pngbytes"),
        ],
        None,
        None,
    );
    assert_eq!(fetched.len(), 3);
    assert!(stored.contains(&"ex.com/index.html".to_string()));
    assert!(stored.contains(&"ex.com/a.html".to_string()));
    assert!(stored.contains(&"ex.com/img.png".to_string()));
    let converted = s(&rewrite_links(&v(index_body)));
    assert!(!converted.contains("https://ex.com"));
    assert!(converted.contains("a.html"));
    assert!(converted.contains("img.png"));
}

#[test]
fn extract_links_in_document_order() {
    let body = "<img src='one.png'> <a href=\"two.html\">t</a> <a href=''>empty</a>";
    let links = extract_links(&v(body));
    assert_eq!(links.len(), 2);
    assert_eq!(s(&links[0]), "one.png");
    assert_eq!(s(&links[1]), "two.html");
}

#[test]
fn extract_survives_malformed_markup() {
    let body = "<a href=\"unterminated <a href=broken src= <img";
    let links = extract_links(&v(body));
    assert_eq!(links.len(), 0);
}

#[test]
fn resolve_keeps_host_and_absolutizes() {
    let base = parse_page_url(&v("https://ex.com/dir/page.html")).unwrap();
    let resolved = webmirror::urls::resolve_link(&base.full, &v("sub/other.html")).unwrap();
    assert_eq!(s(&resolved.full), "https://ex.com/dir/sub/other.html");
    assert_eq!(s(&resolved.host), "ex.com");
    assert_eq!(s(&resolved.path), "/dir/sub/other.html");
}

#[test]
fn make_relative_matches_inverse_mapping() {
    assert_eq!(s(&make_relative(&v("https://ex.com/a/b.html"))), "a/b.html");
    assert_eq!(s(&make_relative(&v("https://ex.com/"))), "index.html");
    assert_eq!(s(&make_relative(&v("http://ex.com"))), "index.html");
    assert_eq!(s(&make_relative(&v("https://ex.com/x.html?q=1"))), "x.html");
    assert_eq!(s(&make_relative(&v("not-a-url"))), "not-a-url");
}

#[test]
fn html_detection_for_rewrite_pass() {
    assert!(is_html_file(&v("ex.com/a/b.html")));
    assert!(!is_html_file(&v("ex.com/a/img.png")));
    assert!(!is_html_file(&v("ex.com/a/.html")));
    assert!(!is_html_file(&v("ex.com/noext")));
    assert!(is_html_content_type(&v("text/html; charset=utf-8")));
    assert!(!is_html_content_type(&v("image/png")));
}

#[test]
fn ineligible_seed_costs_zero_fetches() {
    let (fetched, stored) = run_crawl(
        "https://ex.com/private/x.html",
        &[("https://ex.com/private/x.html", "text/html", "hidden")],
        None,
        Some("/private"),
    );
    assert_eq!(fetched.len(), 0);
    assert_eq!(stored.len(), 0);
}

#[test]
fn multiple_reject_tokens_are_or_combined() {
    let (fetched, _) = run_crawl(
        "https://ex.com/",
        &[
            (
                "https://ex.com/",
                "text/html",
                "<a href=\"/a.zip\">z</a> <a href=\"/a.pdf\">p</a> <a href=\"/a.txt\">t</a>",
            ),
            ("https://ex.com/a.txt", "text/plain", "text"),
        ],
        Some("pdf,zip"),
        None,
    );
    assert!(fetched.contains(&"https://ex.com/a.txt".to_string()));
    assert!(!fetched.contains(&"https://ex.com/a.zip".to_string()));
    assert!(!fetched.contains(&"https://ex.com/a.pdf".to_string()));
}

#[test]
fn unparseable_or_domainless_urls_give_none() {
    assert!(parse_page_url(&v("not a url")).is_none());
    assert!(parse_page_url(&v("http://127.0.0.1/x")).is_none());
    let host = parse_page_url(&v("https://sub.ex.com/a")).unwrap();
    assert_eq!(s(&host.host), "sub.ex.com");
}

#[test]
fn subdomain_is_a_different_domain() {
    let (fetched, _) = run_crawl(
        "https://ex.com/",
        &[
            (
                "https://ex.com/",
                "text/html",
                "<a href=\"https://sub.ex.com/x.html\">sub</a>",
            ),
            ("https://sub.ex.com/x.html", "text/html", "other"),
        ],
        None,
        None,
    );
    assert_eq!(fetched, vec!["https://ex.com/".to_string()]);
}

#[test]
fn make_relative_reads_the_parsed_path() {
    assert_eq!(s(&make_relative(&v("ftp://ex.com/pub/file"))), "pub/file");
    assert_eq!(
        s(&make_relative(&v("https://ex.com/a/../b.html"))),
        "b.html"
    );
}
