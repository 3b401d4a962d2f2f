use crawler_rs::links::{extract_links, is_html_content_type};
use crawler_rs::weburl::WebUrl;

fn url(s: &str) -> WebUrl {
    WebUrl::parse(s).expect("test address parses")
}

#[test]
fn parse_reads_the_parts_of_an_address() {
    let u = url("HTTPS://Example.com/a/b?x=1#top");
    assert_eq!(u.as_str(), "https://example.com/a/b?x=1#top");
    assert_eq!(u.scheme(), "https");
    assert_eq!(u.domain(), Some("example.com"));
    assert_eq!(u.path(), "/a/b");
}

#[test]
fn parse_refuses_a_relative_address() {
    assert!(WebUrl::parse("/only/a/path").is_none());
    assert!(WebUrl::parse("not a url").is_none());
}

#[test]
fn parse_gives_no_domain_for_an_ip_host() {
    let u = url("http://127.0.0.1/x");
    assert_eq!(u.domain(), None);
}

#[test]
fn join_resolves_against_the_base() {
    let base = url("https://example.net/a/b");
    assert_eq!(base.join("c.png").unwrap().as_str(), "https://example.net/a/c.png");
    assert_eq!(base.join("/v1/meta").unwrap().as_str(), "https://example.net/v1/meta");
    assert_eq!(base.join("//eve.com/b").unwrap().as_str(), "https://eve.com/b");
    assert_eq!(base.join("http://eve.com/b").unwrap().as_str(), "http://eve.com/b");
}

#[test]
fn without_fragment_and_query_strip_the_parts() {
    let u = url("https://example.com/page?action=edit#header");
    let f = u.without_fragment();
    assert_eq!(f.as_str(), "https://example.com/page?action=edit");
    let q = f.without_query();
    assert_eq!(q.as_str(), "https://example.com/page");
    let q2 = u.without_query();
    assert_eq!(q2.as_str(), "https://example.com/page#header");
}

#[test]
fn same_as_compares_serializations() {
    let a = url("https://example.com");
    let b = url("https://example.com/");
    let c = url("https://example.com/other");
    assert!(a.same_as(&b));
    assert!(!a.same_as(&c));
    assert!(a.duplicate().same_as(&a));
}

#[test]
fn extract_links_resolves_filters_and_dedups() {
    let base = url("https://example.com/dir/page.html");
    let html = r##"<html><body>
        <a href="other.html">relative</a>
        <a href="/root#section">fragment</a>
        <a href="https://example.org/watch?v=1">query</a>
        <a href="mailto:someone@example.com">mail</a>
        <a href="ftp://files.example.com/x">ftp</a>
        <a>no href</a>
        <a href="other.html#again">duplicate</a>
        <a href="http://plain.example.com/">plain http</a>
    </body></html>"##;
    let links = extract_links(&base, html);
    let got: Vec<&str> = links.iter().map(|u| u.as_str()).collect();
    assert_eq!(
        got,
        vec![
            "https://example.com/dir/other.html",
            "https://example.com/root",
            "https://example.org/watch",
            "http://plain.example.com/",
        ]
    );
}

#[test]
fn extract_links_of_a_page_without_anchors_is_empty() {
    let base = url("https://example.com/");
    assert!(extract_links(&base, "<p>no links here</p>").is_empty());
    assert!(extract_links(&base, "").is_empty());
}

#[test]
fn content_type_decides_whether_a_page_is_html() {
    assert!(is_html_content_type(Some("text/html")));
    assert!(is_html_content_type(Some("text/html; charset=utf-8")));
    assert!(!is_html_content_type(Some("application/json")));
    assert!(!is_html_content_type(Some("text/htm")));
    assert!(!is_html_content_type(Some("")));
    assert!(!is_html_content_type(None));
}
