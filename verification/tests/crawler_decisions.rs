use crawler_rs::crawler::{
    task_report, user_agent, CrawlCommand, CrawlError, CrawlManager, CrawlRequest, CrawlResponse,
    FetchOutcome, ManagerAction, ManagerEvent,
};
use crawler_rs::weburl::WebUrl;

fn url(s: &str) -> WebUrl {
    WebUrl::parse(s).expect("test address parses")
}

fn request(s: &str, depth: i8) -> CrawlRequest {
    CrawlRequest { source: url(s), depth }
}

#[test]
fn error_names() {
    assert_eq!(CrawlError::Network("x".into()).name(), "Network");
    assert_eq!(CrawlError::Timeout.name(), "Timeout");
    assert_eq!(CrawlError::ParseHtml("x".into()).name(), "Parse");
    assert_eq!(CrawlError::TaskPanic("x".into()).name(), "Task");
    assert_eq!(CrawlError::Other("x".into()).name(), "Other");
}

#[test]
fn error_messages() {
    assert_eq!(CrawlError::Network("refused".into()).message(), "Network error: refused");
    assert_eq!(CrawlError::Timeout.message(), "Connection timed out");
    assert_eq!(CrawlError::ParseHtml("bad".into()).message(), "HTML parsing failed: bad");
    assert_eq!(CrawlError::TaskPanic("boom".into()).message(), "Tokio task panic: boom");
    assert_eq!(CrawlError::Other("?".into()).message(), "Unknown error: ?");
}

#[test]
fn user_agent_names_the_repository() {
    assert_eq!(user_agent(), "Crawler-rs/0.1 (https://github.com/raydroplet/crawler-rs");
}

#[test]
fn negative_depth_is_ignored() {
    let mut m = CrawlManager::new();
    let a = m.step(ManagerEvent::Request(request("https://a.example/", -1)));
    assert!(matches!(a, ManagerAction::Ignore));
    // the page was not marked as visited
    let a = m.step(ManagerEvent::Request(request("https://a.example/", 0)));
    assert!(matches!(a, ManagerAction::Fetch(_)));
}

#[test]
fn a_page_is_fetched_once() {
    let mut m = CrawlManager::new();
    match m.step(ManagerEvent::Request(request("https://a.example/x", 2))) {
        ManagerAction::Fetch(r) => {
            assert_eq!(r.source.as_str(), "https://a.example/x");
            assert_eq!(r.depth, 2);
        }
        _ => panic!("expected a fetch"),
    }
    match m.step(ManagerEvent::Request(request("https://a.example/x", 1))) {
        ManagerAction::Skip(u) => assert_eq!(u.as_str(), "https://a.example/x"),
        _ => panic!("expected a skip"),
    }
    let a = m.step(ManagerEvent::Request(request("https://a.example/y", 1)));
    assert!(matches!(a, ManagerAction::Fetch(_)));
}

#[test]
fn a_run_fetches_each_page_at_most_once() {
    let mut m = CrawlManager::new();
    let pages = ["https://a.example/", "https://b.example/", "https://a.example/", "https://c.example/", "https://b.example/"];
    let mut fetched = Vec::new();
    for p in pages {
        if let ManagerAction::Fetch(r) = m.step(ManagerEvent::Request(request(p, 1))) {
            fetched.push(r.source.as_str().to_string());
        }
    }
    assert_eq!(fetched, vec!["https://a.example/", "https://b.example/", "https://c.example/"]);
}

#[test]
fn a_branch_queues_its_links_one_level_shallower() {
    let mut m = CrawlManager::new();
    let links = vec![url("https://l1.example/"), url("https://l2.example/")];
    match m.step(ManagerEvent::Branch(url("https://p.example/"), 3, links)) {
        ManagerAction::Queue(page, count, requests) => {
            assert_eq!(page.as_str(), "https://p.example/");
            assert_eq!(count, 2);
            assert_eq!(requests.len(), 2);
            assert_eq!(requests[0].source.as_str(), "https://l1.example/");
            assert_eq!(requests[1].source.as_str(), "https://l2.example/");
            assert!(requests.iter().all(|r| r.depth == 2));
        }
        _ => panic!("expected a queue"),
    }
}

#[test]
fn reports_panics_and_termination() {
    let mut m = CrawlManager::new();
    match m.step(ManagerEvent::Skipped(url("https://s.example/"))) {
        ManagerAction::Report(CrawlResponse::Skipped(u)) => assert_eq!(u.as_str(), "https://s.example/"),
        _ => panic!("expected a skipped report"),
    }
    match m.step(ManagerEvent::Error(url("https://e.example/"), CrawlError::Timeout)) {
        ManagerAction::Report(CrawlResponse::Error(u, CrawlError::Timeout)) => assert_eq!(u.as_str(), "https://e.example/"),
        _ => panic!("expected an error report"),
    }
    assert!(matches!(m.step(ManagerEvent::TaskPanic("join".into())), ManagerAction::Ignore));
    assert!(matches!(m.step(ManagerEvent::Terminate), ManagerAction::Stop));
}

#[test]
fn commands_become_events() {
    let e = CrawlCommand::Request(request("https://a.example/", 1)).into_event();
    assert!(matches!(e, Some(ManagerEvent::Request(r)) if r.depth == 1));
    assert!(CrawlCommand::Terminate.into_event().is_none());
}

#[test]
fn task_report_of_a_fetched_page_branches_when_depth_is_left() {
    let links = vec![url("https://l.example/")];
    let r = task_report(request("https://p.example/", 1), FetchOutcome::Fetched(200, "<html/>".into(), links), 10, 20);
    assert_eq!(r.events.len(), 1);
    match &r.events[0] {
        ManagerEvent::Branch(u, d, l) => {
            assert_eq!(u.as_str(), "https://p.example/");
            assert_eq!(*d, 1);
            assert_eq!(l.len(), 1);
        }
        _ => panic!("expected a branch"),
    }
    let page = r.page.expect("a page");
    assert_eq!(page.metadata.url.as_str(), "https://p.example/");
    assert_eq!(page.metadata.status, 200);
    assert_eq!(page.metadata.timestamp_start, 10);
    assert_eq!(page.metadata.timestamp_end, 20);
    assert_eq!(page.metadata.discovered_links.len(), 1);
    assert_eq!(page.content, "<html/>");
}

#[test]
fn task_report_of_a_fetched_page_at_depth_zero_does_not_branch() {
    let r = task_report(request("https://p.example/", 0), FetchOutcome::Fetched(404, String::new(), vec![]), 0, 0);
    assert!(r.events.is_empty());
    assert_eq!(r.page.expect("a page").metadata.status, 404);
}

#[test]
fn task_report_of_failures() {
    let r = task_report(request("https://p.example/", 1), FetchOutcome::NotHtml, 0, 0);
    assert!(r.page.is_none());
    assert_eq!(r.events.len(), 2);
    assert!(r.events.iter().all(|e| matches!(e, ManagerEvent::Skipped(u) if u.as_str() == "https://p.example/")));

    let r = task_report(request("https://p.example/", 1), FetchOutcome::NetworkFailure("dns".into()), 0, 0);
    assert!(r.page.is_none());
    assert!(matches!(&r.events[0], ManagerEvent::Error(_, CrawlError::Network(m)) if m == "dns"));
    assert!(matches!(&r.events[1], ManagerEvent::Skipped(_)));

    let r = task_report(request("https://p.example/", 1), FetchOutcome::ExtractionFailure("panic".into()), 0, 0);
    assert!(matches!(&r.events[0], ManagerEvent::TaskPanic(m) if m == "panic"));
    assert!(matches!(&r.events[1], ManagerEvent::Skipped(_)));

    let r = task_report(request("https://p.example/", 1), FetchOutcome::NoPermit, 0, 0);
    assert_eq!(r.events.len(), 1);
    assert!(matches!(&r.events[0], ManagerEvent::Skipped(_)));
}

#[test]
fn a_repeated_request_in_a_run_is_reported_skipped() {
    let mut m = CrawlManager::new();
    let first = m.step(ManagerEvent::Request(request("https://a.example/", 3)));
    assert!(matches!(first, ManagerAction::Fetch(_)));
    let _ = m.step(ManagerEvent::Request(request("https://b.example/", 1)));
    let skip = m.step(ManagerEvent::Request(request("https://a.example/", 0)));
    let u = match skip {
        ManagerAction::Skip(u) => u,
        _ => panic!("expected a skip"),
    };
    assert_eq!(u.as_str(), "https://a.example/");
    match m.step(ManagerEvent::Skipped(u)) {
        ManagerAction::Report(CrawlResponse::Skipped(v)) => assert_eq!(v.as_str(), "https://a.example/"),
        _ => panic!("expected a report"),
    }
}

/// Runs a crawl to the end, every fetch bringing back the page's links from
/// `site`; gives the fetched pages with their depths, in order.
fn crawl_site(start: &str, depth: i8, site: &[(&str, &[&str])]) -> Vec<(String, i8)> {
    let mut m = CrawlManager::new();
    let mut pending = vec![ManagerEvent::Request(request(start, depth))];
    let mut fetched = Vec::new();
    while !pending.is_empty() {
        let event = pending.remove(0);
        match m.step(event) {
            ManagerAction::Fetch(r) => {
                fetched.push((r.source.as_str().to_string(), r.depth));
                let links: Vec<WebUrl> = site
                    .iter()
                    .find(|(p, _)| *p == r.source.as_str())
                    .map(|(_, ls)| ls.iter().map(|l| url(l)).collect())
                    .unwrap_or_default();
                let report = task_report(r, FetchOutcome::Fetched(200, String::new(), links), 0, 0);
                pending.extend(report.events);
            }
            ManagerAction::Queue(_, _, requests) => {
                pending.extend(requests.into_iter().map(ManagerEvent::Request));
            }
            ManagerAction::Skip(u) => pending.push(ManagerEvent::Skipped(u)),
            _ => {}
        }
    }
    fetched
}

#[test]
fn a_crawl_reaches_pages_within_its_depth() {
    let site: &[(&str, &[&str])] = &[
        ("https://a.example/", &["https://b.example/", "https://a.example/"]),
        ("https://b.example/", &["https://c.example/"]),
        ("https://c.example/", &["https://d.example/"]),
    ];
    assert_eq!(
        crawl_site("https://a.example/", 1, site),
        vec![("https://a.example/".to_string(), 1), ("https://b.example/".to_string(), 0)]
    );
    assert_eq!(crawl_site("https://a.example/", 0, site), vec![("https://a.example/".to_string(), 0)]);
    assert_eq!(crawl_site("https://a.example/", 5, site).len(), 4);
}
