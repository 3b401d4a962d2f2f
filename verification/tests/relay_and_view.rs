use crawler_rs::app::{page_markdown, App, AppRequest, AppResponse, CrawlEvent, Relay, RelayAction};
use crawler_rs::clock::format_timestamp;
use crawler_rs::crawler::{CrawlCommand, CrawlError, CrawlRequest, CrawlResponse, PageMetadata, ParserResult};
use crawler_rs::gui::{
    status_class, Controls, FixedWidthEdgeShape, GraphChange, LeftTab, MarkdownDisplay, NodeData,
    StatusClass, ViewState, TABS_ENTRY_COUNT,
};
use crawler_rs::weburl::WebUrl;

fn url(s: &str) -> WebUrl {
    WebUrl::parse(s).expect("test address parses")
}

fn metadata(page: &str, status: u16, links: &[&str], start: i128, end: i128) -> PageMetadata {
    PageMetadata {
        url: url(page),
        status,
        timestamp_start: start,
        timestamp_end: end,
        discovered_links: links.iter().map(|l| url(l)).collect(),
    }
}

fn page_response(page: &str, status: u16, links: &[&str]) -> AppResponse {
    AppResponse::Crawler(CrawlEvent::Page(metadata(page, status, links, 1_000_000_000, 1_250_000_000)))
}

#[test]
fn app_new_makes_an_app() {
    let _app: App = App::new();
}

#[test]
fn markdown_of_html() {
    let md = page_markdown("<h1>Hello World</h1>");
    assert!(md.contains("Hello World"));
    assert!(md.contains('#'));
}

#[test]
fn relay_forwards_commands() {
    let relay = Relay::new();
    let a = relay.on_view_request(AppRequest::Crawler(CrawlCommand::Terminate));
    assert!(matches!(a, RelayAction::ToCrawler(CrawlCommand::Terminate)));
}

#[test]
fn relay_answers_markdown_only_for_kept_pages() {
    let mut relay = Relay::new();
    let a = relay.on_view_request(AppRequest::Markdown(url("https://p.example/")));
    assert!(matches!(a, RelayAction::Nothing));

    let page = ParserResult { metadata: metadata("https://p.example/", 200, &[], 0, 0), content: "<h1>First</h1>".into() };
    let a = relay.on_crawler_response(CrawlResponse::Page(page));
    assert!(matches!(a, RelayAction::ToView(AppResponse::Crawler(CrawlEvent::Page(m))) if m.url.as_str() == "https://p.example/"));

    match relay.on_view_request(AppRequest::Markdown(url("https://p.example/"))) {
        RelayAction::ToView(AppResponse::Markdown(u, text)) => {
            assert_eq!(u.as_str(), "https://p.example/");
            assert!(text.contains("First"));
        }
        _ => panic!("expected markdown"),
    }

    // the latest page of a URL replaces the one kept before
    let page = ParserResult { metadata: metadata("https://p.example/", 200, &[], 0, 0), content: "<h2>Second</h2>".into() };
    let _ = relay.on_crawler_response(CrawlResponse::Page(page));
    match relay.on_view_request(AppRequest::Markdown(url("https://p.example/"))) {
        RelayAction::ToView(AppResponse::Markdown(_, text)) => {
            assert!(text.contains("Second"));
            assert!(!text.contains("First"));
        }
        _ => panic!("expected markdown"),
    }
}

#[test]
fn relay_passes_other_responses_on() {
    let mut relay = Relay::new();
    assert!(matches!(
        relay.on_crawler_response(CrawlResponse::Queued(url("https://q.example/"), 3)),
        RelayAction::ToView(AppResponse::Crawler(CrawlEvent::Queued(_, 3)))
    ));
    assert!(matches!(
        relay.on_crawler_response(CrawlResponse::Skipped(url("https://q.example/"))),
        RelayAction::ToView(AppResponse::Crawler(CrawlEvent::Skipped(_)))
    ));
    assert!(matches!(
        relay.on_crawler_response(CrawlResponse::Error(url("https://q.example/"), CrawlError::Timeout)),
        RelayAction::ToView(AppResponse::Crawler(CrawlEvent::Error(_, CrawlError::Timeout)))
    ));
    // nothing was kept
    assert!(matches!(relay.on_view_request(AppRequest::Markdown(url("https://q.example/"))), RelayAction::Nothing));
}

#[test]
fn timestamps_show_the_time_of_day() {
    assert_eq!(format_timestamp(0), "00:00");
    assert_eq!(format_timestamp(3_661_000_000_000), "01:01");
    assert_eq!(format_timestamp(86_399_999_999_999), "23:59");
    assert_eq!(format_timestamp(86_400_000_000_000 + 45 * 60 * 1_000_000_000), "00:45");
    assert_eq!(format_timestamp(-1), "Time went backwards");
}

#[test]
fn status_classes() {
    assert!(status_class(200) == StatusClass::Success);
    assert!(status_class(299) == StatusClass::Success);
    assert!(status_class(301) == StatusClass::Other);
    assert!(status_class(404) == StatusClass::Failure);
    assert!(status_class(503) == StatusClass::Failure);
    assert!(status_class(600) == StatusClass::Other);
}

#[test]
fn edges_never_take_the_pointer() {
    assert!(!FixedWidthEdgeShape.is_inside());
}

#[test]
fn a_page_builds_the_graph() {
    let controls = Controls::new();
    let mut view = ViewState::new();
    let (changes, request) = view.on_response(
        &controls,
        page_response("https://p.example/home", 200, &["https://a.example/", "https://p.example/home", "https://b.example/"]),
    );
    assert!(request.is_none());
    assert_eq!(view.node_count(), 3);
    // the page, its two links; the self-link is an edge of the page to itself
    assert_eq!(view.edge_count(), 3);
    assert!(matches!(&changes[0], GraphChange::AddPage(0, u) if u.as_str() == "https://p.example/home"));
    assert!(matches!(&changes[1], GraphChange::AddLeaf(1, u, None) if u.as_str() == "https://a.example/"));
    assert!(matches!(&changes[2], GraphChange::AddEdge(0, 1)));
    assert!(matches!(&changes[3], GraphChange::AddEdge(0, 0)));
    assert!(matches!(&changes[4], GraphChange::AddLeaf(2, _, None)));
    assert!(matches!(&changes[5], GraphChange::AddEdge(0, 2)));
    assert_eq!(changes.len(), 6);

    // crawling a linked page turns its node into a page and links near it
    let (changes, _) = view.on_response(&controls, page_response("https://a.example/", 200, &["https://p.example/home", "https://c.example/"]));
    assert_eq!(view.node_count(), 4);
    assert!(matches!(&view.nodes()[1], NodeData::Page(m) if m.url.as_str() == "https://a.example/"));
    // the edge a-p already exists (edges have no direction)
    assert!(matches!(&changes[0], GraphChange::AddLeaf(3, _, Some(1))));
    assert!(matches!(&changes[1], GraphChange::AddEdge(1, 3)));
    assert_eq!(changes.len(), 2);
    assert_eq!(view.edge_count(), 4);
}

#[test]
fn a_page_fills_the_cards_and_counters() {
    let controls = Controls::new();
    let mut view = ViewState::new();
    let _ = view.on_response(&controls, page_response("https://p.example/x", 404, &["https://a.example/"]));
    let _ = view.on_response(&controls, page_response("https://p.example/x", 404, &["https://a.example/"]));
    let _ = view.on_response(&controls, page_response("https://q.example/", 200, &[]));
    assert_eq!(view.crawled_count(), 3);
    assert_eq!(view.average_crawl_millis(), 250);
    assert_eq!(view.hubs().len(), 2);
    assert_eq!(view.broken().len(), 1);
    assert_eq!(view.broken()[0].0, 404);
    let first = &view.activity()[0];
    assert_eq!(first.domain, "q.example");
    assert_eq!(first.path, "/");
    assert_eq!(first.timestamp, "00:00");
    assert_eq!(first.status, 200);
    assert_eq!(first.url().unwrap().as_str(), "https://q.example/");
}

#[test]
fn the_activity_tab_takes_new_pages_at_its_front() {
    let controls = Controls::new();
    let mut view = ViewState::new();
    let _ = view.on_response(&controls, page_response("https://p.example/", 200, &[]));
    let _ = view.on_response(&controls, AppResponse::Crawler(CrawlEvent::Skipped(url("https://s.example/"))));
    assert_eq!(view.activity().len(), 1);
    let _ = view.on_response(&controls, page_response("https://q.example/", 200, &[]));
    assert_eq!(view.activity().len(), 2);
    assert_eq!(view.activity()[0].domain, "q.example");
    assert_eq!(view.activity()[1].domain, "p.example");
}

#[test]
fn average_is_zero_before_any_page() {
    let view = ViewState::new();
    assert_eq!(view.average_crawl_millis(), 0);
}

#[test]
fn tabs_keep_at_most_their_capacity() {
    let controls = Controls::new();
    let mut view = ViewState::new();
    for i in 0..200usize {
        let _ = view.on_response(&controls, AppResponse::Crawler(CrawlEvent::Queued(url("https://q.example/"), i)));
        let _ = view.on_response(&controls, AppResponse::Crawler(CrawlEvent::Error(url("https://e.example/"), CrawlError::Timeout)));
        let _ = view.on_response(&controls, AppResponse::Crawler(CrawlEvent::Skipped(url("https://s.example/"))));
    }
    assert_eq!(view.queued().len(), TABS_ENTRY_COUNT);
    assert_eq!(view.errors().len(), TABS_ENTRY_COUNT);
    // newest first
    assert_eq!(view.queued()[0].0, 199);
    assert_eq!(view.queued()[TABS_ENTRY_COUNT - 1].0, 200 - TABS_ENTRY_COUNT);
    assert_eq!(view.queued_count(), 200);
    assert_eq!(view.skipped_count(), 200);
}

#[test]
fn selecting_a_node_refreshes_an_open_markdown_window() {
    let mut controls = Controls::new();
    let mut view = ViewState::new();
    let _ = view.on_response(&controls, page_response("https://p.example/", 200, &["https://a.example/"]));
    // window closed: no request
    assert!(view.select_node(&controls, 1).is_none());
    assert!(view.markdown_display() == MarkdownDisplay::OtherPage);
    // opening it asks for the selected page's text
    match view.toggle_markdown_window(&mut controls) {
        Some(AppRequest::Markdown(u)) => assert_eq!(u.as_str(), "https://a.example/"),
        _ => panic!("expected a markdown request"),
    }
    assert!(controls.show_markdown_window);
    match view.select_node(&controls, 0) {
        Some(AppRequest::Markdown(u)) => assert_eq!(u.as_str(), "https://p.example/"),
        _ => panic!("expected a markdown request"),
    }
    let _ = view.on_response(&controls, AppResponse::Markdown(url("https://p.example/"), "# text".into()));
    assert!(view.markdown_display() == MarkdownDisplay::Text);
    assert_eq!(view.markdown_text(), "# text");
    // a new crawl of the selected page refreshes the window
    let (_, request) = view.on_response(&controls, page_response("https://p.example/", 200, &[]));
    assert!(matches!(request, Some(AppRequest::Markdown(u)) if u.as_str() == "https://p.example/"));
    // a node that does not exist selects nothing
    assert!(view.select_node(&controls, 99).is_none());
    assert!(view.markdown_display() == MarkdownDisplay::NoSelection);
}

#[test]
fn outbound_links_and_leaf_crawls() {
    let controls = Controls::new();
    let mut view = ViewState::new();
    let _ = view.on_response(&controls, page_response("https://p.example/", 200, &["https://a.example/", "https://b.example/"]));
    let _ = view.select_node(&controls, 0);
    assert_eq!(view.outbound_links().map(|l| l.len()), Some(2));
    assert!(view.leaf_crawl_request().is_none());
    let _ = view.select_node(&controls, 2);
    assert!(view.outbound_links().is_none());
    match view.leaf_crawl_request() {
        Some(AppRequest::Crawler(CrawlCommand::Request(CrawlRequest { source, depth }))) => {
            assert_eq!(source.as_str(), "https://b.example/");
            assert_eq!(depth, 0);
        }
        _ => panic!("expected a crawl request"),
    }
}

#[test]
fn windows_and_panels() {
    let mut c = Controls::new();
    assert!(c.show_crawl_window);
    assert!(c.left_tab == LeftTab::Activity);
    c.toggle_about_window();
    assert!(c.show_about_window && !c.show_crawl_window);
    c.toggle_crawl_window();
    assert!(c.show_crawl_window && !c.show_about_window);
    c.toggle_crawl_window();
    assert!(!c.show_crawl_window && !c.show_about_window);
    c.toggle_panels();
    assert!(c.node_details_expanded && c.hubs_expanded && c.broken_expanded && c.graph_expanded);
    c.toggle_panels();
    assert!(!c.node_details_expanded && !c.hubs_expanded);
}

#[test]
fn crawl_from_input() {
    let mut c = Controls::new();
    c.crawl_input_url = String::from("not an address");
    assert!(c.crawl_from_input().is_none());
    assert!(c.show_crawl_window && !c.first_crawl);

    c.crawl_input_url = String::from("https://raydroplet.dev/");
    c.crawl_input_depth = 1;
    match c.crawl_from_input() {
        Some(AppRequest::Crawler(CrawlCommand::Request(r))) => {
            assert_eq!(r.source.as_str(), "https://raydroplet.dev/");
            assert_eq!(r.depth, 1);
        }
        _ => panic!("expected a crawl request"),
    }
    assert!(!c.show_crawl_window);
    assert!(c.first_crawl && c.node_details_expanded && c.hubs_expanded && c.broken_expanded && c.graph_expanded);
    // later crawls leave the cards as they are
    c.toggle_panels();
    c.show_crawl_window = true;
    assert!(c.crawl_from_input().is_some());
    assert!(!c.node_details_expanded);
}
