//! The interface's state and decisions: the page graph, the activity, queue
//! and error tabs, the hub and broken-page cards, the counters, the selection
//! and the windows. Drawing (with floating-point positions) stays outside; it
//! mirrors the graph from the changes that the state reports.

use vstd::prelude::*;
use crate::app::{AppRequest, AppRequestView, AppResponse, AppResponseView, CrawlEvent, CrawlEventView};
use crate::clock::{format_timestamp, timestamp_text};
use crate::crawler::{
    CommandView, CrawlCommand, CrawlError, CrawlRequest, ErrorView, MetadataView, PageMetadata,
    RequestView, duplicate_urls,
};
use crate::links::url_views;
use crate::weburl::{UrlView, WebUrl, spec_url_parse};

verus! {

/// How many entries each tab keeps.
pub const TABS_ENTRY_COUNT: usize = 128;

/// The tabs of the left panel.
#[derive(PartialEq, Eq, Structural, Clone, Copy)]
pub enum LeftTab {
    Activity,
    Queue,
    Errors,
}

/// What a node of the page graph stands for: a crawled page, or a page that
/// is only linked to.
pub enum NodeData {
    Page(PageMetadata),
    Leaf(WebUrl),
}

pub enum NodeView {
    Page(MetadataView),
    Leaf(UrlView),
}

impl View for NodeData {
    type V = NodeView;

    open spec fn view(&self) -> NodeView {
        match self {
            NodeData::Page(m) => NodeView::Page(m@),
            NodeData::Leaf(u) => NodeView::Leaf(u@),
        }
    }
}

/// The URL of the page a node stands for.
pub open spec fn node_url(n: NodeView) -> UrlView {
    match n {
        NodeView::Page(m) => m.url,
        NodeView::Leaf(u) => u,
    }
}

impl NodeData {
    /// The URL of the page this node stands for.
    pub fn url(&self) -> (res: &WebUrl)
        ensures
            res@ == node_url(self@),
    {
        match self {
            NodeData::Page(m) => &m.url,
            NodeData::Leaf(u) => u,
        }
    }
}

/// How the edges of the page graph are drawn: a thin line of fixed width
/// between the two nodes, whatever the zoom.
#[derive(Clone)]
pub struct FixedWidthEdgeShape;

impl FixedWidthEdgeShape {
    /// Edges drawn this way never take a pointer: clicks go to the nodes.
    pub fn is_inside(&self) -> (res: bool)
        ensures
            !res,
    {
        false
    }
}

/// A line of the activity tab.
pub struct ActivityMetadata {
    pub status: u16,
    pub domain: String,
    pub path: String,
    /// The time of day the crawl started, as `HH:MM`.
    pub timestamp: String,
}

pub struct ActivityView {
    pub status: u16,
    pub domain: Seq<char>,
    pub path: Seq<char>,
    pub timestamp: Seq<char>,
}

impl View for ActivityMetadata {
    type V = ActivityView;

    open spec fn view(&self) -> ActivityView {
        ActivityView { status: self.status, domain: self.domain@, path: self.path@, timestamp: self.timestamp@ }
    }
}

/// The address an activity line links to.
pub open spec fn activity_address(a: ActivityView) -> Seq<char> {
    "https://"@ + a.domain + a.path
}

impl ActivityMetadata {
    /// The URL that an activity line links to, rebuilt from its domain and
    /// path over `https` (`None` where that does not parse).
    pub fn url(&self) -> (res: Option<WebUrl>)
        ensures
            match res {
                Some(u) => spec_url_parse(activity_address(self@)) == Some(u@),
                None => spec_url_parse(activity_address(self@)) is None,
            },
    {
        let address = String::from_str("https://").concat(self.domain.as_str()).concat(self.path.as_str());
        WebUrl::parse(address.as_str())
    }
}

/// A change to mirror in the drawn graph.
pub enum GraphChange {
    /// A node for a crawled page, at the given index, labelled by its domain.
    AddPage(usize, WebUrl),
    /// A node for a linked page, at the given index, placed near the given
    /// node (near the origin where there is none).
    AddLeaf(usize, WebUrl, Option<usize>),
    /// An edge between two nodes.
    AddEdge(usize, usize),
}

pub enum ChangeView {
    AddPage(usize, UrlView),
    AddLeaf(usize, UrlView, Option<usize>),
    AddEdge(usize, usize),
}

impl View for GraphChange {
    type V = ChangeView;

    open spec fn view(&self) -> ChangeView {
        match self {
            GraphChange::AddPage(i, u) => ChangeView::AddPage(*i, u@),
            GraphChange::AddLeaf(i, u, n) => ChangeView::AddLeaf(*i, u@, *n),
            GraphChange::AddEdge(a, b) => ChangeView::AddEdge(*a, *b),
        }
    }
}

pub open spec fn change_views(v: Seq<GraphChange>) -> Seq<ChangeView> {
    v.map_values(|c: GraphChange| c@)
}

pub open spec fn node_views(v: Seq<NodeData>) -> Seq<NodeView> {
    v.map_values(|n: NodeData| n@)
}

/// The first node that stands for the page with serialization `s`.
pub open spec fn find_node(nodes: Seq<NodeView>, s: Seq<char>) -> Option<int>
    decreases nodes.len(),
{
    if nodes.len() == 0 {
        None
    } else {
        match find_node(nodes.drop_last(), s) {
            Some(i) => Some(i),
            None => if node_url(nodes.last()).serialization == s {
                Some(nodes.len() - 1)
            } else {
                None
            },
        }
    }
}

pub open spec fn opt_index(o: Option<usize>) -> Option<int> {
    match o {
        Some(i) => Some(i as int),
        None => None,
    }
}

/// Whether an edge joins the two nodes (edges have no direction).
pub open spec fn connected(edges: Seq<(usize, usize)>, a: usize, b: usize) -> bool {
    exists|k: int| 0 <= k < edges.len() && (edges[k] == (a, b) || edges[k] == (b, a))
}

/// Whether a status code reports success (200 to 299).
pub open spec fn is_success_status(status: u16) -> bool {
    200 <= status < 300
}

/// Whether a status code reports a client or a server error (400 to 599).
pub open spec fn is_error_status(status: u16) -> bool {
    400 <= status < 600
}

/// How a status code is shown.
#[derive(PartialEq, Eq, Structural, Clone, Copy)]
pub enum StatusClass {
    Success,
    Failure,
    Other,
}

/// How a status code is shown: success, client or server error, or other.
pub fn status_class(status: u16) -> (res: StatusClass)
    ensures
        res == (if is_success_status(status) {
            StatusClass::Success
        } else if is_error_status(status) {
            StatusClass::Failure
        } else {
            StatusClass::Other
        }),
{
    if 200 <= status && status < 300 {
        StatusClass::Success
    } else if 400 <= status && status < 600 {
        StatusClass::Failure
    } else {
        StatusClass::Other
    }
}

/// `x` in front of `s`, dropping the last entry beyond the tab's capacity.
pub open spec fn bounded_push_front<T>(s: Seq<T>, x: T) -> Seq<T> {
    let t = seq![x] + s;
    if t.len() > TABS_ENTRY_COUNT {
        t.drop_last()
    } else {
        t
    }
}

/// The activity line of a crawled page.
pub open spec fn activity_entry(meta: MetadataView) -> ActivityView {
    ActivityView {
        status: meta.status,
        domain: match meta.url.domain {
            Some(d) => d,
            None => "None"@,
        },
        path: meta.url.path,
        timestamp: timestamp_text(meta.timestamp_start),
    }
}

/// The milliseconds a page's crawl took.
pub open spec fn crawl_millis(meta: MetadataView) -> int {
    (meta.timestamp_end - meta.timestamp_start) / 1_000_000
}

/// The state of the interface that its decisions read and change.
pub struct ViewModel {
    pub nodes: Seq<NodeView>,
    pub edges: Seq<(usize, usize)>,
    pub selected: Option<usize>,
    pub markdown_text: Seq<char>,
    pub markdown_url: Option<UrlView>,
    pub activity: Seq<ActivityView>,
    pub queued: Seq<(usize, UrlView)>,
    pub errors: Seq<(UrlView, ErrorView)>,
    /// Each crawled page with its number of links (by serialization).
    pub hubs: Set<(usize, Seq<char>)>,
    /// Each crawled page answered with an error status (by serialization).
    pub broken: Set<(u16, Seq<char>)>,
    pub crawled: usize,
    pub queued_count: usize,
    pub skipped: usize,
    /// The sum of the crawl times of the crawled pages, in milliseconds.
    pub crawl_millis_sum: u128,
}

pub open spec fn queued_view_fn() -> spec_fn((usize, WebUrl)) -> (usize, UrlView) {
    |p: (usize, WebUrl)| (p.0, p.1@)
}

pub open spec fn error_view_fn() -> spec_fn((WebUrl, CrawlError)) -> (UrlView, ErrorView) {
    |p: (WebUrl, CrawlError)| (p.0@, p.1@)
}

pub open spec fn activity_view_fn() -> spec_fn(ActivityMetadata) -> ActivityView {
    |a: ActivityMetadata| a@
}

pub open spec fn queued_views(v: Seq<(usize, WebUrl)>) -> Seq<(usize, UrlView)> {
    v.map_values(queued_view_fn())
}

pub open spec fn error_views(v: Seq<(WebUrl, CrawlError)>) -> Seq<(UrlView, ErrorView)> {
    v.map_values(error_view_fn())
}

pub open spec fn activity_views(v: Seq<ActivityMetadata>) -> Seq<ActivityView> {
    v.map_values(activity_view_fn())
}

/// The interface's windows, panels and inputs.
pub struct Controls {
    pub show_markdown_window: bool,
    pub show_outbound_window: bool,
    pub show_about_window: bool,
    pub left_tab: LeftTab,
    pub free_graph_movement: bool,
    pub node_details_expanded: bool,
    pub hubs_expanded: bool,
    pub broken_expanded: bool,
    pub graph_expanded: bool,
    /// Whether a crawl has been asked for yet.
    pub first_crawl: bool,
    pub show_crawl_window: bool,
    pub crawl_input_url: String,
    pub crawl_input_depth: i8,
}

/// The interface's state: the page graph, the selection, the Markdown shown,
/// the tabs, the cards and the counters.
pub struct ViewState {
    nodes: Vec<NodeData>,
    edges: Vec<(usize, usize)>,
    selected: Option<usize>,
    markdown_text: String,
    markdown_url: Option<WebUrl>,
    activity: std::collections::VecDeque<ActivityMetadata>,
    queued: std::collections::VecDeque<(usize, WebUrl)>,
    errors: std::collections::VecDeque<(WebUrl, CrawlError)>,
    hubs: Vec<(usize, WebUrl)>,
    broken: Vec<(u16, WebUrl)>,
    info_crawled: usize,
    info_queued: usize,
    info_skipped: usize,
    info_average_sum: u128,
}

pub open spec fn opt_url_view(o: Option<WebUrl>) -> Option<UrlView> {
    match o {
        Some(u) => Some(u@),
        None => None,
    }
}

impl ViewState {
    pub closed spec fn model(&self) -> ViewModel {
        ViewModel {
            nodes: node_views(self.nodes@),
            edges: self.edges@,
            selected: self.selected,
            markdown_text: self.markdown_text@,
            markdown_url: opt_url_view(self.markdown_url),
            activity: activity_views(self.activity@),
            queued: queued_views(self.queued@),
            errors: error_views(self.errors@),
            hubs: Set::new(|p: (usize, Seq<char>)| exists|i: int| 0 <= i < self.hubs@.len()
                && self.hubs@[i].0 == p.0 && self.hubs@[i].1@.serialization == p.1),
            broken: Set::new(|p: (u16, Seq<char>)| exists|i: int| 0 <= i < self.broken@.len()
                && self.broken@[i].0 == p.0 && self.broken@[i].1@.serialization == p.1),
            crawled: self.info_crawled,
            queued_count: self.info_queued,
            skipped: self.info_skipped,
            crawl_millis_sum: self.info_average_sum,
        }
    }

    /// The state's invariant.
    pub closed spec fn wf(&self) -> bool {
        &&& graph_wf(node_views(self.nodes@), self.edges@)
        &&& self.activity@.len() <= TABS_ENTRY_COUNT
        &&& self.queued@.len() <= TABS_ENTRY_COUNT
        &&& self.errors@.len() <= TABS_ENTRY_COUNT
    }
}

/// One node per page, and edges between existing nodes, each pair joined once.
pub open spec fn graph_wf(nodes: Seq<NodeView>, edges: Seq<(usize, usize)>) -> bool {
    &&& forall|i: int, j: int| 0 <= i < nodes.len() && 0 <= j < nodes.len() && i != j
        ==> node_url(nodes[i]).serialization != node_url(nodes[j]).serialization
    &&& forall|k: int| 0 <= k < edges.len() ==> (#[trigger] edges[k]).0 < nodes.len() && edges[k].1 < nodes.len()
    &&& forall|k: int, l: int| 0 <= k < edges.len() && 0 <= l < edges.len() && k != l
        ==> edges[k] != edges[l] && edges[k] != (edges[l].1, edges[l].0)
}

/// What `find_node` finds.
pub proof fn lemma_find_node(nodes: Seq<NodeView>, s: Seq<char>)
    ensures
        match find_node(nodes, s) {
            Some(i) => 0 <= i < nodes.len() && node_url(nodes[i]).serialization == s
                && forall|j: int| 0 <= j < i ==> node_url(nodes[j]).serialization != s,
            None => forall|j: int| 0 <= j < nodes.len() ==> node_url(nodes[j]).serialization != s,
        },
    decreases nodes.len(),
{
    if nodes.len() > 0 {
        lemma_find_node(nodes.drop_last(), s);
        match find_node(nodes.drop_last(), s) {
            Some(i) => {
                assert(nodes.drop_last()[i] == nodes[i]);
                assert forall|j: int| 0 <= j < i implies node_url(nodes[j]).serialization != s by {
                    assert(nodes.drop_last()[j] == nodes[j]);
                }
            },
            None => {
                assert forall|j: int| 0 <= j < nodes.len() - 1 implies node_url(nodes[j]).serialization != s by {
                    assert(nodes.drop_last()[j] == nodes[j]);
                }
            },
        }
    }
}

/// In a graph with one node per page, the node found is the only one.
pub proof fn lemma_find_node_unique(nodes: Seq<NodeView>, s: Seq<char>, i: int)
    requires
        forall|a: int, b: int| 0 <= a < nodes.len() && 0 <= b < nodes.len() && a != b
            ==> node_url(nodes[a]).serialization != node_url(nodes[b]).serialization,
        0 <= i < nodes.len(),
        node_url(nodes[i]).serialization == s,
    ensures
        find_node(nodes, s) == Some(i),
{
    lemma_find_node(nodes, s);
}

fn find_node_exec(nodes: &Vec<NodeData>, url: &WebUrl) -> (res: Option<usize>)
    ensures
        opt_index(res) == find_node(node_views(nodes@), url@.serialization),
{
    let ghost ns = node_views(nodes@);
    let mut i: usize = 0;
    while i < nodes.len()
        invariant
            i <= nodes.len(),
            ns == node_views(nodes@),
            forall|j: int| 0 <= j < i ==> node_url(ns[j]).serialization != url@.serialization,
        decreases nodes.len() - i,
    {
        assert(ns[i as int] == nodes@[i as int]@);
        if nodes[i].url().same_as(url) {
            proof {
                lemma_find_node(ns, url@.serialization);
            }
            return Some(i);
        }
        i = i + 1;
    }
    proof {
        lemma_find_node(ns, url@.serialization);
        if find_node(ns, url@.serialization) is Some {
            assert(false);
        }
    }
    None
}

fn connected_exec(edges: &Vec<(usize, usize)>, a: usize, b: usize) -> (res: bool)
    ensures
        res == connected(edges@, a, b),
{
    let mut k: usize = 0;
    while k < edges.len()
        invariant
            k <= edges.len(),
            forall|j: int| 0 <= j < k ==> !(edges@[j] == (a, b) || edges@[j] == (b, a)),
        decreases edges.len() - k,
    {
        let e = edges[k];
        if (e.0 == a && e.1 == b) || (e.0 == b && e.1 == a) {
            return true;
        }
        k = k + 1;
    }
    false
}

/// The node of a crawled page: the page's node takes the page's metadata where
/// there is one, else a node is added for it. Gives the nodes, the changes,
/// the page's node, and the node near which its new links are placed (the
/// page's node where it existed before).
pub open spec fn place_page(nodes: Seq<NodeView>, meta: MetadataView) -> (Seq<NodeView>, Seq<ChangeView>, usize, Option<usize>) {
    match find_node(nodes, meta.url.serialization) {
        Some(i) => (nodes.update(i, NodeView::Page(meta)), Seq::empty(), i as usize, Some(i as usize)),
        None => (
            nodes.push(NodeView::Page(meta)),
            seq![ChangeView::AddPage(nodes.len() as usize, meta.url)],
            nodes.len() as usize,
            None,
        ),
    }
}

/// The graph after linking `source` to `link`: a node is added for the link
/// where it has none, and an edge where the two are not yet joined.
pub open spec fn link_step(
    graph: (Seq<NodeView>, Seq<(usize, usize)>, Seq<ChangeView>),
    source: usize,
    link: UrlView,
    near: Option<usize>,
) -> (Seq<NodeView>, Seq<(usize, usize)>, Seq<ChangeView>) {
    let nodes = graph.0;
    let with_target = match find_node(nodes, link.serialization) {
        Some(t) => (nodes, graph.2, t as usize),
        None => (
            nodes.push(NodeView::Leaf(link)),
            graph.2.push(ChangeView::AddLeaf(nodes.len() as usize, link, near)),
            nodes.len() as usize,
        ),
    };
    let target = with_target.2;
    if connected(graph.1, source, target) {
        (with_target.0, graph.1, with_target.1)
    } else {
        (with_target.0, graph.1.push((source, target)), with_target.1.push(ChangeView::AddEdge(source, target)))
    }
}

/// The graph after linking `source` to each of `links` in order.
pub open spec fn link_pages(
    graph: (Seq<NodeView>, Seq<(usize, usize)>, Seq<ChangeView>),
    source: usize,
    links: Seq<UrlView>,
    near: Option<usize>,
) -> (Seq<NodeView>, Seq<(usize, usize)>, Seq<ChangeView>)
    decreases links.len(),
{
    if links.len() == 0 {
        graph
    } else {
        link_step(link_pages(graph, source, links.drop_last(), near), source, links.last(), near)
    }
}

/// The URL of the selected node, if one is selected and exists.
pub open spec fn selected_url(m: ViewModel) -> Option<UrlView> {
    match m.selected {
        Some(i) => if i < m.nodes.len() {
            Some(node_url(m.nodes[i as int]))
        } else {
            None
        },
        None => None,
    }
}

/// The request that refreshes the Markdown window: the selected page's text,
/// where the window is open and a node is selected.
pub open spec fn markdown_request(m: ViewModel, show_markdown_window: bool) -> Option<AppRequestView> {
    if show_markdown_window {
        match selected_url(m) {
            Some(u) => Some(AppRequestView::Markdown(u)),
            None => None,
        }
    } else {
        None
    }
}

/// The interface's state after a crawled page arrives, the changes to mirror
/// in the drawn graph, and the request to send (the page's Markdown where the
/// page is the selected node and the Markdown window is open).
pub open spec fn page_step(m: ViewModel, show_markdown_window: bool, meta: MetadataView) -> (ViewModel, Seq<ChangeView>, Option<AppRequestView>) {
    let request = match selected_url(m) {
        Some(u) => if u.serialization == meta.url.serialization {
            markdown_request(m, show_markdown_window)
        } else {
            None
        },
        None => None,
    };
    let placed = place_page(m.nodes, meta);
    let linked = link_pages((placed.0, m.edges, placed.1), placed.2, meta.discovered_links, placed.3);
    (
        ViewModel {
            nodes: linked.0,
            edges: linked.1,
            activity: bounded_push_front(m.activity, activity_entry(meta)),
            hubs: m.hubs.insert((meta.discovered_links.len() as usize, meta.url.serialization)),
            broken: if is_error_status(meta.status) {
                m.broken.insert((meta.status, meta.url.serialization))
            } else {
                m.broken
            },
            crawled: (m.crawled + 1) as usize,
            crawl_millis_sum: (m.crawl_millis_sum + crawl_millis(meta)) as u128,
            ..m
        },
        linked.2,
        request,
    )
}

/// The interface's state after a response of the relay, the changes to
/// mirror in the drawn graph, and the request to send.
pub open spec fn response_step(m: ViewModel, show_markdown_window: bool, response: AppResponseView) -> (ViewModel, Seq<ChangeView>, Option<AppRequestView>) {
    match response {
        AppResponseView::Crawler(CrawlEventView::Page(meta)) => page_step(m, show_markdown_window, meta),
        AppResponseView::Crawler(CrawlEventView::Queued(u, n)) => (
            ViewModel { queued: bounded_push_front(m.queued, (n, u)), queued_count: (m.queued_count + 1) as usize, ..m },
            Seq::empty(),
            None,
        ),
        AppResponseView::Crawler(CrawlEventView::Skipped(_)) => (
            ViewModel { skipped: (m.skipped + 1) as usize, ..m },
            Seq::empty(),
            None,
        ),
        AppResponseView::Crawler(CrawlEventView::Error(u, e)) => (
            ViewModel { errors: bounded_push_front(m.errors, (u, e)), ..m },
            Seq::empty(),
            None,
        ),
        AppResponseView::Markdown(u, text) => (
            ViewModel { markdown_text: text, markdown_url: Some(u), ..m },
            Seq::empty(),
            None,
        ),
    }
}

/// The responses whose counting stays within the counters' range, and pages
/// that did not end before they started.
pub open spec fn response_in_range(m: ViewModel, response: AppResponseView) -> bool {
    match response {
        AppResponseView::Crawler(CrawlEventView::Page(meta)) => {
            &&& m.crawled < usize::MAX
            &&& meta.timestamp_start <= meta.timestamp_end
            &&& meta.timestamp_end - meta.timestamp_start <= i128::MAX
            &&& m.crawl_millis_sum + crawl_millis(meta) <= u128::MAX
        },
        AppResponseView::Crawler(CrawlEventView::Queued(_, _)) => m.queued_count < usize::MAX,
        AppResponseView::Crawler(CrawlEventView::Skipped(_)) => m.skipped < usize::MAX,
        _ => true,
    }
}

pub open spec fn opt_request_view(o: Option<AppRequest>) -> Option<AppRequestView> {
    match o {
        Some(r) => Some(r@),
        None => None,
    }
}

proof fn lemma_bounded_map<A, B>(s: Seq<A>, x: A, f: spec_fn(A) -> B)
    ensures
        bounded_push_front(s, x).map_values(f) == bounded_push_front(s.map_values(f), f(x)),
{
    assert((seq![x] + s).map_values(f) =~= seq![f(x)] + s.map_values(f));
    if (seq![x] + s).len() > TABS_ENTRY_COUNT {
        assert((seq![x] + s).drop_last().map_values(f) =~= (seq![f(x)] + s.map_values(f)).drop_last());
    }
}

fn push_bounded<T>(q: &mut std::collections::VecDeque<T>, x: T)
    ensures
        final(q)@ == bounded_push_front(old(q)@, x),
{
    q.push_front(x);
    if q.len() > TABS_ENTRY_COUNT {
        let _ = q.pop_back();
        assert(final(q)@ =~= bounded_push_front(old(q)@, x));
    }
}

/// The state of an interface that has seen nothing yet.
pub open spec fn initial_model() -> ViewModel {
    ViewModel {
        nodes: Seq::empty(),
        edges: Seq::empty(),
        selected: None,
        markdown_text: Seq::empty(),
        markdown_url: None,
        activity: Seq::empty(),
        queued: Seq::empty(),
        errors: Seq::empty(),
        hubs: Set::empty(),
        broken: Set::empty(),
        crawled: 0,
        queued_count: 0,
        skipped: 0,
        crawl_millis_sum: 0,
    }
}

impl ViewState {
    /// The state of an interface that has seen nothing yet.
    pub fn new() -> (res: ViewState)
        ensures
            res.wf(),
            res.model() == initial_model(),
    {
        let res = ViewState {
            nodes: Vec::new(),
            edges: Vec::new(),
            selected: None,
            markdown_text: String::new(),
            markdown_url: None,
            activity: std::collections::VecDeque::new(),
            queued: std::collections::VecDeque::new(),
            errors: std::collections::VecDeque::new(),
            hubs: Vec::new(),
            broken: Vec::new(),
            info_crawled: 0,
            info_queued: 0,
            info_skipped: 0,
            info_average_sum: 0,
        };
        assert(res.model().nodes =~= Seq::<NodeView>::empty());
        assert(res.model().activity =~= Seq::<ActivityView>::empty());
        assert(res.model().queued =~= Seq::<(usize, UrlView)>::empty());
        assert(res.model().errors =~= Seq::<(UrlView, ErrorView)>::empty());
        assert(res.model().hubs =~= Set::<(usize, Seq<char>)>::empty());
        assert(res.model().broken =~= Set::<(u16, Seq<char>)>::empty());
        res
    }

    fn record_activity(&mut self, meta: &PageMetadata)
        requires
            old(self).wf(),
        ensures
            final(self).wf(),
            final(self).model() == (ViewModel {
                activity: bounded_push_front(old(self).model().activity, activity_entry(meta@)),
                ..old(self).model()
            }),
    {
        let domain = match meta.url.domain() {
            Some(d) => d.to_owned(),
            None => String::from_str("None"),
        };
        let entry = ActivityMetadata {
            status: meta.status,
            domain: domain,
            path: meta.url.path().to_owned(),
            timestamp: format_timestamp(meta.timestamp_start),
        };
        assert(entry@ == activity_entry(meta@));
        let ghost before = self.activity@;
        push_bounded(&mut self.activity, entry);
        proof {
            lemma_bounded_map(before, entry, activity_view_fn());
        }
    }

    fn insert_hub(&mut self, count: usize, url: &WebUrl)
        requires
            old(self).wf(),
        ensures
            final(self).wf(),
            final(self).model() == (ViewModel {
                hubs: old(self).model().hubs.insert((count, url@.serialization)),
                ..old(self).model()
            }),
    {
        let mut i: usize = 0;
        while i < self.hubs.len()
            invariant
                i <= self.hubs.len(),
                self.wf(),
                forall|j: int| 0 <= j < i ==> !(self.hubs@[j].0 == count && self.hubs@[j].1@.serialization == url@.serialization),
            decreases self.hubs.len() - i,
        {
            if self.hubs[i].0 == count && self.hubs[i].1.same_as(url) {
                assert(old(self).model().hubs.contains((count, url@.serialization)));
                assert(old(self).model().hubs.insert((count, url@.serialization)) =~= old(self).model().hubs);
                return;
            }
            i = i + 1;
        }
        let ghost before = self.hubs@;
        self.hubs.push((count, url.duplicate()));
        assert(self.model().hubs =~= old(self).model().hubs.insert((count, url@.serialization))) by {
            assert forall|p: (usize, Seq<char>)| #[trigger] self.model().hubs.contains(p)
                implies old(self).model().hubs.insert((count, url@.serialization)).contains(p) by {
                let j = choose|j: int| 0 <= j < self.hubs@.len() && self.hubs@[j].0 == p.0 && self.hubs@[j].1@.serialization == p.1;
                if j < before.len() {
                    assert(self.hubs@[j] == before[j]);
                }
            }
            assert forall|p: (usize, Seq<char>)| #[trigger] old(self).model().hubs.insert((count, url@.serialization)).contains(p)
                implies self.model().hubs.contains(p) by {
                if p == (count, url@.serialization) {
                    assert(self.hubs@[before.len() as int].1@.serialization == p.1);
                } else {
                    let j = choose|j: int| 0 <= j < before.len() && before[j].0 == p.0 && before[j].1@.serialization == p.1;
                    assert(self.hubs@[j] == before[j]);
                }
            }
        }
    }

    fn insert_broken(&mut self, status: u16, url: &WebUrl)
        requires
            old(self).wf(),
        ensures
            final(self).wf(),
            final(self).model() == (ViewModel {
                broken: old(self).model().broken.insert((status, url@.serialization)),
                ..old(self).model()
            }),
    {
        let mut i: usize = 0;
        while i < self.broken.len()
            invariant
                i <= self.broken.len(),
                self.wf(),
                forall|j: int| 0 <= j < i ==> !(self.broken@[j].0 == status && self.broken@[j].1@.serialization == url@.serialization),
            decreases self.broken.len() - i,
        {
            if self.broken[i].0 == status && self.broken[i].1.same_as(url) {
                assert(old(self).model().broken.contains((status, url@.serialization)));
                assert(old(self).model().broken.insert((status, url@.serialization)) =~= old(self).model().broken);
                return;
            }
            i = i + 1;
        }
        let ghost before = self.broken@;
        self.broken.push((status, url.duplicate()));
        assert(self.model().broken =~= old(self).model().broken.insert((status, url@.serialization))) by {
            assert forall|p: (u16, Seq<char>)| #[trigger] self.model().broken.contains(p)
                implies old(self).model().broken.insert((status, url@.serialization)).contains(p) by {
                let j = choose|j: int| 0 <= j < self.broken@.len() && self.broken@[j].0 == p.0 && self.broken@[j].1@.serialization == p.1;
                if j < before.len() {
                    assert(self.broken@[j] == before[j]);
                }
            }
            assert forall|p: (u16, Seq<char>)| #[trigger] old(self).model().broken.insert((status, url@.serialization)).contains(p)
                implies self.model().broken.contains(p) by {
                if p == (status, url@.serialization) {
                    assert(self.broken@[before.len() as int].1@.serialization == p.1);
                } else {
                    let j = choose|j: int| 0 <= j < before.len() && before[j].0 == p.0 && before[j].1@.serialization == p.1;
                    assert(self.broken@[j] == before[j]);
                }
            }
        }
    }
}

/// The state after linking `source` to `links` (and the changes so far).
pub open spec fn linked_model(m: ViewModel, changes: Seq<ChangeView>, source: usize, links: Seq<UrlView>, near: Option<usize>) -> (ViewModel, Seq<ChangeView>) {
    let l = link_pages((m.nodes, m.edges, changes), source, links, near);
    (ViewModel { nodes: l.0, edges: l.1, ..m }, l.2)
}

proof fn lemma_push_distinct(nodes: Seq<NodeView>, x: NodeView)
    requires
        forall|i: int, j: int| 0 <= i < nodes.len() && 0 <= j < nodes.len() && i != j
            ==> node_url(nodes[i]).serialization != node_url(nodes[j]).serialization,
        find_node(nodes, node_url(x).serialization) is None,
    ensures
        forall|i: int, j: int| 0 <= i < nodes.push(x).len() && 0 <= j < nodes.push(x).len() && i != j
            ==> node_url(nodes.push(x)[i]).serialization != node_url(nodes.push(x)[j]).serialization,
{
    lemma_find_node(nodes, node_url(x).serialization);
    let t = nodes.push(x);
    assert forall|i: int, j: int| 0 <= i < t.len() && 0 <= j < t.len() && i != j
        implies node_url(t[i]).serialization != node_url(t[j]).serialization by {
        if i < nodes.len() && j < nodes.len() {
            assert(t[i] == nodes[i] && t[j] == nodes[j]);
        } else if i < nodes.len() {
            assert(t[i] == nodes[i]);
        } else {
            assert(t[j] == nodes[j]);
        }
    }
}

impl ViewState {
    fn place_page(&mut self, meta: PageMetadata) -> (res: (Vec<GraphChange>, usize, Option<usize>))
        requires
            old(self).wf(),
        ensures
            final(self).wf(),
            final(self).model() == (ViewModel { nodes: place_page(old(self).model().nodes, meta@).0, ..old(self).model() }),
            change_views(res.0@) == place_page(old(self).model().nodes, meta@).1,
            res.1 == place_page(old(self).model().nodes, meta@).2,
            res.2 == place_page(old(self).model().nodes, meta@).3,
            (res.1 as int) < final(self).model().nodes.len(),
    {
        let ghost mv = meta@;
        let ghost before = self.nodes@;
        let found = find_node_exec(&self.nodes, &meta.url);
        proof {
            lemma_find_node(node_views(before), mv.url.serialization);
        }
        match found {
            Some(i) => {
                self.nodes.set(i, NodeData::Page(meta));
                assert(node_views(self.nodes@) =~= node_views(before).update(i as int, NodeView::Page(mv)));
                let changes: Vec<GraphChange> = Vec::new();
                assert(change_views(changes@) =~= Seq::<ChangeView>::empty());
                (changes, i, Some(i))
            },
            None => {
                let n = self.nodes.len();
                let url = meta.url.duplicate();
                self.nodes.push(NodeData::Page(meta));
                assert(node_views(self.nodes@) =~= node_views(before).push(NodeView::Page(mv)));
                proof {
                    lemma_push_distinct(node_views(before), NodeView::Page(mv));
                }
                let mut changes: Vec<GraphChange> = Vec::new();
                changes.push(GraphChange::AddPage(n, url));
                assert(change_views(changes@) =~= seq![ChangeView::AddPage(n, mv.url)]);
                (changes, n, None)
            },
        }
    }

    fn link_to(&mut self, changes: &mut Vec<GraphChange>, source: usize, links: &Vec<WebUrl>, near: Option<usize>)
        requires
            old(self).wf(),
            (source as int) < old(self).model().nodes.len(),
        ensures
            final(self).wf(),
            (final(self).model(), change_views(final(changes)@))
                == linked_model(old(self).model(), change_views(old(changes)@), source, url_views(links@), near),
    {
        let ghost lv = url_views(links@);
        let ghost m0 = self.model();
        let ghost c0 = change_views(changes@);
        let mut i: usize = 0;
        assert(lv.take(0) =~= Seq::<UrlView>::empty());
        while i < links.len()
            invariant
                i <= links.len(),
                lv == url_views(links@),
                self.wf(),
                (source as int) < self.model().nodes.len(),
                (self.model(), change_views(changes@)) == linked_model(m0, c0, source, lv.take(i as int), near),
            decreases links.len() - i,
        {
            let ghost g = (self.model().nodes, self.model().edges, change_views(changes@));
            assert(lv.take(i + 1).drop_last() =~= lv.take(i as int));
            assert(lv.take(i + 1).last() == lv[i as int]);
            assert(lv[i as int] == links@[i as int]@);
            let link = &links[i];
            let ghost before_nodes = self.nodes@;
            let ghost before_changes = changes@;
            proof {
                lemma_find_node(node_views(before_nodes), link@.serialization);
            }
            let target = match find_node_exec(&self.nodes, link) {
                Some(t) => t,
                None => {
                    let n = self.nodes.len();
                    self.nodes.push(NodeData::Leaf(link.duplicate()));
                    changes.push(GraphChange::AddLeaf(n, link.duplicate(), near));
                    assert(node_views(self.nodes@) =~= node_views(before_nodes).push(NodeView::Leaf(link@)));
                    assert(change_views(changes@) =~= change_views(before_changes).push(ChangeView::AddLeaf(n, link@, near)));
                    proof {
                        lemma_push_distinct(node_views(before_nodes), NodeView::Leaf(link@));
                    }
                    n
                },
            };
            let ghost before_edges = self.edges@;
            let ghost before_changes2 = changes@;
            if !connected_exec(&self.edges, source, target) {
                self.edges.push((source, target));
                changes.push(GraphChange::AddEdge(source, target));
                assert(change_views(changes@) =~= change_views(before_changes2).push(ChangeView::AddEdge(source, target)));
                assert forall|k: int, l: int| 0 <= k < self.edges@.len() && 0 <= l < self.edges@.len() && k != l
                    implies self.edges@[k] != self.edges@[l] && self.edges@[k] != (self.edges@[l].1, self.edges@[l].0) by {
                    if k < before_edges.len() && l < before_edges.len() {
                        assert(self.edges@[k] == before_edges[k] && self.edges@[l] == before_edges[l]);
                    } else if k < before_edges.len() {
                        assert(self.edges@[k] == before_edges[k]);
                        assert(!(before_edges[k] == (source, target) || before_edges[k] == (target, source)));
                    } else {
                        assert(self.edges@[l] == before_edges[l]);
                        assert(!(before_edges[l] == (source, target) || before_edges[l] == (target, source)));
                    }
                }
                assert forall|k: int| 0 <= k < self.edges@.len()
                    implies (#[trigger] self.edges@[k]).0 < self.nodes@.len() && self.edges@[k].1 < self.nodes@.len() by {
                    if k < before_edges.len() {
                        assert(self.edges@[k] == before_edges[k]);
                    }
                }
            }
            i = i + 1;
        }
        assert(lv.take(links@.len() as int) =~= lv);
    }
}

impl Controls {
    /// The windows and inputs of an interface just opened: the crawl window
    /// is open, its address reads the author's site and its depth is 0.
    pub fn new() -> (res: Controls)
        ensures
            res.show_crawl_window,
            res.crawl_input_url@ == "https://raydroplet.dev/"@,
            res.crawl_input_depth == 0,
            !res.show_markdown_window && !res.show_outbound_window && !res.show_about_window,
            res.left_tab == LeftTab::Activity,
            !res.free_graph_movement && !res.first_crawl,
            !res.node_details_expanded && !res.hubs_expanded && !res.broken_expanded && !res.graph_expanded,
    {
        Controls {
            show_markdown_window: false,
            show_outbound_window: false,
            show_about_window: false,
            left_tab: LeftTab::Activity,
            free_graph_movement: false,
            node_details_expanded: false,
            hubs_expanded: false,
            broken_expanded: false,
            graph_expanded: false,
            first_crawl: false,
            show_crawl_window: true,
            crawl_input_url: String::from_str("https://raydroplet.dev/"),
            crawl_input_depth: 0,
        }
    }
}

impl ViewState {
    /// The selected node, where one is selected and exists.
    pub fn selected_node(&self) -> (res: Option<&NodeData>)
        ensures
            match res {
                Some(n) => self.model().selected matches Some(i) && (i as int) < self.model().nodes.len()
                    && n@ == self.model().nodes[i as int],
                None => selected_url(self.model()) is None,
            },
    {
        match self.selected {
            Some(i) => if i < self.nodes.len() {
                assert(node_views(self.nodes@)[i as int] == self.nodes@[i as int]@);
                Some(&self.nodes[i])
            } else {
                None
            },
            None => None,
        }
    }

    /// The request that refreshes the Markdown window; see `markdown_request`.
    pub fn markdown_refresh(&self, controls: &Controls) -> (res: Option<AppRequest>)
        ensures
            opt_request_view(res) == markdown_request(self.model(), controls.show_markdown_window),
    {
        if !controls.show_markdown_window {
            return None;
        }
        match self.selected_node() {
            Some(node) => Some(AppRequest::Markdown(node.url().duplicate())),
            None => None,
        }
    }

    fn on_page(&mut self, controls: &Controls, meta: PageMetadata) -> (res: (Vec<GraphChange>, Option<AppRequest>))
        requires
            old(self).wf(),
            response_in_range(old(self).model(), AppResponseView::Crawler(CrawlEventView::Page(meta@))),
        ensures
            final(self).wf(),
            (final(self).model(), change_views(res.0@), opt_request_view(res.1))
                == page_step(old(self).model(), controls.show_markdown_window, meta@),
    {
        let ghost m0 = self.model();
        let ghost mv = meta@;
        self.record_activity(&meta);
        self.insert_hub(meta.discovered_links.len(), &meta.url);
        let request = match self.selected_node() {
            Some(node) => if node.url().same_as(&meta.url) {
                self.markdown_refresh(controls)
            } else {
                None
            },
            None => None,
        };
        if 400 <= meta.status && meta.status < 600 {
            self.insert_broken(meta.status, &meta.url);
        }
        let links = duplicate_urls(&meta.discovered_links);
        let millis = ((meta.timestamp_end - meta.timestamp_start) / 1_000_000) as u128;
        let ghost m1 = self.model();
        let placed = self.place_page(meta);
        let mut changes = placed.0;
        self.link_to(&mut changes, placed.1, &links, placed.2);
        self.info_crawled = self.info_crawled + 1;
        self.info_average_sum = self.info_average_sum + millis;
        (changes, request)
    }

    /// Takes in a response of the relay; see `response_step`. Gives the
    /// changes to mirror in the drawn graph and the request to send.
    pub fn on_response(&mut self, controls: &Controls, response: AppResponse) -> (res: (Vec<GraphChange>, Option<AppRequest>))
        requires
            old(self).wf(),
            response_in_range(old(self).model(), response@),
        ensures
            final(self).wf(),
            (final(self).model(), change_views(res.0@), opt_request_view(res.1))
                == response_step(old(self).model(), controls.show_markdown_window, response@),
    {
        match response {
            AppResponse::Crawler(CrawlEvent::Page(meta)) => self.on_page(controls, meta),
            AppResponse::Crawler(CrawlEvent::Queued(url, count)) => {
                let ghost before = self.queued@;
                let ghost entry = (count, url);
                push_bounded(&mut self.queued, (count, url));
                proof {
                    lemma_bounded_map(before, entry, queued_view_fn());
                }
                self.info_queued = self.info_queued + 1;
                let changes: Vec<GraphChange> = Vec::new();
                assert(change_views(changes@) =~= Seq::<ChangeView>::empty());
                (changes, None)
            },
            AppResponse::Crawler(CrawlEvent::Skipped(_)) => {
                self.info_skipped = self.info_skipped + 1;
                let changes: Vec<GraphChange> = Vec::new();
                assert(change_views(changes@) =~= Seq::<ChangeView>::empty());
                (changes, None)
            },
            AppResponse::Crawler(CrawlEvent::Error(url, error)) => {
                let ghost before = self.errors@;
                let ghost entry = (url, error);
                push_bounded(&mut self.errors, (url, error));
                proof {
                    lemma_bounded_map(before, entry, error_view_fn());
                }
                let changes: Vec<GraphChange> = Vec::new();
                assert(change_views(changes@) =~= Seq::<ChangeView>::empty());
                (changes, None)
            },
            AppResponse::Markdown(url, text) => {
                self.markdown_text = text;
                self.markdown_url = Some(url);
                let changes: Vec<GraphChange> = Vec::new();
                assert(change_views(changes@) =~= Seq::<ChangeView>::empty());
                (changes, None)
            },
        }
    }
}


/// What the Markdown window shows.
#[derive(PartialEq, Eq, Structural, Clone, Copy)]
pub enum MarkdownDisplay {
    /// No node is selected.
    NoSelection,
    /// The text held is not the selected page's.
    OtherPage,
    /// The text held, which is the selected page's.
    Text,
}

impl Controls {
    /// View ▸ Toggle Panels: each card of the right window flips between
    /// expanded and collapsed.
    pub fn toggle_panels(&mut self)
        ensures
            *final(self) == (Controls {
                node_details_expanded: !old(self).node_details_expanded,
                graph_expanded: !old(self).graph_expanded,
                hubs_expanded: !old(self).hubs_expanded,
                broken_expanded: !old(self).broken_expanded,
                ..*old(self)
            }),
    {
        self.node_details_expanded = !self.node_details_expanded;
        self.graph_expanded = !self.graph_expanded;
        self.hubs_expanded = !self.hubs_expanded;
        self.broken_expanded = !self.broken_expanded;
    }

    /// The Crawl button: shows or hides the crawl window; showing it hides the
    /// About window.
    pub fn toggle_crawl_window(&mut self)
        ensures
            *final(self) == (Controls {
                show_crawl_window: !old(self).show_crawl_window,
                show_about_window: if !old(self).show_crawl_window { false } else { old(self).show_about_window },
                ..*old(self)
            }),
    {
        self.show_crawl_window = !self.show_crawl_window;
        if self.show_crawl_window {
            self.show_about_window = false;
        }
    }

    /// The About button: shows or hides the About window; showing it hides
    /// the crawl window.
    pub fn toggle_about_window(&mut self)
        ensures
            *final(self) == (Controls {
                show_about_window: !old(self).show_about_window,
                show_crawl_window: if !old(self).show_about_window { false } else { old(self).show_crawl_window },
                ..*old(self)
            }),
    {
        self.show_about_window = !self.show_about_window;
        if self.show_about_window {
            self.show_crawl_window = false;
        }
    }

    /// The crawl window's Crawl Page button. Where the address does not parse
    /// nothing changes and nothing is sent. Else the request of that address
    /// at the chosen depth is sent, the window closes, and on the first crawl
    /// every card of the right window expands.
    pub fn crawl_from_input(&mut self) -> (res: Option<AppRequest>)
        ensures
            match spec_url_parse(old(self).crawl_input_url@) {
                None => res is None && *final(self) == *old(self),
                Some(u) => {
                    &&& opt_request_view(res) == Some(AppRequestView::Crawler(CommandView::Request(
                        RequestView { source: u, depth: old(self).crawl_input_depth },
                    )))
                    &&& *final(self) == (if old(self).first_crawl {
                        Controls { show_crawl_window: false, ..*old(self) }
                    } else {
                        Controls {
                            show_crawl_window: false,
                            node_details_expanded: true,
                            hubs_expanded: true,
                            broken_expanded: true,
                            graph_expanded: true,
                            first_crawl: true,
                            ..*old(self)
                        }
                    })
                },
            },
    {
        let url = match WebUrl::parse(self.crawl_input_url.as_str()) {
            Some(u) => u,
            None => {
                return None;
            },
        };
        let request = CrawlRequest { source: url, depth: self.crawl_input_depth };
        if !self.first_crawl {
            self.node_details_expanded = true;
            self.hubs_expanded = true;
            self.broken_expanded = true;
            self.graph_expanded = true;
            self.first_crawl = true;
        }
        self.show_crawl_window = false;
        Some(AppRequest::Crawler(CrawlCommand::Request(request)))
    }
}

impl ViewState {
    /// A click on a node: selects it and refreshes the Markdown window.
    pub fn select_node(&mut self, controls: &Controls, index: usize) -> (res: Option<AppRequest>)
        requires
            old(self).wf(),
        ensures
            final(self).wf(),
            final(self).model() == (ViewModel { selected: Some(index), ..old(self).model() }),
            opt_request_view(res) == markdown_request(final(self).model(), controls.show_markdown_window),
    {
        self.selected = Some(index);
        self.markdown_refresh(controls)
    }

    /// The Markdown button: opens or closes the Markdown window and refreshes
    /// it.
    pub fn toggle_markdown_window(&self, controls: &mut Controls) -> (res: Option<AppRequest>)
        ensures
            *final(controls) == (Controls { show_markdown_window: !old(controls).show_markdown_window, ..*old(controls) }),
            opt_request_view(res) == markdown_request(self.model(), final(controls).show_markdown_window),
    {
        controls.show_markdown_window = !controls.show_markdown_window;
        self.markdown_refresh(controls)
    }

    /// The Crawl Page button of a selected page that was only linked to: a
    /// request to crawl it alone (depth 0).
    pub fn leaf_crawl_request(&self) -> (res: Option<AppRequest>)
        ensures
            match self.model().selected {
                Some(i) => if (i as int) < self.model().nodes.len() && self.model().nodes[i as int] is Leaf {
                    opt_request_view(res) == Some(AppRequestView::Crawler(CommandView::Request(
                        RequestView { source: self.model().nodes[i as int]->Leaf_0, depth: 0 },
                    )))
                } else {
                    res is None
                },
                None => res is None,
            },
    {
        match self.selected_node() {
            Some(NodeData::Leaf(url)) => Some(AppRequest::Crawler(CrawlCommand::Request(
                CrawlRequest { source: url.duplicate(), depth: 0 },
            ))),
            _ => None,
        }
    }

    /// What the Markdown window shows: whether a node is selected, and whether
    /// the text held is that page's.
    pub fn markdown_display(&self) -> (res: MarkdownDisplay)
        ensures
            res == match selected_url(self.model()) {
                None => MarkdownDisplay::NoSelection,
                Some(u) => if self.model().markdown_url matches Some(m) && m.serialization == u.serialization {
                    MarkdownDisplay::Text
                } else {
                    MarkdownDisplay::OtherPage
                },
            },
    {
        match self.selected_node() {
            None => MarkdownDisplay::NoSelection,
            Some(node) => match &self.markdown_url {
                Some(m) => if node.url().same_as(m) {
                    MarkdownDisplay::Text
                } else {
                    MarkdownDisplay::OtherPage
                },
                None => MarkdownDisplay::OtherPage,
            },
        }
    }

    /// The links of the selected node, where it is a crawled page.
    pub fn outbound_links(&self) -> (res: Option<&Vec<WebUrl>>)
        ensures
            match res {
                Some(l) => self.model().selected matches Some(i) && (i as int) < self.model().nodes.len()
                    && self.model().nodes[i as int] is Page
                    && url_views(l@) == self.model().nodes[i as int]->Page_0.discovered_links,
                None => !(self.model().selected matches Some(i) && (i as int) < self.model().nodes.len()
                    && self.model().nodes[i as int] is Page),
            },
    {
        match self.selected_node() {
            Some(NodeData::Page(meta)) => Some(&meta.discovered_links),
            _ => None,
        }
    }

    /// The mean crawl time of the crawled pages, in whole milliseconds (0
    /// before any page is crawled).
    pub fn average_crawl_millis(&self) -> (res: u128)
        ensures
            res == if self.model().crawled == 0 {
                0
            } else {
                self.model().crawl_millis_sum / (self.model().crawled as u128)
            },
    {
        if self.info_crawled == 0 {
            0
        } else {
            self.info_average_sum / (self.info_crawled as u128)
        }
    }

    pub fn nodes(&self) -> (res: &Vec<NodeData>)
        ensures
            node_views(res@) == self.model().nodes,
    {
        &self.nodes
    }

    pub fn edges(&self) -> (res: &Vec<(usize, usize)>)
        ensures
            res@ == self.model().edges,
    {
        &self.edges
    }

    pub fn node_count(&self) -> (res: usize)
        ensures
            res == self.model().nodes.len(),
    {
        self.nodes.len()
    }

    pub fn edge_count(&self) -> (res: usize)
        ensures
            res == self.model().edges.len(),
    {
        self.edges.len()
    }

    pub fn selected(&self) -> (res: Option<usize>)
        ensures
            res == self.model().selected,
    {
        self.selected
    }

    pub fn markdown_text(&self) -> (res: &String)
        ensures
            res@ == self.model().markdown_text,
    {
        &self.markdown_text
    }

    pub fn activity(&self) -> (res: &std::collections::VecDeque<ActivityMetadata>)
        ensures
            activity_views(res@) == self.model().activity,
    {
        &self.activity
    }

    pub fn queued(&self) -> (res: &std::collections::VecDeque<(usize, WebUrl)>)
        ensures
            queued_views(res@) == self.model().queued,
    {
        &self.queued
    }

    pub fn errors(&self) -> (res: &std::collections::VecDeque<(WebUrl, CrawlError)>)
        ensures
            error_views(res@) == self.model().errors,
    {
        &self.errors
    }

    pub fn hubs(&self) -> (res: &Vec<(usize, WebUrl)>)
        ensures
            forall|p: (usize, Seq<char>)| self.model().hubs.contains(p) <==>
                exists|i: int| 0 <= i < res@.len() && res@[i].0 == p.0 && res@[i].1@.serialization == p.1,
    {
        &self.hubs
    }

    pub fn broken(&self) -> (res: &Vec<(u16, WebUrl)>)
        ensures
            forall|p: (u16, Seq<char>)| self.model().broken.contains(p) <==>
                exists|i: int| 0 <= i < res@.len() && res@[i].0 == p.0 && res@[i].1@.serialization == p.1,
    {
        &self.broken
    }

    /// The sum of the crawl times of the crawled pages, in milliseconds.
    pub fn crawl_millis_sum(&self) -> (res: u128)
        ensures
            res == self.model().crawl_millis_sum,
    {
        self.info_average_sum
    }

    pub fn crawled_count(&self) -> (res: usize)
        ensures
            res == self.model().crawled,
    {
        self.info_crawled
    }

    pub fn queued_count(&self) -> (res: usize)
        ensures
            res == self.model().queued_count,
    {
        self.info_queued
    }

    pub fn skipped_count(&self) -> (res: usize)
        ensures
            res == self.model().skipped,
    {
        self.info_skipped
    }
}

/// Each tab keeps at most `TABS_ENTRY_COUNT` entries, and the page graph has
/// one node per page and each pair of nodes joined at most once.
pub proof fn lemma_state_bounds(v: &ViewState)
    requires
        v.wf(),
    ensures
        v.model().activity.len() <= TABS_ENTRY_COUNT,
        v.model().queued.len() <= TABS_ENTRY_COUNT,
        v.model().errors.len() <= TABS_ENTRY_COUNT,
        graph_wf(v.model().nodes, v.model().edges),
{
}

proof fn lemma_find_node_push(nodes: Seq<NodeView>, x: NodeView, s: Seq<char>)
    requires
        find_node(nodes, s) is Some,
    ensures
        find_node(nodes.push(x), s) == find_node(nodes, s),
{
    assert(nodes.push(x).drop_last() =~= nodes);
}

/// What linking a page's node to its links does to a graph with one node per
/// page: the graph keeps one node per page and joins each pair once, the
/// nodes and edges it had are kept, and every link's page has a node joined
/// to the page's node.
proof fn lemma_link_pages(
    graph: (Seq<NodeView>, Seq<(usize, usize)>, Seq<ChangeView>),
    source: usize,
    links: Seq<UrlView>,
    near: Option<usize>,
)
    requires
        graph_wf(graph.0, graph.1),
        (source as int) < graph.0.len(),
        graph.0.len() + links.len() <= usize::MAX,
    ensures
        graph_wf(link_pages(graph, source, links, near).0, link_pages(graph, source, links, near).1),
        graph.0.len() <= link_pages(graph, source, links, near).0.len() <= graph.0.len() + links.len(),
        forall|j: int| 0 <= j < graph.0.len() ==> link_pages(graph, source, links, near).0[j] == graph.0[j],
        graph.1.len() <= link_pages(graph, source, links, near).1.len(),
        forall|k: int| 0 <= k < graph.1.len() ==> link_pages(graph, source, links, near).1[k] == graph.1[k],
        forall|k: int| 0 <= k < links.len() ==> {
            let l = link_pages(graph, source, links, near);
            &&& find_node(l.0, (#[trigger] links[k]).serialization) is Some
            &&& connected(l.1, source, find_node(l.0, links[k].serialization)->0 as usize)
        },
    decreases links.len(),
{
    if links.len() > 0 {
        let pre = links.drop_last();
        lemma_link_pages(graph, source, pre, near);
        let p = link_pages(graph, source, pre, near);
        let link = links.last();
        let l = link_pages(graph, source, links, near);
        assert(l == link_step(p, source, link, near));
        lemma_find_node(p.0, link.serialization);
        let with_target = match find_node(p.0, link.serialization) {
            Some(t) => (p.0, p.2, t as usize),
            None => (p.0.push(NodeView::Leaf(link)), p.2.push(ChangeView::AddLeaf(p.0.len() as usize, link, near)), p.0.len() as usize),
        };
        let target = with_target.2;
        assert(l.0 == with_target.0);
        if find_node(p.0, link.serialization) is None {
            lemma_push_distinct(p.0, NodeView::Leaf(link));
        }
        assert((target as int) < l.0.len());
        assert(graph_wf(l.0, l.1)) by {
            if !connected(p.1, source, target) {
                assert(l.1 == p.1.push((source, target)));
                assert forall|k: int, m: int| 0 <= k < l.1.len() && 0 <= m < l.1.len() && k != m
                    implies l.1[k] != l.1[m] && l.1[k] != (l.1[m].1, l.1[m].0) by {
                    if k < p.1.len() && m < p.1.len() {
                        assert(l.1[k] == p.1[k] && l.1[m] == p.1[m]);
                    } else if k < p.1.len() {
                        assert(l.1[k] == p.1[k]);
                        assert(!(p.1[k] == (source, target) || p.1[k] == (target, source)));
                    } else {
                        assert(l.1[m] == p.1[m]);
                        assert(!(p.1[m] == (source, target) || p.1[m] == (target, source)));
                    }
                }
                assert forall|k: int| 0 <= k < l.1.len() implies (#[trigger] l.1[k]).0 < l.0.len() && l.1[k].1 < l.0.len() by {
                    if k < p.1.len() {
                        assert(l.1[k] == p.1[k]);
                    }
                }
            } else {
                assert forall|k: int| 0 <= k < l.1.len() implies (#[trigger] l.1[k]).0 < l.0.len() && l.1[k].1 < l.0.len() by {
                    assert(l.1[k] == p.1[k]);
                }
            }
        }
        assert forall|j: int| 0 <= j < graph.0.len() implies l.0[j] == graph.0[j] by {
            assert(p.0[j] == graph.0[j]);
        }
        assert forall|k: int| 0 <= k < graph.1.len() implies l.1[k] == graph.1[k] by {
            assert(p.1[k] == graph.1[k]);
        }
        assert(connected(l.1, source, target)) by {
            if connected(p.1, source, target) {
                let w = choose|w: int| 0 <= w < p.1.len() && (p.1[w] == (source, target) || p.1[w] == (target, source));
                assert(l.1[w] == p.1[w]);
            } else {
                assert(l.1[p.1.len() as int] == (source, target));
            }
        }
        assert(find_node(l.0, link.serialization) == Some(target as int)) by {
            if find_node(p.0, link.serialization) is None {
                lemma_find_node(l.0, link.serialization);
                lemma_find_node_unique(l.0, link.serialization, target as int);
            }
        }
        assert forall|k: int| 0 <= k < links.len() implies {
            &&& find_node(l.0, (#[trigger] links[k]).serialization) is Some
            &&& connected(l.1, source, find_node(l.0, links[k].serialization)->0 as usize)
        } by {
            if k < pre.len() {
                assert(links[k] == pre[k]);
                let s = pre[k].serialization;
                let t = find_node(p.0, s)->0 as usize;
                if find_node(p.0, link.serialization) is None {
                    lemma_find_node_push(p.0, NodeView::Leaf(link), s);
                }
                let w = choose|w: int| 0 <= w < p.1.len() && (p.1[w] == (source, t) || p.1[w] == (t, source));
                assert(l.1[w] == p.1[w]);
            } else {
                assert(links[k] == link);
            }
        }
    }
}

/// After a crawled page arrives, the page's node holds the page, every page
/// it links to has a node joined to the page's node, the nodes of other
/// pages and the edges are kept, and the graph keeps one node per page with
/// each pair joined at most once.
pub proof fn lemma_page_step_graph(m: ViewModel, show_markdown_window: bool, meta: MetadataView)
    requires
        graph_wf(m.nodes, m.edges),
        m.nodes.len() + meta.discovered_links.len() < usize::MAX,
    ensures
        ({
            let r = page_step(m, show_markdown_window, meta).0;
            &&& graph_wf(r.nodes, r.edges)
            &&& find_node(r.nodes, meta.url.serialization) is Some
            &&& r.nodes[find_node(r.nodes, meta.url.serialization)->0] == NodeView::Page(meta)
            &&& forall|k: int| 0 <= k < meta.discovered_links.len() ==> {
                &&& find_node(r.nodes, (#[trigger] meta.discovered_links[k]).serialization) is Some
                &&& connected(
                    r.edges,
                    find_node(r.nodes, meta.url.serialization)->0 as usize,
                    find_node(r.nodes, meta.discovered_links[k].serialization)->0 as usize,
                )
            }
            &&& forall|j: int| 0 <= j < m.nodes.len() && node_url(m.nodes[j]).serialization != meta.url.serialization
                ==> r.nodes[j] == m.nodes[j]
            &&& forall|k: int| 0 <= k < m.edges.len() ==> r.edges[k] == m.edges[k]
        }),
{
    let placed = place_page(m.nodes, meta);
    lemma_find_node(m.nodes, meta.url.serialization);
    assert(graph_wf(placed.0, m.edges)) by {
        match find_node(m.nodes, meta.url.serialization) {
            Some(i) => {
                assert forall|a: int, b: int| 0 <= a < placed.0.len() && 0 <= b < placed.0.len() && a != b
                    implies node_url(placed.0[a]).serialization != node_url(placed.0[b]).serialization by {
                    if a != i && b != i {
                        assert(placed.0[a] == m.nodes[a] && placed.0[b] == m.nodes[b]);
                    } else if a == i {
                        assert(placed.0[b] == m.nodes[b]);
                    } else {
                        assert(placed.0[a] == m.nodes[a]);
                    }
                }
            },
            None => {
                lemma_push_distinct(m.nodes, NodeView::Page(meta));
            },
        }
    }
    let source = placed.2;
    assert((source as int) < placed.0.len());
    assert(placed.0[source as int] == NodeView::Page(meta));
    let g = (placed.0, m.edges, placed.1);
    lemma_link_pages(g, source, meta.discovered_links, placed.3);
    let l = link_pages(g, source, meta.discovered_links, placed.3);
    let r = page_step(m, show_markdown_window, meta).0;
    assert(r.nodes == l.0 && r.edges == l.1);
    assert(r.nodes[source as int] == NodeView::Page(meta));
    lemma_find_node_unique(r.nodes, meta.url.serialization, source as int);
    assert forall|j: int| 0 <= j < m.nodes.len() && node_url(m.nodes[j]).serialization != meta.url.serialization
        implies r.nodes[j] == m.nodes[j] by {
        assert(r.nodes[j] == placed.0[j]);
        if let Some(i) = find_node(m.nodes, meta.url.serialization) {
            assert(j != i);
        }
    }
}

/// Whether `new` is `old` with one entry added at its front: the others move
/// back one place, and the last falls off only where `old` was full.
pub open spec fn front_pushed<T>(old: Seq<T>, new: Seq<T>) -> bool {
    &&& new.len() == if old.len() < TABS_ENTRY_COUNT { old.len() + 1 } else { TABS_ENTRY_COUNT as nat }
    &&& forall|i: int| 1 <= i < new.len() ==> new[i] == old[i - 1]
}

proof fn lemma_bounded_push_front<T>(s: Seq<T>, x: T)
    requires
        s.len() <= TABS_ENTRY_COUNT,
    ensures
        front_pushed(s, bounded_push_front(s, x)),
        bounded_push_front(s, x)[0] == x,
{
    let t = seq![x] + s;
    assert forall|i: int| 1 <= i < bounded_push_front(s, x).len() implies bounded_push_front(s, x)[i] == s[i - 1] by {
        assert(t[i] == s[i - 1]);
    }
}

/// Whatever response arrives, each tab keeps at most `TABS_ENTRY_COUNT`
/// entries, and is either unchanged or gains the new entry at its front,
/// losing its oldest entry only where it was full: the activity tab on a
/// crawled page, the queued tab on queued links, the errors tab on an error.
pub proof fn lemma_response_tabs(m: ViewModel, show_markdown_window: bool, response: AppResponseView)
    requires
        m.activity.len() <= TABS_ENTRY_COUNT,
        m.queued.len() <= TABS_ENTRY_COUNT,
        m.errors.len() <= TABS_ENTRY_COUNT,
    ensures
        ({
            let r = response_step(m, show_markdown_window, response).0;
            &&& r.activity.len() <= TABS_ENTRY_COUNT
            &&& r.queued.len() <= TABS_ENTRY_COUNT
            &&& r.errors.len() <= TABS_ENTRY_COUNT
            &&& if let AppResponseView::Crawler(CrawlEventView::Page(meta)) = response {
                front_pushed(m.activity, r.activity) && r.activity[0] == activity_entry(meta)
            } else {
                r.activity == m.activity
            }
            &&& if let AppResponseView::Crawler(CrawlEventView::Queued(u, n)) = response {
                front_pushed(m.queued, r.queued) && r.queued[0] == (n, u)
            } else {
                r.queued == m.queued
            }
            &&& if let AppResponseView::Crawler(CrawlEventView::Error(u, e)) = response {
                front_pushed(m.errors, r.errors) && r.errors[0] == (u, e)
            } else {
                r.errors == m.errors
            }
        }),
{
    match response {
        AppResponseView::Crawler(CrawlEventView::Page(meta)) => {
            lemma_bounded_push_front(m.activity, activity_entry(meta));
        },
        AppResponseView::Crawler(CrawlEventView::Queued(u, n)) => {
            lemma_bounded_push_front(m.queued, (n, u));
        },
        AppResponseView::Crawler(CrawlEventView::Error(u, e)) => {
            lemma_bounded_push_front(m.errors, (u, e));
        },
        _ => {},
    }
}

/// Whether one of `links` is the page with serialization `s`.
pub open spec fn has_link(links: Seq<UrlView>, s: Seq<char>) -> bool {
    exists|k: int| 0 <= k < links.len() && (#[trigger] links[k]).serialization == s
}

/// Whether the node of index `source` is joined to a node of the page with
/// serialization `s`.
pub open spec fn joined_to(nodes: Seq<NodeView>, edges: Seq<(usize, usize)>, source: usize, s: Seq<char>) -> bool {
    match find_node(nodes, s) {
        Some(t) => connected(edges, source, t as usize),
        None => false,
    }
}

/// The pages among `links` whose nodes are not yet joined to the node of
/// index `source`.
pub open spec fn unjoined_links(nodes: Seq<NodeView>, edges: Seq<(usize, usize)>, source: usize, links: Seq<UrlView>) -> Set<Seq<char>> {
    Set::new(|s: Seq<char>| has_link(links, s) && !joined_to(nodes, edges, source, s))
}

/// The pages a crawled page links to whose nodes were not yet joined to the
/// page's node (all of them where the page had no node).
pub open spec fn new_link_pages(m: ViewModel, meta: MetadataView) -> Set<Seq<char>> {
    Set::new(|s: Seq<char>| has_link(meta.discovered_links, s) && !(match find_node(m.nodes, meta.url.serialization) {
        Some(i) => joined_to(m.nodes, m.edges, i as usize, s),
        None => false,
    }))
}

/// Linking adds one edge per linked page not yet joined to the source, and
/// afterwards the source is joined to exactly the pages it was joined to and
/// the linked ones.
proof fn lemma_link_pages_edges(
    graph: (Seq<NodeView>, Seq<(usize, usize)>, Seq<ChangeView>),
    source: usize,
    links: Seq<UrlView>,
    near: Option<usize>,
)
    requires
        graph_wf(graph.0, graph.1),
        (source as int) < graph.0.len(),
        graph.0.len() + links.len() <= usize::MAX,
    ensures
        unjoined_links(graph.0, graph.1, source, links).finite(),
        link_pages(graph, source, links, near).1.len()
            == graph.1.len() + unjoined_links(graph.0, graph.1, source, links).len(),
        forall|s: Seq<char>| #[trigger] joined_to(link_pages(graph, source, links, near).0, link_pages(graph, source, links, near).1, source, s)
            <==> has_link(links, s) || joined_to(graph.0, graph.1, source, s),
    decreases links.len(),
{
    let l = link_pages(graph, source, links, near);
    if links.len() == 0 {
        assert(unjoined_links(graph.0, graph.1, source, links) =~= Set::<Seq<char>>::empty());
    } else {
        let pre = links.drop_last();
        let link = links.last();
        let x = link.serialization;
        lemma_link_pages_edges(graph, source, pre, near);
        lemma_link_pages(graph, source, pre, near);
        lemma_link_pages(graph, source, links, near);
        let p = link_pages(graph, source, pre, near);
        assert(l == link_step(p, source, link, near));
        lemma_find_node(p.0, x);
        let target: usize = match find_node(p.0, x) {
            Some(t) => t as usize,
            None => p.0.len() as usize,
        };
        assert(!connected(p.1, source, p.0.len() as usize)) by {
            if connected(p.1, source, p.0.len() as usize) {
                let w = choose|w: int| 0 <= w < p.1.len()
                    && (p.1[w] == (source, p.0.len() as usize) || p.1[w] == (p.0.len() as usize, source));
                assert(p.1[w].0 < p.0.len() && p.1[w].1 < p.0.len());
            }
        }
        assert(connected(p.1, source, target) == joined_to(p.0, p.1, source, x));
        assert(l.1 == if joined_to(p.0, p.1, source, x) { p.1 } else { p.1.push((source, target)) });
        assert forall|s: Seq<char>| s != x implies (has_link(links, s) <==> has_link(pre, s)) by {
            if has_link(links, s) {
                let k = choose|k: int| 0 <= k < links.len() && (#[trigger] links[k]).serialization == s;
                assert(k < pre.len());
                assert(pre[k] == links[k]);
            }
            if has_link(pre, s) {
                let k = choose|k: int| 0 <= k < pre.len() && (#[trigger] pre[k]).serialization == s;
                assert(pre[k] == links[k]);
            }
        }
        assert(has_link(links, x)) by {
            assert(links[links.len() - 1].serialization == x);
        }
        assert forall|s: Seq<char>| #[trigger] joined_to(l.0, l.1, source, s)
            <==> has_link(links, s) || joined_to(graph.0, graph.1, source, s) by {
            if s == x {
                assert(links[links.len() - 1] == link);
                assert(find_node(l.0, x) is Some);
                assert(joined_to(l.0, l.1, source, s));
            } else {
                assert(joined_to(p.0, p.1, source, s) <==> has_link(pre, s) || joined_to(graph.0, graph.1, source, s));
                assert(has_link(links, s) <==> has_link(pre, s));
                lemma_find_node(p.0, s);
                if find_node(p.0, x) is None {
                    assert(l.0 == p.0.push(NodeView::Leaf(link)));
                    assert(l.0.drop_last() =~= p.0);
                    if find_node(p.0, s) is Some {
                        lemma_find_node_push(p.0, NodeView::Leaf(link), s);
                    }
                } else {
                    assert(l.0 == p.0);
                }
                assert(find_node(l.0, s) == find_node(p.0, s));
                if let Some(t) = find_node(p.0, s) {
                    assert(t as usize != target);
                    if !joined_to(p.0, p.1, source, x) {
                        let e = p.1.push((source, target));
                        assert(l.1 == e);
                        if connected(e, source, t as usize) {
                            let w = choose|w: int| 0 <= w < e.len()
                                && (e[w] == (source, t as usize) || e[w] == (t as usize, source));
                            if w < p.1.len() {
                                assert(e[w] == p.1[w]);
                            }
                        }
                        if connected(p.1, source, t as usize) {
                            let w = choose|w: int| 0 <= w < p.1.len()
                                && (p.1[w] == (source, t as usize) || p.1[w] == (t as usize, source));
                            assert(e[w] == p.1[w]);
                        }
                    }
                }
                assert(joined_to(l.0, l.1, source, s) == joined_to(p.0, p.1, source, s));
            }
        }
        let before = unjoined_links(graph.0, graph.1, source, pre);
        let after = unjoined_links(graph.0, graph.1, source, links);
        if joined_to(p.0, p.1, source, x) {
            assert(after =~= before);
        } else {
            assert(after =~= before.insert(x));
            assert(!before.contains(x));
        }
    }
}

/// After a crawled page arrives, the graph has one edge more for each page
/// it links to whose node was not yet joined to the page's node, and no
/// other new edge.
pub proof fn lemma_page_step_edge_count(m: ViewModel, show_markdown_window: bool, meta: MetadataView)
    requires
        graph_wf(m.nodes, m.edges),
        m.nodes.len() + meta.discovered_links.len() < usize::MAX,
    ensures
        new_link_pages(m, meta).finite(),
        page_step(m, show_markdown_window, meta).0.edges.len() == m.edges.len() + new_link_pages(m, meta).len(),
{
    let placed = place_page(m.nodes, meta);
    let source = placed.2;
    lemma_find_node(m.nodes, meta.url.serialization);
    lemma_page_step_graph(m, show_markdown_window, meta);
    assert(graph_wf(placed.0, m.edges)) by {
        match find_node(m.nodes, meta.url.serialization) {
            Some(i) => {
                assert forall|a: int, b: int| 0 <= a < placed.0.len() && 0 <= b < placed.0.len() && a != b
                    implies node_url(placed.0[a]).serialization != node_url(placed.0[b]).serialization by {
                    if a != i && b != i {
                        assert(placed.0[a] == m.nodes[a] && placed.0[b] == m.nodes[b]);
                    } else if a == i {
                        assert(placed.0[b] == m.nodes[b]);
                    } else {
                        assert(placed.0[a] == m.nodes[a]);
                    }
                }
            },
            None => {
                lemma_push_distinct(m.nodes, NodeView::Page(meta));
            },
        }
    }
    let g = (placed.0, m.edges, placed.1);
    lemma_link_pages_edges(g, source, meta.discovered_links, placed.3);
    assert forall|s: Seq<char>| #[trigger] joined_to(placed.0, m.edges, source, s) == match find_node(m.nodes, meta.url.serialization) {
        Some(i) => joined_to(m.nodes, m.edges, i as usize, s),
        None => false,
    } by {
        lemma_find_node(m.nodes, s);
        match find_node(m.nodes, meta.url.serialization) {
            Some(i) => {
                lemma_find_node(placed.0, s);
                if let Some(t) = find_node(m.nodes, s) {
                    assert(node_url(placed.0[t]).serialization == s);
                    lemma_find_node_unique(placed.0, s, t);
                } else {
                    if let Some(t) = find_node(placed.0, s) {
                        assert(node_url(m.nodes[t]).serialization == s);
                    }
                }
            },
            None => {
                if let Some(t) = find_node(placed.0, s) {
                    if connected(m.edges, source, t as usize) {
                        let w = choose|w: int| 0 <= w < m.edges.len()
                            && (m.edges[w] == (source, t as usize) || m.edges[w] == (t as usize, source));
                        assert(m.edges[w].0 < m.nodes.len() && m.edges[w].1 < m.nodes.len());
                    }
                }
            },
        }
    }
    assert(new_link_pages(m, meta) =~= unjoined_links(placed.0, m.edges, source, meta.discovered_links));
}

/// A crawled page answered with a client or server error status (400 to
/// 599) is listed in the broken-pages card with its status and address, and
/// only such pages are added there; every crawled page is listed among the
/// hubs with its number of links, and counted once.
pub proof fn lemma_page_cards(m: ViewModel, show_markdown_window: bool, meta: MetadataView)
    ensures
        ({
            let r = response_step(m, show_markdown_window, AppResponseView::Crawler(CrawlEventView::Page(meta))).0;
            &&& r.broken == if 400 <= meta.status && meta.status < 600 {
                m.broken.insert((meta.status, meta.url.serialization))
            } else {
                m.broken
            }
            &&& 400 <= meta.status && meta.status < 600 ==> r.broken.contains((meta.status, meta.url.serialization))
            &&& r.hubs == m.hubs.insert((meta.discovered_links.len() as usize, meta.url.serialization))
            &&& r.crawled == m.crawled + 1 || m.crawled == usize::MAX
        }),
{
}

} // verus!
