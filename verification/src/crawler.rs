//! The crawler's decisions: which requested pages get fetched, what a fetch
//! task reports, and what the manager tells its listener.
//!
//! The network, the task runtime and the channels stay outside: they hand the
//! manager one event at a time and perform the action it returns.

use vstd::prelude::*;
use crate::links::url_views;
use crate::weburl::{UrlView, WebUrl};

verus! {

/// Why a page could not be crawled.
#[derive(Debug, Clone)]
pub enum CrawlError {
    Network(String),
    Timeout,
    ParseHtml(String),
    TaskPanic(String),
    Other(String),
}

pub enum ErrorView {
    Network(Seq<char>),
    Timeout,
    ParseHtml(Seq<char>),
    TaskPanic(Seq<char>),
    Other(Seq<char>),
}

impl View for CrawlError {
    type V = ErrorView;

    open spec fn view(&self) -> ErrorView {
        match self {
            CrawlError::Network(m) => ErrorView::Network(m@),
            CrawlError::Timeout => ErrorView::Timeout,
            CrawlError::ParseHtml(m) => ErrorView::ParseHtml(m@),
            CrawlError::TaskPanic(m) => ErrorView::TaskPanic(m@),
            CrawlError::Other(m) => ErrorView::Other(m@),
        }
    }
}

/// The short name of an error's kind.
pub open spec fn error_name(e: ErrorView) -> Seq<char> {
    match e {
        ErrorView::Network(_) => "Network"@,
        ErrorView::Timeout => "Timeout"@,
        ErrorView::ParseHtml(_) => "Parse"@,
        ErrorView::TaskPanic(_) => "Task"@,
        ErrorView::Other(_) => "Other"@,
    }
}

/// The human-readable description of an error.
pub open spec fn error_message(e: ErrorView) -> Seq<char> {
    match e {
        ErrorView::Network(m) => "Network error: "@ + m,
        ErrorView::Timeout => "Connection timed out"@,
        ErrorView::ParseHtml(m) => "HTML parsing failed: "@ + m,
        ErrorView::TaskPanic(m) => "Tokio task panic: "@ + m,
        ErrorView::Other(m) => "Unknown error: "@ + m,
    }
}

impl CrawlError {
    /// The short name of this error's kind.
    pub fn name(&self) -> (res: &'static str)
        ensures
            res@ == error_name(self@),
    {
        match self {
            CrawlError::Network(_) => "Network",
            CrawlError::Timeout => "Timeout",
            CrawlError::ParseHtml(_) => "Parse",
            CrawlError::TaskPanic(_) => "Task",
            CrawlError::Other(_) => "Other",
        }
    }

    /// The description of this error, as it is displayed.
    pub fn message(&self) -> (res: String)
        ensures
            res@ == error_message(self@),
    {
        match self {
            CrawlError::Network(m) => String::from_str("Network error: ").concat(m.as_str()),
            CrawlError::Timeout => String::from_str("Connection timed out"),
            CrawlError::ParseHtml(m) => String::from_str("HTML parsing failed: ").concat(m.as_str()),
            CrawlError::TaskPanic(m) => String::from_str("Tokio task panic: ").concat(m.as_str()),
            CrawlError::Other(m) => String::from_str("Unknown error: ").concat(m.as_str()),
        }
    }

    /// A copy of this error.
    pub fn duplicate(&self) -> (res: CrawlError)
        ensures
            res@ == self@,
    {
        match self {
            CrawlError::Network(m) => CrawlError::Network(m.clone()),
            CrawlError::Timeout => CrawlError::Timeout,
            CrawlError::ParseHtml(m) => CrawlError::ParseHtml(m.clone()),
            CrawlError::TaskPanic(m) => CrawlError::TaskPanic(m.clone()),
            CrawlError::Other(m) => CrawlError::Other(m.clone()),
        }
    }
}

/// A request to crawl `source` and, up to `depth` more levels, the pages it
/// links to.
#[derive(Clone)]
pub struct CrawlRequest {
    pub source: WebUrl,
    pub depth: i8,
}

pub struct RequestView {
    pub source: UrlView,
    pub depth: i8,
}

impl View for CrawlRequest {
    type V = RequestView;

    open spec fn view(&self) -> RequestView {
        RequestView { source: self.source@, depth: self.depth }
    }
}

impl CrawlRequest {
    pub fn duplicate(&self) -> (res: CrawlRequest)
        ensures
            res@ == self@,
    {
        CrawlRequest { source: self.source.duplicate(), depth: self.depth }
    }
}

/// What the crawler is asked to do.
#[derive(Clone)]
pub enum CrawlCommand {
    /// Start a crawl of a given depth.
    Request(CrawlRequest),
    Terminate,
}

pub enum CommandView {
    Request(RequestView),
    Terminate,
}

impl View for CrawlCommand {
    type V = CommandView;

    open spec fn view(&self) -> CommandView {
        match self {
            CrawlCommand::Request(r) => CommandView::Request(r@),
            CrawlCommand::Terminate => CommandView::Terminate,
        }
    }
}

/// What is known of a crawled page.
pub struct PageMetadata {
    pub url: WebUrl,
    /// The HTTP status code of the response.
    pub status: u16,
    /// When the fetch started, in nanoseconds since the Unix epoch.
    pub timestamp_start: i128,
    /// When the fetch ended, in nanoseconds since the Unix epoch.
    pub timestamp_end: i128,
    pub discovered_links: Vec<WebUrl>,
}

pub struct MetadataView {
    pub url: UrlView,
    pub status: u16,
    pub timestamp_start: i128,
    pub timestamp_end: i128,
    pub discovered_links: Seq<UrlView>,
}

impl View for PageMetadata {
    type V = MetadataView;

    open spec fn view(&self) -> MetadataView {
        MetadataView {
            url: self.url@,
            status: self.status,
            timestamp_start: self.timestamp_start,
            timestamp_end: self.timestamp_end,
            discovered_links: url_views(self.discovered_links@),
        }
    }
}

pub fn duplicate_urls(v: &Vec<WebUrl>) -> (res: Vec<WebUrl>)
    ensures
        url_views(res@) == url_views(v@),
{
    let mut out: Vec<WebUrl> = Vec::new();
    let mut i: usize = 0;
    while i < v.len()
        invariant
            i <= v.len(),
            out@.len() == i,
            url_views(out@) == url_views(v@).take(i as int),
        decreases v.len() - i,
    {
        let ghost prev = out@;
        let u = v[i].duplicate();
        out.push(u);
        assert(out@ == prev.push(u));
        assert forall|j: int| 0 <= j < i + 1 implies #[trigger] url_views(out@)[j] == url_views(v@).take(i + 1)[j] by {
            if j < i {
                assert(url_views(out@)[j] == out@[j]@);
                assert(out@[j] == prev[j]);
                assert(url_views(prev)[j] == prev[j]@);
            }
        }
        assert(url_views(out@) =~= url_views(v@).take(i + 1));
        i = i + 1;
    }
    assert(url_views(v@).take(v@.len() as int) =~= url_views(v@));
    out
}

impl PageMetadata {
    pub fn duplicate(&self) -> (res: PageMetadata)
        ensures
            res@ == self@,
    {
        PageMetadata {
            url: self.url.duplicate(),
            status: self.status,
            timestamp_start: self.timestamp_start,
            timestamp_end: self.timestamp_end,
            discovered_links: duplicate_urls(&self.discovered_links),
        }
    }
}

/// A crawled page: what is known of it and its HTML.
pub struct ParserResult {
    pub metadata: PageMetadata,
    pub content: String,
}

pub struct ParserResultView {
    pub metadata: MetadataView,
    pub content: Seq<char>,
}

impl View for ParserResult {
    type V = ParserResultView;

    open spec fn view(&self) -> ParserResultView {
        ParserResultView { metadata: self.metadata@, content: self.content@ }
    }
}

/// What the crawler tells its listener.
pub enum CrawlResponse {
    /// The result of one page's crawl.
    Page(ParserResult),
    /// A page's links were queued: the page and how many links.
    Queued(WebUrl, usize),
    Skipped(WebUrl),
    Error(WebUrl, CrawlError),
}

pub enum ResponseView {
    Page(ParserResultView),
    Queued(UrlView, usize),
    Skipped(UrlView),
    Error(UrlView, ErrorView),
}

impl View for CrawlResponse {
    type V = ResponseView;

    open spec fn view(&self) -> ResponseView {
        match self {
            CrawlResponse::Page(p) => ResponseView::Page(p@),
            CrawlResponse::Queued(u, n) => ResponseView::Queued(u@, *n),
            CrawlResponse::Skipped(u) => ResponseView::Skipped(u@),
            CrawlResponse::Error(u, e) => ResponseView::Error(u@, e@),
        }
    }
}

/// What reaches the crawl manager, from commands and from its fetch tasks.
pub enum ManagerEvent {
    Request(CrawlRequest),
    /// A crawled page (with the depth it was requested with) and its links.
    Branch(WebUrl, i8, Vec<WebUrl>),
    Skipped(WebUrl),
    Error(WebUrl, CrawlError),
    /// A fetch task failed unexpectedly; its description.
    TaskPanic(String),
    Terminate,
}

pub enum EventView {
    Request(RequestView),
    Branch(UrlView, i8, Seq<UrlView>),
    Skipped(UrlView),
    Error(UrlView, ErrorView),
    TaskPanic(Seq<char>),
    Terminate,
}

impl View for ManagerEvent {
    type V = EventView;

    open spec fn view(&self) -> EventView {
        match self {
            ManagerEvent::Request(r) => EventView::Request(r@),
            ManagerEvent::Branch(u, d, l) => EventView::Branch(u@, *d, url_views(l@)),
            ManagerEvent::Skipped(u) => EventView::Skipped(u@),
            ManagerEvent::Error(u, e) => EventView::Error(u@, e@),
            ManagerEvent::TaskPanic(m) => EventView::TaskPanic(m@),
            ManagerEvent::Terminate => EventView::Terminate,
        }
    }
}

/// What the manager decides on an event.
pub enum ManagerAction {
    /// Nothing to do.
    Ignore,
    /// The page was already crawled: feed `ManagerEvent::Skipped` for it back
    /// to the manager.
    Skip(WebUrl),
    /// Start a fetch task for the request.
    Fetch(CrawlRequest),
    /// Tell the listener the page's links are queued, then feed each request
    /// back to the manager, in order.
    Queue(WebUrl, usize, Vec<CrawlRequest>),
    /// Tell the listener; if it is gone, feed `ManagerEvent::Terminate` back.
    Report(CrawlResponse),
    /// Stop the manager.
    Stop,
}

pub enum ActionView {
    Ignore,
    Skip(UrlView),
    Fetch(RequestView),
    Queue(UrlView, usize, Seq<RequestView>),
    Report(ResponseView),
    Stop,
}

pub open spec fn request_views(v: Seq<CrawlRequest>) -> Seq<RequestView> {
    v.map_values(|r: CrawlRequest| r@)
}

impl View for ManagerAction {
    type V = ActionView;

    open spec fn view(&self) -> ActionView {
        match self {
            ManagerAction::Ignore => ActionView::Ignore,
            ManagerAction::Skip(u) => ActionView::Skip(u@),
            ManagerAction::Fetch(r) => ActionView::Fetch(r@),
            ManagerAction::Queue(u, n, rs) => ActionView::Queue(u@, *n, request_views(rs@)),
            ManagerAction::Report(r) => ActionView::Report(r@),
            ManagerAction::Stop => ActionView::Stop,
        }
    }
}

/// The requests that branch off a page requested with `depth`: one per link,
/// one level shallower.
pub open spec fn branch_requests(links: Seq<UrlView>, depth: i8) -> Seq<RequestView> {
    links.map_values(|l: UrlView| RequestView { source: l, depth: (depth - 1) as i8 })
}

/// The manager's decision on `event` when the pages in `visited` (by
/// serialization) have been fetched or are being fetched: the new set and the
/// action.
pub open spec fn manager_step(visited: Set<Seq<char>>, event: EventView) -> (Set<Seq<char>>, ActionView) {
    match event {
        EventView::Request(r) => if r.depth < 0 {
            (visited, ActionView::Ignore)
        } else if visited.contains(r.source.serialization) {
            (visited, ActionView::Skip(r.source))
        } else {
            (visited.insert(r.source.serialization), ActionView::Fetch(r))
        },
        EventView::Branch(url, depth, links) => (
            visited,
            ActionView::Queue(url, links.len() as usize, branch_requests(links, depth)),
        ),
        EventView::Skipped(url) => (visited, ActionView::Report(ResponseView::Skipped(url))),
        EventView::Error(url, e) => (visited, ActionView::Report(ResponseView::Error(url, e))),
        EventView::TaskPanic(_) => (visited, ActionView::Ignore),
        EventView::Terminate => (visited, ActionView::Stop),
    }
}

/// The event that a branch must be able to go one level deeper from.
pub open spec fn event_in_range(event: EventView) -> bool {
    event matches EventView::Branch(_, depth, _) ==> depth > i8::MIN
}

/// The crawl manager: remembers every page it has started to fetch.
pub struct CrawlManager {
    visited: Vec<WebUrl>,
}

impl View for CrawlManager {
    type V = Set<Seq<char>>;

    /// The serializations of the pages fetched or being fetched.
    closed spec fn view(&self) -> Set<Seq<char>> {
        Set::new(|s: Seq<char>| exists|i: int| 0 <= i < self.visited@.len() && self.visited@[i]@.serialization == s)
    }
}

impl CrawlManager {
    pub fn new() -> (res: CrawlManager)
        ensures
            res@ == Set::<Seq<char>>::empty(),
    {
        let res = CrawlManager { visited: Vec::new() };
        assert(res@ =~= Set::<Seq<char>>::empty());
        res
    }

    fn has_visited(&self, url: &WebUrl) -> (res: bool)
        ensures
            res == self@.contains(url@.serialization),
    {
        let mut i: usize = 0;
        while i < self.visited.len()
            invariant
                i <= self.visited.len(),
                forall|j: int| 0 <= j < i ==> self.visited@[j]@.serialization != url@.serialization,
            decreases self.visited.len() - i,
        {
            if self.visited[i].same_as(url) {
                return true;
            }
            i = i + 1;
        }
        false
    }

    /// Decides on one event; see `manager_step`.
    pub fn step(&mut self, event: ManagerEvent) -> (action: ManagerAction)
        requires
            event_in_range(event@),
        ensures
            (final(self)@, action@) == manager_step(old(self)@, event@),
    {
        match event {
            ManagerEvent::Request(request) => {
                if request.depth < 0 {
                    return ManagerAction::Ignore;
                }
                if self.has_visited(&request.source) {
                    return ManagerAction::Skip(request.source);
                }
                let ghost before = self.visited@;
                self.visited.push(request.source.duplicate());
                assert(self@ =~= old(self)@.insert(request.source@.serialization)) by {
                    assert forall|s: Seq<char>| self@.contains(s) implies old(self)@.insert(request.source@.serialization).contains(s) by {
                        let i = choose|i: int| 0 <= i < self.visited@.len() && self.visited@[i]@.serialization == s;
                        if i < before.len() {
                            assert(old(self)@.contains(s));
                        }
                    }
                    assert forall|s: Seq<char>| old(self)@.insert(request.source@.serialization).contains(s) implies self@.contains(s) by {
                        if s == request.source@.serialization {
                            assert(self.visited@[before.len() as int]@.serialization == s);
                        } else {
                            let i = choose|i: int| 0 <= i < before.len() && before[i]@.serialization == s;
                            assert(self.visited@[i] == before[i]);
                        }
                    }
                }
                ManagerAction::Fetch(request)
            },
            ManagerEvent::Branch(url, depth, links) => {
                let count = links.len();
                let mut requests: Vec<CrawlRequest> = Vec::new();
                let mut i: usize = 0;
                while i < links.len()
                    invariant
                        i <= links.len(),
                        depth > i8::MIN,
                        requests@.len() == i,
                        request_views(requests@) == branch_requests(url_views(links@), depth).take(i as int),
                    decreases links.len() - i,
                {
                    let ghost prev = requests@;
                    let r = CrawlRequest { source: links[i].duplicate(), depth: depth - 1 };
                    requests.push(r);
                    assert(requests@ == prev.push(r));
                    assert forall|j: int| 0 <= j < i + 1 implies #[trigger] request_views(requests@)[j]
                        == branch_requests(url_views(links@), depth).take(i + 1)[j] by {
                        if j < i {
                            assert(requests@[j] == prev[j]);
                            assert(request_views(prev)[j] == prev[j]@);
                        } else {
                            assert(url_views(links@)[j] == links@[j]@);
                        }
                    }
                    assert(request_views(requests@) =~= branch_requests(url_views(links@), depth).take(i + 1));
                    i = i + 1;
                }
                assert(branch_requests(url_views(links@), depth).take(links@.len() as int)
                    =~= branch_requests(url_views(links@), depth));
                ManagerAction::Queue(url, count, requests)
            },
            ManagerEvent::Skipped(url) => ManagerAction::Report(CrawlResponse::Skipped(url)),
            ManagerEvent::Error(url, e) => ManagerAction::Report(CrawlResponse::Error(url, e)),
            ManagerEvent::TaskPanic(_) => ManagerAction::Ignore,
            ManagerEvent::Terminate => ManagerAction::Stop,
        }
    }
}

impl CrawlCommand {
    /// What a command asks of the manager: a request to decide on, or `None`
    /// where the manager is to stop.
    pub fn into_event(self) -> (res: Option<ManagerEvent>)
        ensures
            match self {
                CrawlCommand::Request(r) => res matches Some(e) && e@ == EventView::Request(r@),
                CrawlCommand::Terminate => res is None,
            },
    {
        match self {
            CrawlCommand::Request(r) => Some(ManagerEvent::Request(r)),
            CrawlCommand::Terminate => None,
        }
    }
}

/// How fetching one requested page went.
pub enum FetchOutcome {
    /// The task could not obtain a fetch slot.
    NoPermit,
    /// The response is not an HTML page.
    NotHtml,
    /// The request failed; the failure's description.
    NetworkFailure(String),
    /// Link extraction did not complete; the failure's description.
    ExtractionFailure(String),
    /// The page: its status code, its HTML and its links.
    Fetched(u16, String, Vec<WebUrl>),
}

pub enum FetchView {
    NoPermit,
    NotHtml,
    NetworkFailure(Seq<char>),
    ExtractionFailure(Seq<char>),
    Fetched(u16, Seq<char>, Seq<UrlView>),
}

impl View for FetchOutcome {
    type V = FetchView;

    open spec fn view(&self) -> FetchView {
        match self {
            FetchOutcome::NoPermit => FetchView::NoPermit,
            FetchOutcome::NotHtml => FetchView::NotHtml,
            FetchOutcome::NetworkFailure(m) => FetchView::NetworkFailure(m@),
            FetchOutcome::ExtractionFailure(m) => FetchView::ExtractionFailure(m@),
            FetchOutcome::Fetched(s, b, l) => FetchView::Fetched(*s, b@, url_views(l@)),
        }
    }
}

/// What a fetch task reports: events for the manager, in order, then the page
/// for the listener, if any (when the listener is gone, the task feeds
/// `ManagerEvent::Terminate` to the manager).
pub struct TaskReport {
    pub events: Vec<ManagerEvent>,
    pub page: Option<ParserResult>,
}

pub open spec fn event_views(v: Seq<ManagerEvent>) -> Seq<EventView> {
    v.map_values(|e: ManagerEvent| e@)
}

pub open spec fn opt_page_view(p: Option<ParserResult>) -> Option<ParserResultView> {
    match p {
        Some(r) => Some(r@),
        None => None,
    }
}

/// The events a fetch task sends its manager. Every failure ends with the
/// page reported as skipped; a fetched page branches off when its request
/// has depth left.
pub open spec fn task_events(request: RequestView, fetched: FetchView) -> Seq<EventView> {
    let src = request.source;
    match fetched {
        FetchView::NoPermit => seq![EventView::Skipped(src)],
        FetchView::NotHtml => seq![EventView::Skipped(src), EventView::Skipped(src)],
        FetchView::NetworkFailure(m) => seq![EventView::Error(src, ErrorView::Network(m)), EventView::Skipped(src)],
        FetchView::ExtractionFailure(m) => seq![EventView::TaskPanic(m), EventView::Skipped(src)],
        FetchView::Fetched(_, _, links) => if request.depth > 0 {
            seq![EventView::Branch(src, request.depth, links)]
        } else {
            Seq::empty()
        },
    }
}

/// The page a fetch task hands its listener.
pub open spec fn task_page(request: RequestView, fetched: FetchView, start: i128, end: i128) -> Option<ParserResultView> {
    match fetched {
        FetchView::Fetched(status, body, links) => Some(ParserResultView {
            metadata: MetadataView {
                url: request.source,
                status: status,
                timestamp_start: start,
                timestamp_end: end,
                discovered_links: links,
            },
            content: body,
        }),
        _ => None,
    }
}

/// What a fetch task started at `timestamp_start` and ended at
/// `timestamp_end` (nanoseconds since the Unix epoch) reports on `request`.
pub fn task_report(request: CrawlRequest, fetched: FetchOutcome, timestamp_start: i128, timestamp_end: i128) -> (res: TaskReport)
    ensures
        event_views(res.events@) == task_events(request@, fetched@),
        opt_page_view(res.page) == task_page(request@, fetched@, timestamp_start, timestamp_end),
{
    let ghost fv = fetched@;
    let mut events: Vec<ManagerEvent> = Vec::new();
    let page = match fetched {
        FetchOutcome::NoPermit => {
            events.push(ManagerEvent::Skipped(request.source));
            None
        },
        FetchOutcome::NotHtml => {
            events.push(ManagerEvent::Skipped(request.source.duplicate()));
            events.push(ManagerEvent::Skipped(request.source));
            None
        },
        FetchOutcome::NetworkFailure(m) => {
            events.push(ManagerEvent::Error(request.source.duplicate(), CrawlError::Network(m)));
            events.push(ManagerEvent::Skipped(request.source));
            None
        },
        FetchOutcome::ExtractionFailure(m) => {
            events.push(ManagerEvent::TaskPanic(m));
            events.push(ManagerEvent::Skipped(request.source));
            None
        },
        FetchOutcome::Fetched(status, body, links) => {
            if request.depth > 0 {
                events.push(ManagerEvent::Branch(request.source.duplicate(), request.depth, duplicate_urls(&links)));
            }
            let metadata = PageMetadata {
                url: request.source,
                status: status,
                timestamp_start: timestamp_start,
                timestamp_end: timestamp_end,
                discovered_links: links,
            };
            Some(ParserResult { metadata: metadata, content: body })
        },
    };
    assert(event_views(events@) =~= task_events(request@, fv));
    TaskReport { events: events, page: page }
}

/// The signature of the crawler's author, used in its user agent.
pub const SIGNATURE: &'static str = "raydroplet";

/// The crawler's repository, used in its user agent.
pub const REPOSITORY: &'static str = "crawler-rs";

/// The user agent the crawler sends with every request.
pub open spec fn user_agent_text() -> Seq<char> {
    "Crawler-rs/0.1 (https://github.com/"@ + SIGNATURE@ + "/"@ + REPOSITORY@
}

/// The user agent the crawler sends with every request.
pub fn user_agent() -> (res: String)
    ensures
        res@ == user_agent_text(),
{
    String::from_str("Crawler-rs/0.1 (https://github.com/").concat(SIGNATURE).concat("/").concat(REPOSITORY)
}

/// The manager's state and actions after deciding on `events` in order,
/// starting from `visited`.
pub open spec fn manager_run(visited: Set<Seq<char>>, events: Seq<EventView>) -> (Set<Seq<char>>, Seq<ActionView>)
    decreases events.len(),
{
    if events.len() == 0 {
        (visited, Seq::empty())
    } else {
        let prev = manager_run(visited, events.drop_last());
        let next = manager_step(prev.0, events.last());
        (next.0, prev.1.push(next.1))
    }
}

/// The page that an action starts to fetch, by serialization.
pub open spec fn fetched_page(a: ActionView) -> Option<Seq<char>> {
    match a {
        ActionView::Fetch(r) => Some(r.source.serialization),
        _ => None,
    }
}

/// Across any run of events, the manager fetches no page twice and none that
/// it had visited before the run; what it has visited is never forgotten, and
/// every page it fetched is among what it has visited.
pub proof fn lemma_fetch_at_most_once(visited: Set<Seq<char>>, events: Seq<EventView>)
    ensures
        manager_run(visited, events).1.len() == events.len(),
        visited.subset_of(manager_run(visited, events).0),
        forall|k: int| 0 <= k < events.len() && (#[trigger] fetched_page(manager_run(visited, events).1[k])) is Some
            ==> manager_run(visited, events).0.contains(fetched_page(manager_run(visited, events).1[k])->0)
                && !visited.contains(fetched_page(manager_run(visited, events).1[k])->0),
        forall|i: int, j: int| 0 <= i < j < events.len()
            && (#[trigger] fetched_page(manager_run(visited, events).1[i])) is Some
            && (#[trigger] fetched_page(manager_run(visited, events).1[j])) is Some
            ==> fetched_page(manager_run(visited, events).1[i]) != fetched_page(manager_run(visited, events).1[j]),
    decreases events.len(),
{
    if events.len() > 0 {
        let pre = events.drop_last();
        lemma_fetch_at_most_once(visited, pre);
        let prev = manager_run(visited, pre);
        let next = manager_step(prev.0, events.last());
        let run = manager_run(visited, events);
        assert(run.0 == next.0 && run.1 == prev.1.push(next.1));
        assert(prev.0.subset_of(next.0));
        let n = pre.len() as int;
        assert forall|k: int| 0 <= k < events.len() && (#[trigger] fetched_page(run.1[k])) is Some implies
            run.0.contains(fetched_page(run.1[k])->0) && !visited.contains(fetched_page(run.1[k])->0) by {
            if k < n {
                assert(run.1[k] == prev.1[k]);
            }
        }
        assert forall|i: int, j: int| 0 <= i < j < events.len()
            && (#[trigger] fetched_page(run.1[i])) is Some
            && (#[trigger] fetched_page(run.1[j])) is Some
            implies fetched_page(run.1[i]) != fetched_page(run.1[j]) by {
            assert(run.1[i] == prev.1[i]);
            if j < n {
                assert(run.1[j] == prev.1[j]);
            } else {
                assert(run.1[j] == next.1);
                assert(prev.0.contains(fetched_page(prev.1[i])->0));
            }
        }
    }
}

/// A fetch task's events are all in range for the manager, and a fetched page
/// branches off only while its request has depth left: every request queued
/// from it is one level shallower, so never negative.
pub proof fn lemma_branch_depth(visited: Set<Seq<char>>, request: RequestView, fetched: FetchView, k: int)
    requires
        0 <= k < task_events(request, fetched).len(),
    ensures
        event_in_range(task_events(request, fetched)[k]),
        manager_step(visited, task_events(request, fetched)[k]).1 is Queue ==> {
            let requests = manager_step(visited, task_events(request, fetched)[k]).1->Queue_2;
            &&& request.depth > 0
            &&& forall|j: int| 0 <= j < requests.len() ==> (#[trigger] requests[j]).depth == request.depth - 1
                && requests[j].depth >= 0
        },
{
    let e = task_events(request, fetched)[k];
    if let EventView::Branch(url, depth, links) = e {
        assert(depth == request.depth);
        let requests = branch_requests(links, depth);
        assert forall|j: int| 0 <= j < requests.len() implies (#[trigger] requests[j]).depth == request.depth - 1
            && requests[j].depth >= 0 by {
        }
    }
}

/// A request for a page already visited is not fetched again: it is skipped,
/// and the skip, fed back to the manager, reaches the listener as a skipped
/// page, leaving what was visited unchanged.
pub proof fn lemma_repeat_is_reported_skipped(visited: Set<Seq<char>>, request: RequestView)
    requires
        request.depth >= 0,
        visited.contains(request.source.serialization),
    ensures
        manager_step(visited, EventView::Request(request)) == (visited, ActionView::Skip(request.source)),
        manager_step(visited, EventView::Skipped(request.source))
            == (visited, ActionView::Report(ResponseView::Skipped(request.source))),
{
}

/// A run's action on its event `k` is the manager's decision on that event in
/// the state left by the events before it.
proof fn lemma_run_prefix(visited: Set<Seq<char>>, events: Seq<EventView>, k: int)
    requires
        0 <= k < events.len(),
    ensures
        manager_run(visited, events).1[k] == manager_step(manager_run(visited, events.take(k)).0, events[k]).1,
        manager_run(visited, events.take(k + 1)).0 == manager_step(manager_run(visited, events.take(k)).0, events[k]).0,
    decreases events.len(),
{
    let pre = events.drop_last();
    lemma_fetch_at_most_once(visited, pre);
    if k == events.len() - 1 {
        assert(pre =~= events.take(k));
        assert(events.take(k + 1) =~= events);
    } else {
        assert(pre.take(k) =~= events.take(k));
        assert(pre.take(k + 1) =~= events.take(k + 1));
        lemma_run_prefix(visited, pre, k);
        assert(pre[k] == events[k]);
    }
}

/// What the manager has visited only grows along a run.
proof fn lemma_run_grows(visited: Set<Seq<char>>, events: Seq<EventView>, a: int, b: int)
    requires
        0 <= a <= b <= events.len(),
    ensures
        manager_run(visited, events.take(a)).0.subset_of(manager_run(visited, events.take(b)).0),
    decreases b - a,
{
    if a < b {
        lemma_run_grows(visited, events, a, b - 1);
        lemma_run_prefix(visited, events, b - 1);
    }
}

/// Across a run, a request with depth left for a page that was visited
/// before the run, or that an earlier request with depth left in the run
/// already asked for, is skipped and not fetched; the skip, fed back to the
/// manager in whatever state, reaches the listener as a skipped page.
pub proof fn lemma_repeat_request_in_run(visited: Set<Seq<char>>, events: Seq<EventView>, i: int, k: int)
    requires
        0 <= k < events.len(),
        events[k] is Request,
        events[k]->Request_0.depth >= 0,
        visited.contains(events[k]->Request_0.source.serialization) || {
            &&& 0 <= i < k
            &&& events[i] is Request
            &&& events[i]->Request_0.depth >= 0
            &&& events[i]->Request_0.source.serialization == events[k]->Request_0.source.serialization
        },
    ensures
        manager_run(visited, events).1[k] == ActionView::Skip(events[k]->Request_0.source),
        fetched_page(manager_run(visited, events).1[k]) is None,
        forall|v: Set<Seq<char>>| #[trigger] manager_step(v, EventView::Skipped(events[k]->Request_0.source))
            == (v, ActionView::Report(ResponseView::Skipped(events[k]->Request_0.source))),
{
    let s = events[k]->Request_0.source.serialization;
    lemma_run_prefix(visited, events, k);
    if visited.contains(s) {
        assert(events.take(0).len() == 0);
        lemma_run_grows(visited, events, 0, k);
    } else {
        lemma_run_prefix(visited, events, i);
        lemma_run_grows(visited, events, i + 1, k);
    }
    assert(manager_run(visited, events.take(k)).0.contains(s));
}

/// Across a run, at most one page reaches the listener per page address:
/// pages come only from the tasks of fetch actions, each task's page is the
/// page its request asked for, and no two fetches of a run ask for the same
/// page, whatever the fetches bring back.
pub proof fn lemma_page_at_most_once(
    visited: Set<Seq<char>>,
    events: Seq<EventView>,
    i: int,
    j: int,
    fetched_i: FetchView,
    fetched_j: FetchView,
    start_i: i128,
    end_i: i128,
    start_j: i128,
    end_j: i128,
)
    requires
        0 <= i < j < events.len(),
        manager_run(visited, events).1[i] is Fetch,
        manager_run(visited, events).1[j] is Fetch,
    ensures
        ({
            let page_i = task_page(manager_run(visited, events).1[i]->Fetch_0, fetched_i, start_i, end_i);
            let page_j = task_page(manager_run(visited, events).1[j]->Fetch_0, fetched_j, start_j, end_j);
            page_i is Some && page_j is Some
                ==> page_i->0.metadata.url.serialization != page_j->0.metadata.url.serialization
        }),
{
    lemma_fetch_at_most_once(visited, events);
    let run = manager_run(visited, events);
    assert(fetched_page(run.1[i]) is Some);
    assert(fetched_page(run.1[j]) is Some);
    assert(fetched_page(run.1[i]) != fetched_page(run.1[j]));
}

/// A request with depth left for a page not visited is fetched as it was
/// asked for, and the page becomes visited; nothing else becomes visited.
pub proof fn lemma_new_page_is_fetched(visited: Set<Seq<char>>, request: RequestView)
    requires
        request.depth >= 0,
        !visited.contains(request.source.serialization),
    ensures
        manager_step(visited, EventView::Request(request)).1 == ActionView::Fetch(request),
        manager_step(visited, EventView::Request(request)).0 == visited.insert(request.source.serialization),
{
}

/// What the manager has visited after a run's first `k` events is what it
/// had visited before, and the pages of the requests with depth left among
/// those events.
proof fn lemma_run_visited_origin(visited: Set<Seq<char>>, events: Seq<EventView>, k: int, x: Seq<char>)
    requires
        0 <= k <= events.len(),
        manager_run(visited, events.take(k)).0.contains(x),
    ensures
        visited.contains(x) || exists|i: int| 0 <= i < k && (#[trigger] events[i]) is Request
            && events[i]->Request_0.depth >= 0 && events[i]->Request_0.source.serialization == x,
    decreases k,
{
    if k == 0 {
        assert(events.take(0).len() == 0);
    } else {
        lemma_run_prefix(visited, events, k - 1);
        let before = manager_run(visited, events.take(k - 1)).0;
        if before.contains(x) {
            lemma_run_visited_origin(visited, events, k - 1, x);
            if !visited.contains(x) {
                let i = choose|i: int| 0 <= i < k - 1 && (#[trigger] events[i]) is Request
                    && events[i]->Request_0.depth >= 0 && events[i]->Request_0.source.serialization == x;
                assert(0 <= i < k);
            }
        } else {
            assert(events[k - 1] is Request);
        }
    }
}

/// Across a run, the first request with depth left for a page not visited
/// before the run is fetched as it was asked for, and the page is visited
/// at the end of the run.
pub proof fn lemma_first_request_in_run_is_fetched(visited: Set<Seq<char>>, events: Seq<EventView>, k: int)
    requires
        0 <= k < events.len(),
        events[k] is Request,
        events[k]->Request_0.depth >= 0,
        !visited.contains(events[k]->Request_0.source.serialization),
        forall|i: int| 0 <= i < k && (#[trigger] events[i]) is Request && events[i]->Request_0.depth >= 0
            ==> events[i]->Request_0.source.serialization != events[k]->Request_0.source.serialization,
    ensures
        manager_run(visited, events).1[k] == ActionView::Fetch(events[k]->Request_0),
        manager_run(visited, events).0.contains(events[k]->Request_0.source.serialization),
{
    let s = events[k]->Request_0.source.serialization;
    lemma_run_prefix(visited, events, k);
    if manager_run(visited, events.take(k)).0.contains(s) {
        lemma_run_visited_origin(visited, events, k, s);
    }
    lemma_run_grows(visited, events, k + 1, events.len() as int);
    assert(events.take(events.len() as int) =~= events);
}

/// A fetched page reaches the listener with everything the fetch brought
/// back: its address is the request's, and its status, HTML, times and
/// links are those of the fetch, whatever depth the request had left; a
/// fetch that brought back no page hands the listener nothing.
pub proof fn lemma_task_page_keeps_the_fetch(
    request: RequestView,
    other: RequestView,
    fetched: FetchView,
    start: i128,
    end: i128,
)
    ensures
        fetched matches FetchView::Fetched(status, body, links) ==> {
            &&& task_page(request, fetched, start, end) is Some
            &&& task_page(request, fetched, start, end)->0.metadata.url == request.source
            &&& task_page(request, fetched, start, end)->0.metadata.status == status
            &&& task_page(request, fetched, start, end)->0.metadata.timestamp_start == start
            &&& task_page(request, fetched, start, end)->0.metadata.timestamp_end == end
            &&& task_page(request, fetched, start, end)->0.metadata.discovered_links == links
            &&& task_page(request, fetched, start, end)->0.content == body
        },
        !(fetched is Fetched) ==> task_page(request, fetched, start, end) is None,
        other.source == request.source ==> task_page(other, fetched, start, end) == task_page(request, fetched, start, end),
{
}

/// Where an event of a crawl comes from.
pub enum EventOrigin {
    /// The command that started the crawl.
    Command,
    /// The request of index `.1` among those queued by the action of index `.0`.
    Queued(int, int),
    /// The event of index `.2` reported by the task of the fetch action of
    /// index `.0`, whose fetch went as `.1` says.
    Task(int, FetchView, int),
    /// The skip decided by the action of index `.0`, fed back.
    Fed(int),
    /// The listener is gone.
    Stop,
}

/// Whether event `k` of a crawl, among `events` on which the manager acted
/// with `actions`, comes from where `origin` says.
pub open spec fn origin_ok(
    command: RequestView,
    events: Seq<EventView>,
    actions: Seq<ActionView>,
    k: int,
    origin: EventOrigin,
) -> bool {
    match origin {
        EventOrigin::Command => k == 0 && events[k] == EventView::Request(command),
        EventOrigin::Queued(j, i) => {
            &&& 0 <= j < k
            &&& actions[j] is Queue
            &&& 0 <= i < actions[j]->Queue_2.len()
            &&& events[k] == EventView::Request(actions[j]->Queue_2[i])
        },
        EventOrigin::Task(j, fetched, i) => {
            &&& 0 <= j < k
            &&& actions[j] is Fetch
            &&& 0 <= i < task_events(actions[j]->Fetch_0, fetched).len()
            &&& events[k] == task_events(actions[j]->Fetch_0, fetched)[i]
        },
        EventOrigin::Fed(j) => 0 <= j < k && actions[j] is Skip && events[k] == EventView::Skipped(actions[j]->Skip_0),
        EventOrigin::Stop => events[k] is Terminate,
    }
}

/// Whether `events` are what the manager of a crawl started by `command`
/// sees, each from where `origins` says: the command first, then what the
/// manager's own actions and the tasks of its fetches feed back.
pub open spec fn crawl_trace(command: RequestView, visited: Set<Seq<char>>, events: Seq<EventView>, origins: Seq<EventOrigin>) -> bool {
    &&& origins.len() == events.len()
    &&& forall|k: int| 0 <= k < events.len()
        ==> origin_ok(command, events, manager_run(visited, events).1, k, #[trigger] origins[k])
}

/// Whether the task of the fetch action of index `m` reported, among the
/// links of the page it fetched, the page `u`.
pub open spec fn link_reported(origins: Seq<EventOrigin>, m: int, u: UrlView) -> bool {
    exists|j: int| 0 <= j < origins.len() && {
        &&& (#[trigger] origins[j]) matches EventOrigin::Task(jm, fetched, _)
        &&& jm == m
        &&& fetched matches FetchView::Fetched(_, _, links)
        &&& links.contains(u)
    }
}

/// Whether the fetch actions of indices `chain` lead from the command's page
/// along links: the first fetches the command's page with the command's
/// depth, and each next one, later in the run, fetches a page that the task
/// of the one before reported as a link, with one level less depth.
pub open spec fn fetch_chain(
    command: RequestView,
    actions: Seq<ActionView>,
    origins: Seq<EventOrigin>,
    chain: Seq<int>,
) -> bool {
    &&& chain.len() > 0
    &&& forall|i: int| 0 <= i < chain.len() ==> {
        &&& 0 <= #[trigger] chain[i] < actions.len()
        &&& actions[chain[i]] is Fetch
        &&& actions[chain[i]]->Fetch_0.depth == command.depth - i
    }
    &&& actions[chain[0]]->Fetch_0.source == command.source
    &&& forall|i: int| 0 <= i < chain.len() - 1 ==> {
        &&& #[trigger] chain[i] < chain[i + 1]
        &&& link_reported(origins, chain[i], actions[chain[i + 1]]->Fetch_0.source)
    }
}

/// In a crawl started by one request of depth `d`, every page fetched is the
/// requested page or is reached from it by a chain of at most `d` links, each
/// from a page fetched before, as its task reported them; with depth 0 only
/// the requested page is fetched.
pub proof fn lemma_crawl_depth(
    command: RequestView,
    visited: Set<Seq<char>>,
    events: Seq<EventView>,
    origins: Seq<EventOrigin>,
    k: int,
)
    requires
        crawl_trace(command, visited, events, origins),
        0 <= k < events.len(),
        manager_run(visited, events).1[k] is Fetch,
    ensures
        exists|chain: Seq<int>| {
            &&& #[trigger] fetch_chain(command, manager_run(visited, events).1, origins, chain)
            &&& chain.last() == k
            &&& chain.len() <= command.depth + 1
        },
        command.depth == 0 ==> manager_run(visited, events).1[k]->Fetch_0.source == command.source,
    decreases k,
{
    let actions = manager_run(visited, events).1;
    lemma_fetch_at_most_once(visited, events);
    lemma_run_prefix(visited, events, k);
    let r = actions[k]->Fetch_0;
    assert(events[k] == EventView::Request(r) && r.depth >= 0);
    let o = origins[k];
    assert(origin_ok(command, events, actions, k, o));
    let chain: Seq<int> = match o {
        EventOrigin::Command => {
            let c = seq![k];
            assert(c[0] == k);
            assert(fetch_chain(command, actions, origins, c));
            c
        },
        EventOrigin::Queued(j, i) => {
            lemma_run_prefix(visited, events, j);
            let b = events[j];
            let oj = origins[j];
            assert(origin_ok(command, events, actions, j, oj));
            let m = oj->Task_0;
            let fetched = oj->Task_1;
            let i2 = oj->Task_2;
            let rm = actions[m]->Fetch_0;
            let links = fetched->Fetched_2;
            assert(events[j] == task_events(rm, fetched)[i2]);
            assert(rm.depth > 0);
            assert(b == EventView::Branch(rm.source, rm.depth, links));
            assert(r == branch_requests(links, rm.depth)[i]);
            assert(links.contains(r.source)) by {
                assert(links[i] == r.source);
            }
            assert(link_reported(origins, m, r.source));
            lemma_crawl_depth(command, visited, events, origins, m);
            let cm = choose|c: Seq<int>| {
                &&& #[trigger] fetch_chain(command, actions, origins, c)
                &&& c.last() == m
                &&& c.len() <= command.depth + 1
            };
            let c = cm.push(k);
            assert(cm[cm.len() - 1] == m);
            assert forall|x: int| 0 <= x < c.len() implies {
                &&& 0 <= #[trigger] c[x] < actions.len()
                &&& actions[c[x]] is Fetch
                &&& actions[c[x]]->Fetch_0.depth == command.depth - x
            } by {
                if x < cm.len() {
                    assert(c[x] == cm[x]);
                }
            }
            assert forall|x: int| 0 <= x < c.len() - 1 implies {
                &&& #[trigger] c[x] < c[x + 1]
                &&& link_reported(origins, c[x], actions[c[x + 1]]->Fetch_0.source)
            } by {
                assert(c[x] == cm[x]);
                if x < cm.len() - 1 {
                    assert(c[x + 1] == cm[x + 1]);
                }
            }
            assert(c[0] == cm[0]);
            assert(fetch_chain(command, actions, origins, c));
            c
        },
        _ => {
            assert(false);
            seq![k]
        },
    };
    assert(fetch_chain(command, actions, origins, chain) && chain.last() == k && chain.len() <= command.depth + 1);
    if command.depth == 0 {
        assert(chain.len() == 1);
    }
}

} // verus!
