//! The relay between the crawler and the user interface: commands go to the
//! crawler, crawl responses go to the interface, and crawled pages are kept so
//! that the interface can ask for a page's text as Markdown.

use vstd::prelude::*;
use crate::crawler::{
    CommandView, CrawlCommand, CrawlError, CrawlResponse, ErrorView, MetadataView, PageMetadata,
    ParserResultView, ResponseView,
};
use crate::weburl::{UrlView, WebUrl, opt_string_view};

verus! {

/// The application: the crawler, the relay and the interface together.
pub struct App {}

impl App {
    pub fn new() -> (res: App) {
        App {}
    }
}

/// What the interface asks for.
pub enum AppRequest {
    Crawler(CrawlCommand),
    /// The Markdown text of a crawled page.
    Markdown(WebUrl),
}

/// What the interface is told of the crawl.
pub enum CrawlEvent {
    Page(PageMetadata),
    Queued(WebUrl, usize),
    Skipped(WebUrl),
    Error(WebUrl, CrawlError),
}

/// What the interface receives.
pub enum AppResponse {
    Crawler(CrawlEvent),
    /// A page's text as Markdown.
    Markdown(WebUrl, String),
}

pub enum CrawlEventView {
    Page(MetadataView),
    Queued(UrlView, usize),
    Skipped(UrlView),
    Error(UrlView, ErrorView),
}

impl View for CrawlEvent {
    type V = CrawlEventView;

    open spec fn view(&self) -> CrawlEventView {
        match self {
            CrawlEvent::Page(m) => CrawlEventView::Page(m@),
            CrawlEvent::Queued(u, n) => CrawlEventView::Queued(u@, *n),
            CrawlEvent::Skipped(u) => CrawlEventView::Skipped(u@),
            CrawlEvent::Error(u, e) => CrawlEventView::Error(u@, e@),
        }
    }
}

pub enum AppResponseView {
    Crawler(CrawlEventView),
    Markdown(UrlView, Seq<char>),
}

impl View for AppResponse {
    type V = AppResponseView;

    open spec fn view(&self) -> AppResponseView {
        match self {
            AppResponse::Crawler(e) => AppResponseView::Crawler(e@),
            AppResponse::Markdown(u, t) => AppResponseView::Markdown(u@, t@),
        }
    }
}

pub enum AppRequestView {
    Crawler(CommandView),
    Markdown(UrlView),
}

impl View for AppRequest {
    type V = AppRequestView;

    open spec fn view(&self) -> AppRequestView {
        match self {
            AppRequest::Crawler(c) => AppRequestView::Crawler(c@),
            AppRequest::Markdown(u) => AppRequestView::Markdown(u@),
        }
    }
}

/// What the relay does with a message.
pub enum RelayAction {
    /// Hand the command to the crawler; stop relaying if the crawler is gone.
    ToCrawler(CrawlCommand),
    /// Hand the response to the interface; stop relaying if it is gone.
    ToView(AppResponse),
    Nothing,
}

/// What `html_to_markdown_rs::convert` makes of an HTML text with the default
/// options: `None` where it fails, else the converted content, if any.
pub uninterp spec fn spec_html_to_markdown(html: Seq<char>) -> Option<Option<Seq<char>>>;

/// Calls `html_to_markdown_rs::convert` with the default options. Claims that
/// the outcome is the named one for `html` (the conversion depends on its
/// input alone).
#[verifier::external_body]
fn html_to_markdown(html: &str) -> (res: Option<Option<String>>)
    ensures
        match res {
            Some(c) => spec_html_to_markdown(html@) == Some(opt_string_view(c)),
            None => spec_html_to_markdown(html@) is None,
        },
{
    match html_to_markdown_rs::convert(html, None) {
        Ok(result) => Some(result.content),
        Err(_) => None,
    }
}

/// The text shown where a page could not be converted.
pub open spec fn conversion_failure_text() -> Seq<char> {
    "Failed to parse html into markdown."@
}

/// The Markdown text of a page's HTML: the converted content (empty where the
/// conversion gives none), or a notice where it fails.
pub open spec fn markdown_text(html: Seq<char>) -> Seq<char> {
    match spec_html_to_markdown(html) {
        Some(Some(content)) => content,
        Some(None) => Seq::empty(),
        None => conversion_failure_text(),
    }
}

/// The Markdown text of a page's HTML.
pub fn page_markdown(html: &str) -> (res: String)
    ensures
        res@ == markdown_text(html@),
{
    match html_to_markdown(html) {
        Some(Some(content)) => content,
        Some(None) => String::new(),
        None => String::from_str("Failed to parse html into markdown."),
    }
}

/// The crawled pages the relay keeps: each page's HTML by its URL.
pub struct PageCache {
    pages: Vec<(WebUrl, String)>,
}

impl View for PageCache {
    type V = Map<Seq<char>, Seq<char>>;

    /// Each kept page's HTML, by the serialization of its URL.
    closed spec fn view(&self) -> Map<Seq<char>, Seq<char>> {
        Map::new(
            |k: Seq<char>| exists|i: int| 0 <= i < self.pages@.len() && self.pages@[i].0@.serialization == k,
            |k: Seq<char>| self.pages@[choose|i: int| 0 <= i < self.pages@.len() && self.pages@[i].0@.serialization == k].1@,
        )
    }
}

impl PageCache {
    /// Every URL occurs once.
    pub closed spec fn wf(&self) -> bool {
        forall|i: int, j: int| 0 <= i < self.pages@.len() && 0 <= j < self.pages@.len() && i != j
            ==> self.pages@[i].0@.serialization != self.pages@[j].0@.serialization
    }

    pub fn new() -> (res: PageCache)
        ensures
            res.wf(),
            res@ == Map::<Seq<char>, Seq<char>>::empty(),
    {
        let res = PageCache { pages: Vec::new() };
        assert(res@ =~= Map::<Seq<char>, Seq<char>>::empty());
        res
    }

    fn position(&self, url: &WebUrl) -> (res: Option<usize>)
        requires
            self.wf(),
        ensures
            match res {
                Some(i) => i < self.pages@.len() && self.pages@[i as int].0@.serialization == url@.serialization,
                None => !self@.contains_key(url@.serialization),
            },
    {
        let mut i: usize = 0;
        while i < self.pages.len()
            invariant
                i <= self.pages.len(),
                forall|j: int| 0 <= j < i ==> self.pages@[j].0@.serialization != url@.serialization,
            decreases self.pages.len() - i,
        {
            if self.pages[i].0.same_as(url) {
                return Some(i);
            }
            i = i + 1;
        }
        None
    }

    proof fn lemma_value_at(&self, i: int)
        requires
            self.wf(),
            0 <= i < self.pages@.len(),
        ensures
            self@.contains_key(self.pages@[i].0@.serialization),
            self@[self.pages@[i].0@.serialization] == self.pages@[i].1@,
    {
        let k = self.pages@[i].0@.serialization;
        assert(self@.dom().contains(k));
        let c = choose|j: int| 0 <= j < self.pages@.len() && self.pages@[j].0@.serialization == k;
        assert(c == i);
    }

    /// The HTML kept for `url`, if any.
    pub fn get(&self, url: &WebUrl) -> (res: Option<&String>)
        requires
            self.wf(),
        ensures
            match res {
                Some(c) => self@.contains_key(url@.serialization) && self@[url@.serialization] == c@,
                None => !self@.contains_key(url@.serialization),
            },
    {
        match self.position(url) {
            Some(i) => {
                proof {
                    self.lemma_value_at(i as int);
                }
                Some(&self.pages[i].1)
            },
            None => None,
        }
    }

    /// Keeps `content` as the HTML of `url`, replacing what was kept for it.
    pub fn insert(&mut self, url: WebUrl, content: String)
        requires
            old(self).wf(),
        ensures
            final(self).wf(),
            final(self)@ == old(self)@.insert(url@.serialization, content@),
    {
        let ghost k = url@.serialization;
        let ghost c = content@;
        match self.position(&url) {
            Some(i) => {
                self.pages.set(i, (url, content));
                proof {
                    assert forall|a: int, b: int| 0 <= a < self.pages@.len() && 0 <= b < self.pages@.len() && a != b
                        implies self.pages@[a].0@.serialization != self.pages@[b].0@.serialization by {
                        assert(old(self).pages@[i as int].0@.serialization == k);
                        if a != i && b != i {
                            assert(self.pages@[a] == old(self).pages@[a]);
                            assert(self.pages@[b] == old(self).pages@[b]);
                        } else if a == i {
                            assert(self.pages@[b] == old(self).pages@[b]);
                        } else {
                            assert(self.pages@[a] == old(self).pages@[a]);
                        }
                    }
                    assert forall|key: Seq<char>| #[trigger] self@.contains_key(key) == old(self)@.insert(k, c).contains_key(key) by {
                        if key == k {
                            assert(self.pages@[i as int].0@.serialization == k);
                        }
                        if old(self)@.insert(k, c).contains_key(key) && key != k {
                            let j = choose|j: int| 0 <= j < old(self).pages@.len() && old(self).pages@[j].0@.serialization == key;
                            assert(self.pages@[j] == old(self).pages@[j]);
                        }
                        if self@.contains_key(key) {
                            let j = choose|j: int| 0 <= j < self.pages@.len() && self.pages@[j].0@.serialization == key;
                            if j != i {
                                assert(self.pages@[j] == old(self).pages@[j]);
                            }
                        }
                    }
                    assert forall|key: Seq<char>| self@.contains_key(key) implies #[trigger] self@[key] == old(self)@.insert(k, c)[key] by {
                        let j = choose|j: int| 0 <= j < self.pages@.len() && self.pages@[j].0@.serialization == key;
                        self.lemma_value_at(j);
                        if j != i {
                            assert(self.pages@[j] == old(self).pages@[j]);
                            old(self).lemma_value_at(j);
                        }
                    }
                    assert(self@ =~= old(self)@.insert(k, c));
                }
            },
            None => {
                let ghost n = self.pages@.len();
                self.pages.push((url, content));
                proof {
                    assert forall|a: int, b: int| 0 <= a < self.pages@.len() && 0 <= b < self.pages@.len() && a != b
                        implies self.pages@[a].0@.serialization != self.pages@[b].0@.serialization by {
                        if a < n && b < n {
                            assert(self.pages@[a] == old(self).pages@[a]);
                            assert(self.pages@[b] == old(self).pages@[b]);
                        } else if a == n {
                            assert(self.pages@[b] == old(self).pages@[b]);
                            assert(!old(self)@.contains_key(k));
                            assert(!(0 <= b < old(self).pages@.len() && old(self).pages@[b].0@.serialization == k));
                        } else {
                            assert(self.pages@[a] == old(self).pages@[a]);
                            assert(!(0 <= a < old(self).pages@.len() && old(self).pages@[a].0@.serialization == k));
                        }
                    }
                    assert forall|key: Seq<char>| #[trigger] self@.contains_key(key) == old(self)@.insert(k, c).contains_key(key) by {
                        if old(self)@.insert(k, c).contains_key(key) {
                            if key == k {
                                assert(self.pages@[n as int].0@.serialization == k);
                            } else {
                                let j = choose|j: int| 0 <= j < old(self).pages@.len() && old(self).pages@[j].0@.serialization == key;
                                assert(self.pages@[j] == old(self).pages@[j]);
                            }
                        }
                        if self@.contains_key(key) {
                            let j = choose|j: int| 0 <= j < self.pages@.len() && self.pages@[j].0@.serialization == key;
                            if j < n {
                                assert(self.pages@[j] == old(self).pages@[j]);
                            }
                        }
                    }
                    assert forall|key: Seq<char>| self@.contains_key(key) implies #[trigger] self@[key] == old(self)@.insert(k, c)[key] by {
                        let j = choose|j: int| 0 <= j < self.pages@.len() && self.pages@[j].0@.serialization == key;
                        self.lemma_value_at(j);
                        if j < n {
                            assert(self.pages@[j] == old(self).pages@[j]);
                            old(self).lemma_value_at(j);
                        }
                    }
                    assert(self@ =~= old(self)@.insert(k, c));
                }
            },
        }
    }
}

pub enum RelayActionView {
    ToCrawler(CommandView),
    ToView(AppResponseView),
    Nothing,
}

impl View for RelayAction {
    type V = RelayActionView;

    open spec fn view(&self) -> RelayActionView {
        match self {
            RelayAction::ToCrawler(c) => RelayActionView::ToCrawler(c@),
            RelayAction::ToView(r) => RelayActionView::ToView(r@),
            RelayAction::Nothing => RelayActionView::Nothing,
        }
    }
}

/// What the relay does with a request of the interface, given the pages it
/// keeps: commands go to the crawler; a kept page's Markdown goes back to the
/// interface; a request for a page not kept is dropped.
pub open spec fn relay_request(pages: Map<Seq<char>, Seq<char>>, request: AppRequestView) -> RelayActionView {
    match request {
        AppRequestView::Crawler(c) => RelayActionView::ToCrawler(c),
        AppRequestView::Markdown(u) => if pages.contains_key(u.serialization) {
            RelayActionView::ToView(AppResponseView::Markdown(u, markdown_text(pages[u.serialization])))
        } else {
            RelayActionView::Nothing
        },
    }
}

/// What the relay keeps and does with a response of the crawler: a page is
/// kept (replacing what was kept for its URL) and its metadata goes on to the
/// interface; every other response goes on as it is.
pub open spec fn relay_response(pages: Map<Seq<char>, Seq<char>>, response: ResponseView) -> (Map<Seq<char>, Seq<char>>, RelayActionView) {
    match response {
        ResponseView::Page(p) => (
            pages.insert(p.metadata.url.serialization, p.content),
            RelayActionView::ToView(AppResponseView::Crawler(CrawlEventView::Page(p.metadata))),
        ),
        ResponseView::Queued(u, n) => (pages, RelayActionView::ToView(AppResponseView::Crawler(CrawlEventView::Queued(u, n)))),
        ResponseView::Skipped(u) => (pages, RelayActionView::ToView(AppResponseView::Crawler(CrawlEventView::Skipped(u)))),
        ResponseView::Error(u, e) => (pages, RelayActionView::ToView(AppResponseView::Crawler(CrawlEventView::Error(u, e)))),
    }
}

/// The relay between the interface and the crawler.
pub struct Relay {
    pages: PageCache,
}

impl View for Relay {
    type V = Map<Seq<char>, Seq<char>>;

    /// The pages kept: each page's HTML by the serialization of its URL.
    closed spec fn view(&self) -> Map<Seq<char>, Seq<char>> {
        self.pages@
    }
}

impl Relay {
    pub closed spec fn wf(&self) -> bool {
        self.pages.wf()
    }

    pub fn new() -> (res: Relay)
        ensures
            res.wf(),
            res@ == Map::<Seq<char>, Seq<char>>::empty(),
    {
        Relay { pages: PageCache::new() }
    }

    /// Decides on a request of the interface; see `relay_request`.
    pub fn on_view_request(&self, request: AppRequest) -> (res: RelayAction)
        requires
            self.wf(),
        ensures
            res@ == relay_request(self@, request@),
    {
        match request {
            AppRequest::Crawler(command) => RelayAction::ToCrawler(command),
            AppRequest::Markdown(url) => {
                match self.pages.get(&url) {
                    Some(content) => {
                        let markdown = page_markdown(content.as_str());
                        RelayAction::ToView(AppResponse::Markdown(url, markdown))
                    },
                    None => RelayAction::Nothing,
                }
            },
        }
    }

    /// Keeps and passes on a response of the crawler; see `relay_response`.
    pub fn on_crawler_response(&mut self, response: CrawlResponse) -> (res: RelayAction)
        requires
            old(self).wf(),
        ensures
            final(self).wf(),
            (final(self)@, res@) == relay_response(old(self)@, response@),
    {
        match response {
            CrawlResponse::Page(page) => {
                let url = page.metadata.url.duplicate();
                self.pages.insert(url, page.content);
                RelayAction::ToView(AppResponse::Crawler(CrawlEvent::Page(page.metadata)))
            },
            CrawlResponse::Queued(u, n) => RelayAction::ToView(AppResponse::Crawler(CrawlEvent::Queued(u, n))),
            CrawlResponse::Skipped(u) => RelayAction::ToView(AppResponse::Crawler(CrawlEvent::Skipped(u))),
            CrawlResponse::Error(u, e) => RelayAction::ToView(AppResponse::Crawler(CrawlEvent::Error(u, e))),
        }
    }
}

/// Once a page has been relayed, the interface's request for the Markdown of
/// that URL is answered with the Markdown of that page's HTML, whatever was
/// kept before; a page of another URL leaves the answer for a URL unchanged,
/// and responses other than pages leave the kept pages unchanged.
pub proof fn lemma_markdown_of_relayed_page(
    pages: Map<Seq<char>, Seq<char>>,
    response: ResponseView,
    url: UrlView,
)
    ensures
        response is Page && response->Page_0.metadata.url.serialization == url.serialization ==>
            relay_request(relay_response(pages, response).0, AppRequestView::Markdown(url))
                == RelayActionView::ToView(AppResponseView::Markdown(url, markdown_text(response->Page_0.content))),
        response is Page && response->Page_0.metadata.url.serialization != url.serialization ==>
            relay_request(relay_response(pages, response).0, AppRequestView::Markdown(url))
                == relay_request(pages, AppRequestView::Markdown(url)),
        !(response is Page) ==> relay_response(pages, response).0 == pages,
{
}

/// The relay hands every command of the interface to the crawler as it is:
/// the same request, with the same page and the same depth, or the same
/// termination, whatever pages it keeps.
pub proof fn lemma_commands_pass_unchanged(pages: Map<Seq<char>, Seq<char>>, command: CommandView)
    ensures
        relay_request(pages, AppRequestView::Crawler(command)) == RelayActionView::ToCrawler(command),
        command matches CommandView::Request(r) ==> relay_request(pages, AppRequestView::Crawler(command))
            matches RelayActionView::ToCrawler(CommandView::Request(sent))
            && sent.source == r.source && sent.depth == r.depth,
{
}

} // verus!
