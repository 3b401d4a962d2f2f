//! Absolute URLs, as parsed by the `url` crate (re-exported by `reqwest`).
//!
//! A [`WebUrl`] carries the parsed value together with the parts of it that
//! the rest of the library reads, held as plain strings.

use vstd::prelude::*;

verus! {

#[verifier::external_type_specification]
#[verifier::external_body]
pub struct ExUrl(reqwest::Url);

/// The parts of a URL that the library reads.
pub struct UrlView {
    pub serialization: Seq<char>,
    pub scheme: Seq<char>,
    pub domain: Option<Seq<char>>,
    pub path: Seq<char>,
    pub query: Option<Seq<char>>,
    pub fragment: Option<Seq<char>>,
}

pub open spec fn opt_string_view(o: Option<String>) -> Option<Seq<char>> {
    match o {
        Some(s) => Some(s@),
        None => None,
    }
}

/// An absolute URL. Two URLs are the same URL when their serializations are
/// equal, as for `url::Url`.
pub struct WebUrl {
    inner: reqwest::Url,
    serialization: String,
    scheme: String,
    domain: Option<String>,
    path: String,
    query: Option<String>,
    fragment: Option<String>,
}

impl View for WebUrl {
    type V = UrlView;

    closed spec fn view(&self) -> UrlView {
        UrlView {
            serialization: self.serialization@,
            scheme: self.scheme@,
            domain: opt_string_view(self.domain),
            path: self.path@,
            query: opt_string_view(self.query),
            fragment: opt_string_view(self.fragment),
        }
    }
}

/// What `url::Url::parse` makes of a string (`None` where it fails).
pub uninterp spec fn spec_url_parse(input: Seq<char>) -> Option<UrlView>;

/// What `url::Url::join` gives for a base URL and a reference (`None` where it fails).
pub uninterp spec fn spec_url_join(base: UrlView, input: Seq<char>) -> Option<UrlView>;

/// The URL that `url::Url::set_fragment(None)` leaves.
pub uninterp spec fn spec_url_without_fragment(url: UrlView) -> UrlView;

/// The URL that `url::Url::set_query(None)` leaves.
pub uninterp spec fn spec_url_without_query(url: UrlView) -> UrlView;

/// Calls `url::Url::parse`. Claims that the result is the named outcome of
/// parsing `input`, and that the parts held are those the parsed URL reports.
#[verifier::external_body]
fn url_parse(input: &str) -> (res: Option<WebUrl>)
    ensures
        match res {
            Some(u) => spec_url_parse(input@) == Some(u@),
            None => spec_url_parse(input@) is None,
        },
{
    match reqwest::Url::parse(input) {
        Ok(u) => Some(WebUrl {
            serialization: u.as_str().to_string(), scheme: u.scheme().to_string(),
            domain: u.domain().map(|d| d.to_string()), path: u.path().to_string(),
            query: u.query().map(|q| q.to_string()), fragment: u.fragment().map(|f| f.to_string()),
            inner: u,
        }),
        Err(_) => None,
    }
}

/// Calls `url::Url::join` on the held URL. Claims that the result is the
/// named outcome of resolving `input` against `base`.
#[verifier::external_body]
fn url_join(base: &WebUrl, input: &str) -> (res: Option<WebUrl>)
    ensures
        match res {
            Some(u) => spec_url_join(base@, input@) == Some(u@),
            None => spec_url_join(base@, input@) is None,
        },
{
    match base.inner.join(input) {
        Ok(u) => Some(WebUrl {
            serialization: u.as_str().to_string(), scheme: u.scheme().to_string(),
            domain: u.domain().map(|d| d.to_string()), path: u.path().to_string(),
            query: u.query().map(|q| q.to_string()), fragment: u.fragment().map(|f| f.to_string()),
            inner: u,
        }),
        Err(_) => None,
    }
}

/// Calls `url::Url::set_fragment(None)` on a copy of the held URL. Claims the
/// named result, and what the source of `set_fragment` shows: the fragment is
/// gone, and the scheme, the domain and the query are left as they were.
#[verifier::external_body]
fn url_clear_fragment(url: &WebUrl) -> (res: WebUrl)
    ensures
        res@ == spec_url_without_fragment(url@),
        res@.fragment is None,
        res@.scheme == url@.scheme,
        res@.domain == url@.domain,
        res@.query == url@.query,
{
    let mut u = url.inner.clone();
    u.set_fragment(None);
    WebUrl {
        serialization: u.as_str().to_string(), scheme: u.scheme().to_string(),
        domain: u.domain().map(|d| d.to_string()), path: u.path().to_string(),
        query: u.query().map(|q| q.to_string()), fragment: u.fragment().map(|f| f.to_string()),
        inner: u,
    }
}

/// Calls `url::Url::set_query(None)` on a copy of the held URL. Claims the
/// named result, and what the source of `set_query` shows: the query is gone,
/// and the scheme, the domain and the fragment are left as they were.
#[verifier::external_body]
fn url_clear_query(url: &WebUrl) -> (res: WebUrl)
    ensures
        res@ == spec_url_without_query(url@),
        res@.query is None,
        res@.scheme == url@.scheme,
        res@.domain == url@.domain,
        res@.fragment == url@.fragment,
{
    let mut u = url.inner.clone();
    u.set_query(None);
    WebUrl {
        serialization: u.as_str().to_string(), scheme: u.scheme().to_string(),
        domain: u.domain().map(|d| d.to_string()), path: u.path().to_string(),
        query: u.query().map(|q| q.to_string()), fragment: u.fragment().map(|f| f.to_string()),
        inner: u,
    }
}

/// Calls `Clone::clone` of `url::Url`. Nothing is claimed of the copy: the
/// type is opaque here, and what the library reads of a URL is held beside it.
#[verifier::external_body]
fn url_clone(url: &reqwest::Url) -> reqwest::Url {
    url.clone()
}

fn clone_opt_string(o: &Option<String>) -> (res: Option<String>)
    ensures
        opt_string_view(res) == opt_string_view(*o),
{
    match o {
        Some(s) => Some(s.clone()),
        None => None,
    }
}

impl WebUrl {
    /// Parses an absolute URL.
    pub fn parse(input: &str) -> (res: Option<WebUrl>)
        ensures
            match res {
                Some(u) => spec_url_parse(input@) == Some(u@),
                None => spec_url_parse(input@) is None,
            },
    {
        url_parse(input)
    }

    /// Resolves `input` against this URL.
    pub fn join(&self, input: &str) -> (res: Option<WebUrl>)
        ensures
            match res {
                Some(u) => spec_url_join(self@, input@) == Some(u@),
                None => spec_url_join(self@, input@) is None,
            },
    {
        url_join(self, input)
    }

    /// This URL without its fragment.
    pub fn without_fragment(&self) -> (res: WebUrl)
        ensures
            res@ == spec_url_without_fragment(self@),
            res@.fragment is None,
            res@.scheme == self@.scheme,
            res@.domain == self@.domain,
            res@.query == self@.query,
    {
        url_clear_fragment(self)
    }

    /// This URL without its query.
    pub fn without_query(&self) -> (res: WebUrl)
        ensures
            res@ == spec_url_without_query(self@),
            res@.query is None,
            res@.scheme == self@.scheme,
            res@.domain == self@.domain,
            res@.fragment == self@.fragment,
    {
        url_clear_query(self)
    }

    /// The whole URL as a string.
    pub fn as_str(&self) -> (res: &str)
        ensures
            res@ == self@.serialization,
    {
        self.serialization.as_str()
    }

    pub fn scheme(&self) -> (res: &str)
        ensures
            res@ == self@.scheme,
    {
        self.scheme.as_str()
    }

    /// The host, where it is a domain name (not an IP address).
    pub fn domain(&self) -> (res: Option<&str>)
        ensures
            match res {
                Some(d) => self@.domain == Some(d@),
                None => self@.domain is None,
            },
    {
        match &self.domain {
            Some(d) => Some(d.as_str()),
            None => None,
        }
    }

    pub fn path(&self) -> (res: &str)
        ensures
            res@ == self@.path,
    {
        self.path.as_str()
    }

    /// Whether both are the same URL (equal serializations).
    pub fn same_as(&self, other: &WebUrl) -> (res: bool)
        ensures
            res == (self@.serialization == other@.serialization),
    {
        self.serialization == other.serialization
    }

    /// A copy of this URL.
    pub fn duplicate(&self) -> (res: WebUrl)
        ensures
            res@ == self@,
    {
        WebUrl {
            inner: url_clone(&self.inner),
            serialization: self.serialization.clone(),
            scheme: self.scheme.clone(),
            domain: clone_opt_string(&self.domain),
            path: self.path.clone(),
            query: clone_opt_string(&self.query),
            fragment: clone_opt_string(&self.fragment),
        }
    }
}

impl Clone for WebUrl {
    fn clone(&self) -> (res: WebUrl)
        ensures
            res@ == self@,
    {
        self.duplicate()
    }
}

} // verus!
