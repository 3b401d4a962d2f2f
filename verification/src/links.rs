//! What a fetched page links to: the anchors of an HTML document, resolved
//! against the page's URL and normalised.

use vstd::prelude::*;
use crate::text::{str_equal, str_starts_with, starts_with};
use crate::weburl::{UrlView, WebUrl, opt_string_view, spec_url_join, spec_url_without_fragment, spec_url_without_query};

verus! {

/// The CSS selector of the anchors whose links are followed.
pub open spec fn anchor_selector() -> Seq<char> {
    "a[href]"@
}

/// The attribute that holds an anchor's link.
pub open spec fn link_attribute() -> Seq<char> {
    "href"@
}

/// What `scraper` selects in an HTML document: for each element that the
/// selector matches, in the order in which `Html::select` yields them (the
/// order in which the parser created the nodes), the value of the attribute
/// if the element has it (`None` where the selector does not parse).
pub uninterp spec fn spec_select_attribute(
    html: Seq<char>,
    selector: Seq<char>,
    attribute: Seq<char>,
) -> Option<Seq<Option<Seq<char>>>>;

pub open spec fn opt_strings_view(v: Seq<Option<String>>) -> Seq<Option<Seq<char>>> {
    v.map_values(|o: Option<String>| opt_string_view(o))
}

/// Calls `scraper::Selector::parse`, `scraper::Html::parse_document`,
/// `Html::select` and `Element::attr`. Claims that the values read are the
/// named outcome of selecting in `html` (the result depends on the three
/// strings alone).
#[verifier::external_body]
fn select_attribute(html: &str, selector: &str, attribute: &str) -> (res: Option<Vec<Option<String>>>)
    ensures
        match res {
            Some(v) => spec_select_attribute(html@, selector@, attribute@) == Some(opt_strings_view(v@)),
            None => spec_select_attribute(html@, selector@, attribute@) is None,
        },
{
    let selector = scraper::Selector::parse(selector).ok()?;
    let document = scraper::Html::parse_document(html);
    Some(document.select(&selector).map(|e| e.value().attr(attribute).map(|a| a.to_string())).collect())
}

/// Only links of these schemes are followed.
pub open spec fn is_web_scheme(scheme: Seq<char>) -> bool {
    scheme == "http"@ || scheme == "https"@
}

/// The link that one anchor contributes: its reference resolved against the
/// page's URL, kept only for the web schemes, without fragment and query.
pub open spec fn normalized_link(base: UrlView, href: Option<Seq<char>>) -> Option<UrlView> {
    match href {
        None => None,
        Some(h) => match spec_url_join(base, h) {
            Some(abs) => if is_web_scheme(abs.scheme) {
                Some(spec_url_without_query(spec_url_without_fragment(abs)))
            } else {
                None
            },
            None => None,
        },
    }
}

/// Whether `links` holds a URL with the serialization of `u`.
pub open spec fn holds_url(links: Seq<UrlView>, u: UrlView) -> bool {
    exists|i: int| 0 <= i < links.len() && links[i].serialization == u.serialization
}

/// The distinct links of a sequence of anchors, in the order in which they
/// first occur.
pub open spec fn collect_links(base: UrlView, hrefs: Seq<Option<Seq<char>>>) -> Seq<UrlView>
    decreases hrefs.len(),
{
    if hrefs.len() == 0 {
        Seq::empty()
    } else {
        let prev = collect_links(base, hrefs.drop_last());
        match normalized_link(base, hrefs.last()) {
            Some(u) => if holds_url(prev, u) {
                prev
            } else {
                prev.push(u)
            },
            None => prev,
        }
    }
}

/// The links of the page at `base` whose HTML is `html`.
pub open spec fn page_links(base: UrlView, html: Seq<char>) -> Seq<UrlView> {
    match spec_select_attribute(html, anchor_selector(), link_attribute()) {
        Some(hrefs) => collect_links(base, hrefs),
        None => Seq::empty(),
    }
}

pub open spec fn url_views(v: Seq<WebUrl>) -> Seq<UrlView> {
    v.map_values(|u: WebUrl| u@)
}

/// No two of the URLs have the same serialization.
pub open spec fn distinct_urls(v: Seq<UrlView>) -> bool {
    forall|i: int, j: int|
        0 <= i < v.len() && 0 <= j < v.len() && i != j ==> v[i].serialization != v[j].serialization
}

/// A followed link: of a web scheme, without fragment and without query.
pub open spec fn is_clean_link(u: UrlView) -> bool {
    is_web_scheme(u.scheme) && u.fragment is None && u.query is None
}

fn is_web_scheme_exec(scheme: &str) -> (res: bool)
    ensures
        res == is_web_scheme(scheme@),
{
    str_equal(scheme, "http") || str_equal(scheme, "https")
}

fn holds_url_exec(links: &Vec<WebUrl>, u: &WebUrl) -> (res: bool)
    ensures
        res == holds_url(url_views(links@), u@),
{
    let mut i: usize = 0;
    while i < links.len()
        invariant
            i <= links.len(),
            forall|j: int| 0 <= j < i ==> links@[j]@.serialization != u@.serialization,
        decreases links.len() - i,
    {
        if links[i].same_as(u) {
            assert(url_views(links@)[i as int] == links@[i as int]@);
            return true;
        }
        i = i + 1;
    }
    false
}

/// The links of the page at `base` whose HTML is `html`: for each anchor
/// `a[href]`, in the order in which `Html::select` yields them, the reference
/// resolved against `base`; links that do not resolve or whose scheme is
/// neither `http` nor `https` are dropped, fragment and query are removed,
/// and each link is kept once.
pub fn extract_links(base: &WebUrl, html: &str) -> (res: Vec<WebUrl>)
    ensures
        url_views(res@) == page_links(base@, html@),
        distinct_urls(url_views(res@)),
        forall|i: int| 0 <= i < res@.len() ==> is_clean_link(#[trigger] res@[i]@),
{
    let hrefs = match select_attribute(html, "a[href]", "href") {
        Some(h) => h,
        None => {
            return Vec::new();
        },
    };
    let ghost hv = opt_strings_view(hrefs@);
    let mut links: Vec<WebUrl> = Vec::new();
    let mut i: usize = 0;
    assert(hv.take(0) =~= Seq::<Option<Seq<char>>>::empty());
    assert(url_views(links@) =~= Seq::<UrlView>::empty());
    while i < hrefs.len()
        invariant
            i <= hrefs.len(),
            hv == opt_strings_view(hrefs@),
            url_views(links@) == collect_links(base@, hv.take(i as int)),
            distinct_urls(url_views(links@)),
            forall|k: int| 0 <= k < links@.len() ==> is_clean_link(#[trigger] links@[k]@),
        decreases hrefs.len() - i,
    {
        let ghost before = url_views(links@);
        assert(hv.take(i + 1).drop_last() =~= hv.take(i as int));
        assert(hv.take(i + 1).last() == hv[i as int]);
        match &hrefs[i] {
            Some(href) => {
                assert(hv[i as int] == Some(href@));
                match base.join(href.as_str()) {
                    Some(abs) => {
                        if is_web_scheme_exec(abs.scheme()) {
                            let no_fragment = abs.without_fragment();
                            let link = no_fragment.without_query();
                            if !holds_url_exec(&links, &link) {
                                links.push(link);
                                assert(url_views(links@) =~= before.push(link@));
                                assert forall|a: int, b: int|
                                    0 <= a < url_views(links@).len() && 0 <= b < url_views(links@).len() && a != b
                                    implies url_views(links@)[a].serialization != url_views(links@)[b].serialization by {
                                    if a == before.len() as int {
                                        assert(!(0 <= b < before.len() && before[b].serialization == link@.serialization));
                                    } else if b == before.len() as int {
                                        assert(!(0 <= a < before.len() && before[a].serialization == link@.serialization));
                                    }
                                }
                            }
                        }
                    },
                    None => {},
                }
            },
            None => {},
        }
        i = i + 1;
    }
    assert(hv.take(hrefs@.len() as int) =~= hv);
    links
}

/// Whether a response whose `Content-Type` header reads `content_type`
/// carries an HTML page. A missing or unreadable header counts as empty.
pub fn is_html_content_type(content_type: Option<&str>) -> (res: bool)
    ensures
        res == (content_type matches Some(ct) && starts_with(ct@, "text/html"@)),
{
    match content_type {
        Some(ct) => str_starts_with(ct, "text/html"),
        None => false,
    }
}

proof fn lemma_collect_links(base: UrlView, hrefs: Seq<Option<Seq<char>>>)
    ensures
        forall|k: int| 0 <= k < hrefs.len() && (#[trigger] normalized_link(base, hrefs[k])) is Some ==>
            exists|i: int| 0 <= i < collect_links(base, hrefs).len()
                && collect_links(base, hrefs)[i].serialization == normalized_link(base, hrefs[k])->0.serialization,
        forall|i: int| 0 <= i < collect_links(base, hrefs).len() ==>
            exists|k: int| 0 <= k < hrefs.len() && normalized_link(base, hrefs[k]) == Some(#[trigger] collect_links(base, hrefs)[i]),
    decreases hrefs.len(),
{
    if hrefs.len() > 0 {
        let pre = hrefs.drop_last();
        lemma_collect_links(base, pre);
        let prev = collect_links(base, pre);
        let res = collect_links(base, hrefs);
        let n = hrefs.len() - 1;
        assert forall|k: int| 0 <= k < hrefs.len() && (#[trigger] normalized_link(base, hrefs[k])) is Some implies
            exists|i: int| 0 <= i < res.len() && res[i].serialization == normalized_link(base, hrefs[k])->0.serialization by {
            if k < n {
                assert(hrefs[k] == pre[k]);
                let i = choose|i: int| 0 <= i < prev.len() && prev[i].serialization == normalized_link(base, pre[k])->0.serialization;
                assert(res[i] == prev[i]);
            } else {
                let u = normalized_link(base, hrefs[k])->0;
                if holds_url(prev, u) {
                    let i = choose|i: int| 0 <= i < prev.len() && prev[i].serialization == u.serialization;
                    assert(res[i] == prev[i]);
                } else {
                    assert(res[prev.len() as int] == u);
                }
            }
        }
        assert forall|i: int| 0 <= i < res.len() implies
            exists|k: int| 0 <= k < hrefs.len() && normalized_link(base, hrefs[k]) == Some(#[trigger] res[i]) by {
            if i < prev.len() {
                assert(res[i] == prev[i]);
                let k = choose|k: int| 0 <= k < pre.len() && normalized_link(base, pre[k]) == Some(prev[i]);
                assert(hrefs[k] == pre[k]);
            } else {
                assert(normalized_link(base, hrefs[n]) == Some(res[i]));
            }
        }
    }
}

/// The link of an anchor whose reference is `href`: the reference resolved
/// against `base`, where it resolves.
pub open spec fn resolved(base: UrlView, href: Option<Seq<char>>) -> Option<UrlView> {
    match href {
        Some(h) => spec_url_join(base, h),
        None => None,
    }
}

/// The links of a page are exactly its anchors' links, each kept once: for
/// every anchor whose reference resolves against the page's URL to an `http`
/// or `https` URL, the links hold a URL with the serialization of that URL
/// without fragment and query (links are merged only where these
/// serializations are equal); and every link is such a URL of some anchor.
pub proof fn lemma_page_links_are_the_anchors(base: UrlView, html: Seq<char>, hrefs: Seq<Option<Seq<char>>>)
    requires
        spec_select_attribute(html, anchor_selector(), link_attribute()) == Some(hrefs),
    ensures
        forall|k: int| 0 <= k < hrefs.len() && (#[trigger] resolved(base, hrefs[k])) is Some
            && (resolved(base, hrefs[k])->0.scheme == "http"@ || resolved(base, hrefs[k])->0.scheme == "https"@)
            ==> exists|i: int| 0 <= i < page_links(base, html).len()
                && page_links(base, html)[i].serialization
                    == spec_url_without_query(spec_url_without_fragment(resolved(base, hrefs[k])->0)).serialization,
        forall|i: int| #![trigger page_links(base, html)[i]] 0 <= i < page_links(base, html).len() ==>
            exists|k: int| {
                &&& 0 <= k < hrefs.len()
                &&& (#[trigger] resolved(base, hrefs[k])) is Some
                &&& (resolved(base, hrefs[k])->0.scheme == "http"@ || resolved(base, hrefs[k])->0.scheme == "https"@)
                &&& page_links(base, html)[i] == spec_url_without_query(spec_url_without_fragment(resolved(base, hrefs[k])->0))
            },
{
    lemma_collect_links(base, hrefs);
    let res = page_links(base, html);
    assert(res == collect_links(base, hrefs));
    assert forall|k: int| 0 <= k < hrefs.len() && (#[trigger] resolved(base, hrefs[k])) is Some
        && (resolved(base, hrefs[k])->0.scheme == "http"@ || resolved(base, hrefs[k])->0.scheme == "https"@)
        implies exists|i: int| 0 <= i < res.len()
            && res[i].serialization == spec_url_without_query(spec_url_without_fragment(resolved(base, hrefs[k])->0)).serialization by {
        assert(normalized_link(base, hrefs[k]) == Some(spec_url_without_query(spec_url_without_fragment(resolved(base, hrefs[k])->0))));
    }
    assert forall|i: int| #![trigger res[i]] 0 <= i < res.len() implies
        exists|k: int| {
            &&& 0 <= k < hrefs.len()
            &&& (#[trigger] resolved(base, hrefs[k])) is Some
            &&& (resolved(base, hrefs[k])->0.scheme == "http"@ || resolved(base, hrefs[k])->0.scheme == "https"@)
            &&& res[i] == spec_url_without_query(spec_url_without_fragment(resolved(base, hrefs[k])->0))
        } by {
        let k = choose|k: int| 0 <= k < hrefs.len() && normalized_link(base, hrefs[k]) == Some(res[i]);
        assert(resolved(base, hrefs[k]) is Some);
    }
}

} // verus!
