//! The map of the site: every anchor of every generated page, as a link
//! from that page.

use vstd::prelude::*;
use crate::rust_state::state::{LinkView, SiteLinks, VecSiteLinks};

verus! {

/// Whether `scraper::Selector::parse` accepts the CSS selector `selector`.
pub uninterp spec fn selector_parses(selector: Seq<char>) -> bool;

/// The elements that the parsed selector `selector` picks in the HTML
/// document `document`, in the order of the nodes of the parsed tree, each as
/// the value of its attribute `attr` (if it has one) and its inner HTML.
pub uninterp spec fn selected_elements(
    document: Seq<char>,
    selector: Seq<char>,
    attr: Seq<char>,
) -> Seq<(Option<Seq<char>>, Seq<char>)>;

/// The views of a list of elements.
pub open spec fn element_views(v: Seq<(Option<String>, String)>) -> Seq<(Option<Seq<char>>, Seq<char>)> {
    v.map_values(
        |e: (Option<String>, String)|
            (
                match e.0 {
                    Some(a) => Some(a@),
                    None => None,
                },
                e.1@,
            ),
    )
}

/// Calls `scraper::Html::parse_document` on `document` and
/// `scraper::Selector::parse` on `selector`; where the selector parses, runs
/// `Html::select` and keeps, of each element, `ElementRef::attr(attr)` and
/// `ElementRef::inner_html`. The contract names the two results (whether the
/// selector parses, which depends on the selector alone, and the elements)
/// and says nothing more of them: parsing and selecting is scraper's own
/// logic.
#[verifier::external_body]
fn select_elements(document: &str, selector: &str, attr: &str) -> (res: Option<Vec<(Option<String>, String)>>)
    ensures
        (res is Some) == selector_parses(selector@),
        res matches Some(v) ==> selected_elements(document@, selector@, attr@) == element_views(v@),
{
    let html = scraper::Html::parse_document(document);
    match scraper::Selector::parse(selector) {
        Ok(sel) => {
            let mut elements = Vec::new();
            for e in html.select(&sel) {
                elements.push((e.attr(attr).map(str::to_string), e.inner_html()));
            }
            Some(elements)
        },
        Err(_) => None,
    }
}

/// The anchors of a page: each `a` element, with its `href` and inner HTML.
pub open spec fn page_anchors(contents: Seq<char>) -> Seq<(Option<Seq<char>>, Seq<char>)> {
    selected_elements(contents, "a"@, "href"@)
}

/// Every anchor has an `href`.
pub open spec fn all_have_href(anchors: Seq<(Option<Seq<char>>, Seq<char>)>) -> bool {
    forall|i: int| 0 <= i < anchors.len() ==> (#[trigger] anchors[i]).0 is Some
}

/// The links of the page at `path` with the anchors `anchors`.
pub open spec fn anchor_links(path: Seq<char>, anchors: Seq<(Option<Seq<char>>, Seq<char>)>) -> Seq<LinkView> {
    anchors.map_values(|a: (Option<Seq<char>>, Seq<char>)| (path, a.0->0, a.1))
}

/// The links of the pages `(path, contents)`, page after page.
pub open spec fn links_of_pages(pages: Seq<(Seq<char>, Seq<char>)>) -> Seq<LinkView>
    decreases pages.len(),
{
    if pages.len() == 0 {
        Seq::empty()
    } else {
        links_of_pages(pages.drop_last()) + anchor_links(pages.last().0, page_anchors(pages.last().1))
    }
}

/// The links of the pages can be collected: where there is a page, the
/// selector `a` parses, and every anchor of every page has an `href`.
pub open spec fn site_map_possible(pages: Seq<(Seq<char>, Seq<char>)>) -> bool {
    &&& pages.len() > 0 ==> selector_parses("a"@)
    &&& forall|i: int| 0 <= i < pages.len() ==> all_have_href(page_anchors(#[trigger] pages[i].1))
}

/// The views of a list of `(path, contents)` pages.
pub open spec fn page_views(pages: Seq<(String, String)>) -> Seq<(Seq<char>, Seq<char>)> {
    pages.map_values(|p: (String, String)| (p.0@, p.1@))
}

/// The links of the page at `path`: one per anchor, to its `href`, showing
/// its inner HTML.
pub fn page_links(path: &String, anchors: &Vec<(Option<String>, String)>) -> (res: Vec<SiteLinks>)
    requires
        all_have_href(element_views(anchors@)),
    ensures
        res@.map_values(|l: SiteLinks| l@) == anchor_links(path@, element_views(anchors@)),
{
    let ghost els = element_views(anchors@);
    let mut res: Vec<SiteLinks> = Vec::new();
    for i in 0..anchors.len()
        invariant
            els == element_views(anchors@),
            all_have_href(els),
            res@.map_values(|l: SiteLinks| l@) == anchor_links(path@, els).take(i as int),
    {
        assert(els[i as int].0 is Some);
        assert(els[i as int].1 == anchors@[i as int].1@);
        let href = match &anchors[i].0 {
            Some(h) => {
                assert(els[i as int].0 == Some(h@));
                h.clone()
            },
            None => {
                assert(false);
                String::new()
            },
        };
        let link = SiteLinks { path: path.clone(), href, disp: anchors[i].1.clone() };
        assert(link@ == anchor_links(path@, els)[i as int]);
        let ghost prev = res@.map_values(|l: SiteLinks| l@);
        res.push(link);
        assert(res@.map_values(|l: SiteLinks| l@) =~= prev.push(link@));
        assert(anchor_links(path@, els).take(i + 1) =~= anchor_links(path@, els).take(i as int).push(
            anchor_links(path@, els)[i as int],
        ));
    }
    assert(anchor_links(path@, els).take(anchors.len() as int) =~= anchor_links(path@, els));
    res
}

/// Whether the links of the pages `(path, contents)` can be collected: the
/// condition under which `make_site_map` may be called.
pub fn site_map_possible_for(pages: &Vec<(String, String)>) -> (res: bool)
    ensures
        res == site_map_possible(page_views(pages@)),
{
    let ghost all = page_views(pages@);
    for i in 0..pages.len()
        invariant
            all == page_views(pages@),
            forall|k: int| 0 <= k < i ==> all_have_href(page_anchors(#[trigger] all[k].1)),
            i > 0 ==> selector_parses("a"@),
    {
        assert(all[i as int] == (pages@[i as int].0@, pages@[i as int].1@));
        let anchors = match select_elements(pages[i].1.as_str(), "a", "href") {
            Some(a) => a,
            None => {
                return false;
            },
        };
        for j in 0..anchors.len()
            invariant
                all == page_views(pages@),
                0 <= i < pages@.len(),
                all[i as int].1 == pages@[i as int].1@,
                page_anchors(all[i as int].1) == element_views(anchors@),
                forall|k: int| 0 <= k < j ==> (#[trigger] element_views(anchors@)[k]).0 is Some,
        {
            if anchors[j].0.is_none() {
                assert(element_views(anchors@)[j as int].0 is None);
                assert(!all_have_href(page_anchors(all[i as int].1)));
                return false;
            }
            assert(element_views(anchors@)[j as int].0 is Some);
        }
    }
    true
}

/// Adds to `site_map` the links of the pages `(path, contents)`, page after
/// page: one per anchor, to its `href`, showing its inner HTML.
pub fn make_site_map(site_map: VecSiteLinks, pages: &Vec<(String, String)>) -> (res: VecSiteLinks)
    requires
        site_map_possible(page_views(pages@)),
    ensures
        res@ == site_map@ + links_of_pages(page_views(pages@)),
{
    let ghost all = page_views(pages@);
    let ghost start = site_map@;
    let mut site_map = site_map;
    assert(all.take(0) =~= Seq::<(Seq<char>, Seq<char>)>::empty());
    for i in 0..pages.len()
        invariant
            all == page_views(pages@),
            site_map_possible(all),
            site_map@ == start + links_of_pages(all.take(i as int)),
    {
        assert(all.take(i + 1).drop_last() == all.take(i as int));
        assert(all.take(i + 1).last() == (pages@[i as int].0@, pages@[i as int].1@));
        assert(all[i as int] == all.take(i + 1).last());
        let ghost before = site_map@;
        let anchors = match select_elements(pages[i].1.as_str(), "a", "href") {
            Some(a) => a,
            None => {
                assert(false);
                Vec::new()
            },
        };
        assert(all_have_href(page_anchors(all[i as int].1)));
        assert(page_anchors(all[i as int].1) == element_views(anchors@));
        let links = page_links(&pages[i].0, &anchors);
        let ghost new_links = links@.map_values(|l: SiteLinks| l@);
        for k in 0..links.len()
            invariant
                new_links == links@.map_values(|l: SiteLinks| l@),
                site_map@ == before + new_links.take(k as int),
        {
            let link = links[k].clone();
            site_map.add_vec(link);
            assert(new_links.take(k + 1) == new_links.take(k as int).push(new_links[k as int]));
        }
        assert(new_links.take(links.len() as int) == new_links);
        assert(site_map@ =~= start + links_of_pages(all.take(i + 1)));
    }
    assert(all.take(pages.len() as int) == all);
    site_map
}

/// The links of the pages added to `site_map` where they can be collected
/// (see `make_site_map`); `None` where the selector does not parse or an
/// anchor has no `href`.
pub fn try_make_site_map(site_map: VecSiteLinks, pages: &Vec<(String, String)>) -> (res: Option<VecSiteLinks>)
    ensures
        res is Some <==> site_map_possible(page_views(pages@)),
        res matches Some(map) ==> map@ == site_map@ + links_of_pages(page_views(pages@)),
{
    if site_map_possible_for(pages) {
        Some(make_site_map(site_map, pages))
    } else {
        None
    }
}

} // verus!
