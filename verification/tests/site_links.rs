use warp_page::rust_state::state::{SiteLinks, VecSiteLinks};
use warp_page::site_map::{make_site_map, page_links, site_map_possible_for, try_make_site_map};

fn link(p: &str, h: &str, d: &str) -> SiteLinks {
    SiteLinks { path: p.to_string(), href: h.to_string(), disp: d.to_string() }
}

fn triples(v: &VecSiteLinks) -> Vec<(String, String, String)> {
    v.links.iter().map(|l| (l.path.clone(), l.href.clone(), l.disp.clone())).collect()
}

#[test]
fn add_query_remove() {
    let mut v = VecSiteLinks { links: vec![] };
    let after = v.add_vec(link("a", "b", "c"));
    assert_eq!(triples(&after), triples(&v));
    v.add_vec(link("d", "e", "f"));
    assert_eq!(triples(&v.query_results()), triples(&v));
    let after = v.remove_vec(0);
    assert_eq!(triples(&after), vec![("d".to_string(), "e".to_string(), "f".to_string())]);
}

#[test]
fn remove_undoes_add() {
    let mut v = VecSiteLinks { links: vec![link("a", "b", "c")] };
    let before = triples(&v);
    v.add_vec(link("x", "y", "z"));
    v.remove_vec(1);
    assert_eq!(triples(&v), before);
}

#[test]
fn page_links_one_per_anchor() {
    let anchors = vec![(Some("/html/B.html".to_string()), "b".to_string())];
    let links = page_links(&"p.html".to_string(), &anchors);
    assert_eq!(links.len(), 1);
    assert_eq!(links[0].href, "/html/B.html");
    assert_eq!(links[0].disp, "b");
    assert_eq!(links[0].path, "p.html");
}

#[test]
fn site_map_of_pages() {
    let pages = vec![
        ("one.html".to_string(), "<p><a href='/html/B.html'/>b</a> <a href=\"x\">X</a></p>".to_string()),
        ("two.html".to_string(), "no anchors".to_string()),
        ("three.html".to_string(), "<a href=\"y\"><b>Y</b></a>".to_string()),
    ];
    let start = VecSiteLinks { links: vec![link("old", "h", "d")] };
    assert!(site_map_possible_for(&pages));
    let map = make_site_map(start, &pages);
    assert_eq!(
        triples(&map),
        vec![
            ("old".to_string(), "h".to_string(), "d".to_string()),
            ("one.html".to_string(), "/html/B.html".to_string(), "b".to_string()),
            ("one.html".to_string(), "x".to_string(), "X".to_string()),
            ("three.html".to_string(), "y".to_string(), "<b>Y</b>".to_string()),
        ]
    );
}

#[test]
fn anchor_without_href_fails() {
    let pages = vec![("one.html".to_string(), "<a name=\"n\">N</a>".to_string())];
    assert!(!site_map_possible_for(&pages));
    assert!(try_make_site_map(VecSiteLinks { links: vec![] }, &pages).is_none());
}

#[test]
fn try_site_map_of_good_pages() {
    let pages = vec![("p.html".to_string(), "<a href=\"q\">Q</a>".to_string())];
    let map = try_make_site_map(VecSiteLinks { links: vec![] }, &pages).unwrap();
    assert_eq!(triples(&map), vec![("p.html".to_string(), "q".to_string(), "Q".to_string())]);
    let empty = try_make_site_map(VecSiteLinks { links: vec![] }, &vec![]).unwrap();
    assert!(empty.links.is_empty());
}

#[test]
fn links_print_for_debugging() {
    let v = VecSiteLinks { links: vec![link("a", "b", "c")] };
    let shown = format!("{:?}", v);
    assert!(shown.contains("VecSiteLinks") && shown.contains("href: \"b\""));
}
