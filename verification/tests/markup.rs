use warp_page::markup::{applies, render_page, Markup, Parse};
use warp_page::obsidian_styles::styles::specpag;

fn page(s: &str) -> Parse {
    Parse { contents: s.to_string() }
}

#[test]
fn carriage_return_breaks_lines() {
    assert_eq!(page("one\ntwo").carriage_return().contents, "one<br/>two");
    assert_eq!(page("one line").carriage_return().contents, "one line");
}

#[test]
fn bold_text() {
    let mut p = page("a **b** c **d**");
    let out = p.add_bold_text_to_page().unwrap();
    assert_eq!(
        out.contents,
        "a <span style='font-weight: bold;'>b</span> c <span style='font-weight: bold;'>d</span>"
    );
    assert_eq!(p.contents, "a **b** c **d**");
}

#[test]
fn italic_text() {
    let mut p = page("an *odd* word");
    assert_eq!(
        p.add_italic_text_to_page().unwrap().contents,
        "an <span style='font-style: italic;'>odd</span> word"
    );
}

#[test]
fn headings() {
    let mut p = page("<br/>## Title<br/>");
    assert_eq!(p.add_h2_to_page().unwrap().contents, "<h2><br/> Title<br/></h2>");
    let mut p = page("<br/># Title<br/>");
    assert_eq!(p.add_h1_to_page().unwrap().contents, "<h1><br/> Title<br/></h1>");
}

#[test]
fn pictures() {
    let mut p = page("see ![[cat.png]] here");
    assert_eq!(
        p.add_picture_to_page().unwrap().contents,
        "see <img src='/img/cat.png'/> here"
    );
}

#[test]
fn page_links() {
    let mut p = page("go to [[Page]] or [[Other|there]]");
    assert_eq!(
        p.link_to_another_page().unwrap().contents,
        "go to <a href='/html/Page.html'/>Page</a> or <a href='/html/Other.html'/>there</a>"
    );
}

#[test]
fn block_links() {
    let mut p = page("[[Page#^b1|shown|rest]]");
    assert_eq!(
        p.link_to_another_page().unwrap().contents,
        "<a href='/html/Page.html'/>shown</a>"
    );
}

#[test]
fn block_link_without_text_fails() {
    let mut p = page("[[Page#^b1]]");
    assert!(p.link_to_another_page().is_none());
}

#[test]
fn links_left_alone() {
    let mut p = page("[[Page#Heading]] and [[cat.png]] and [[#^top]]");
    assert_eq!(
        p.link_to_another_page().unwrap().contents,
        "[[Page#Heading]] and [[cat.png]] and [[#^top]]"
    );
}

#[test]
fn apply_markup_replaces_each_spot_everywhere() {
    let p = page("x **a** y **a**");
    let out = p.apply_markup(Markup::Bold, &vec!["**a**".to_string()]);
    assert_eq!(
        out.contents,
        "x <span style='font-weight: bold;'>a</span> y <span style='font-weight: bold;'>a</span>"
    );
    assert_eq!(p.apply_markup(Markup::Link, &vec![]).contents, "x **a** y **a**");
}

#[test]
fn styling_wraps_only_styled_pages() {
    let styles = vec![
        ("./src/obsidian_project/A.md".to_string(), "color: red;".to_string()),
        ("./src/obsidian_project/B.md".to_string(), "color: blue;".to_string()),
    ];
    let p = page("text");
    assert_eq!(
        p.specific_page_styling("./src/obsidian_project/B.md".to_string(), &styles).contents,
        "<div style = 'color: blue;'>text</div>"
    );
    assert_eq!(
        p.specific_page_styling("./src/obsidian_project/C.md".to_string(), &styles).contents,
        "text"
    );
}

#[test]
fn whole_page() {
    let out = render_page(
        "./src/obsidian_project/A.md".to_string(),
        "\n## Head\n**bold** and *it*\n![[p.png]] [[B|b]]".to_string(),
        &vec![],
    )
    .unwrap();
    assert_eq!(
        out,
        "<h2><br/> Head<br/><span style='font-weight: bold;'>bold</span> and \
         <span style='font-style: italic;'>it</span><br/></h2><img src='/img/p.png'/> \
         <a href='/html/B.html'/>b</a>"
    );
}

#[test]
fn applies_checks_block_links() {
    assert!(applies(Markup::Link, &vec!["[[Page#^b|t]]".to_string(), "[[Page]]".to_string()]));
    assert!(!applies(Markup::Link, &vec!["[[Page#^b]]".to_string()]));
    assert!(applies(Markup::Bold, &vec!["[[Page#^b]]".to_string()]));
}

#[test]
fn every_rule_compiles() {
    for m in [Markup::Heading2, Markup::Heading1, Markup::Bold, Markup::Italic, Markup::Picture] {
        assert!(Parse { contents: "x".to_string() }.apply_markup(m, &vec![]).contents == "x");
        let mut p = page("plain");
        let out = match m {
            Markup::Heading2 => p.add_h2_to_page(),
            Markup::Heading1 => p.add_h1_to_page(),
            Markup::Bold => p.add_bold_text_to_page(),
            Markup::Italic => p.add_italic_text_to_page(),
            _ => p.add_picture_to_page(),
        };
        assert_eq!(out.unwrap().contents, "plain");
    }
}

#[test]
fn style_table_starts_empty() {
    assert!(specpag().is_empty());
}

#[test]
fn style_of_unique_entry_does_not_depend_on_order() {
    let mut styles = vec![
        ("A.md".to_string(), "color: red;".to_string()),
        ("B.md".to_string(), "color: blue;".to_string()),
        ("C.md".to_string(), "color: green;".to_string()),
    ];
    let p = page("t");
    let first = p.specific_page_styling("B.md".to_string(), &styles).contents;
    styles.reverse();
    let second = p.specific_page_styling("B.md".to_string(), &styles).contents;
    assert_eq!(first, "<div style = 'color: blue;'>t</div>");
    assert_eq!(first, second);
}
