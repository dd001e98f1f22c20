//! The rewriting of Obsidian markdown into HTML: page styles, bold and
//! italic text, line breaks, headings, pictures and links between pages.
//!
//! Each rule finds its spots in the text with a regular expression, and
//! then replaces every occurrence of each spot found by its HTML.

use vstd::prelude::*;
use crate::text::{contains, lemma_absent, lemma_find_at, lemma_occurs_char, lemma_replace_char_absent, lemma_replace_char_concat, lemma_replace_char_self, lemma_replace_concat, law_replace_absent_is_identity, occurs_at, replace, chars_of, find, find_chars, lemma_find_from, push_all, replace_all, replace_chars, string_from_chars, sub_chars};
use crate::pages::{is_image_name, is_an_image};

verus! {

/// The text of one page while it is being rewritten.
pub struct Parse {
    pub contents: String,
}

impl View for Parse {
    type V = Seq<char>;

    open spec fn view(&self) -> Seq<char> {
        self.contents@
    }
}

/// The rules that find their spots in the text with a regular expression.
#[derive(Clone, Copy)]
pub enum Markup {
    /// A `##` heading between two line breaks.
    Heading2,
    /// A `#` heading between two line breaks.
    Heading1,
    /// Text between `**` and `**`.
    Bold,
    /// Text between `*` and `*`.
    Italic,
    /// An embedded picture `![[...]]`.
    Picture,
    /// A link `[[...]]` to another page.
    Link,
}

impl Markup {
    /// The regular expression that finds the spots of the rule.
    pub open spec fn expression(self) -> Seq<char> {
        match self {
            Markup::Heading2 => r#"<br.>##\s+(.+)<br.>"#@,
            Markup::Heading1 => r#"<br.>\s*#([^<]+)<br.>"#@,
            Markup::Bold => r"(\*\*)(.*?)(\*\*)"@,
            Markup::Italic => r"\*(.*?)\*"@,
            Markup::Picture => r"!\[\[([^\[\[]+)\]\]"@,
            Markup::Link => r"\[\[([^\[\[]+)\]\]"@,
        }
    }

    /// The regular expression that finds the spots of the rule.
    pub fn pattern(&self) -> (res: &'static str)
        ensures
            res@ == self.expression(),
    {
        match self {
            Markup::Heading2 => r#"<br.>##\s+(.+)<br.>"#,
            Markup::Heading1 => r#"<br.>\s*#([^<]+)<br.>"#,
            Markup::Bold => r"(\*\*)(.*?)(\*\*)",
            Markup::Italic => r"\*(.*?)\*",
            Markup::Picture => r"!\[\[([^\[\[]+)\]\]",
            Markup::Link => r"\[\[([^\[\[]+)\]\]",
        }
    }
}

/// Whether `regex::Regex::new` accepts `pattern`.
pub uninterp spec fn regex_compiles(pattern: Seq<char>) -> bool;

/// What the compiled regular expression `pattern` finds in `haystack`: the
/// text of each match, left to right.
pub uninterp spec fn regex_captures(pattern: Seq<char>, haystack: Seq<char>) -> Seq<Seq<char>>;

/// The views of a list of strings.
pub open spec fn views(v: Seq<String>) -> Seq<Seq<char>> {
    v.map_values(|s: String| s@)
}

/// Calls `regex::Regex::new` on `pattern` and, where it compiles,
/// `Regex::captures_iter` on `haystack`, keeping the whole match (group 0)
/// of each capture. The contract names the two results (whether the pattern
/// compiles, which depends on the pattern alone, and the matches) and says
/// nothing more of them: which patterns compile and which texts match is
/// regex's own logic.
#[verifier::external_body]
fn regex_match_texts(pattern: &str, haystack: &str) -> (res: Option<Vec<String>>)
    ensures
        (res is Some) == regex_compiles(pattern@),
        res matches Some(v) ==> regex_captures(pattern@, haystack@) == views(v@),
{
    match regex::Regex::new(pattern) {
        Ok(re) => {
            let mut texts = Vec::new();
            for c in re.captures_iter(haystack) {
                texts.push(c[0].to_string());
            }
            Some(texts)
        },
        Err(_) => None,
    }
}

/// The target of a link `[[...]]`: the text with every bracket removed.
pub open spec fn link_target(cap: Seq<char>) -> Seq<char> {
    replace_all(replace_all(cap, "["@, ""@), "]"@, ""@)
}

/// A link to a whole page: no `#` in it, and not a picture.
pub open spec fn is_page_link(target: Seq<char>) -> bool {
    find(target, "#"@) is None && !is_image_name(target)
}

/// A link to a block of a page: `#^` in it, after its first character.
pub open spec fn is_block_link(target: Seq<char>) -> bool {
    find(target, "#^"@) matches Some(k) && k > 0
}

/// The anchor of a page link `page` or `page|shown text`.
pub open spec fn page_anchor(target: Seq<char>) -> Seq<char> {
    let href = match find(target, "|"@) {
        Some(k) => target.take(k),
        None => target,
    };
    let visible = match find(target, "|"@) {
        Some(k) => target.skip(k + 1),
        None => target,
    };
    "<a href='/html/"@ + href + ".html'/>"@ + visible + "</a>"@
}

/// The anchor of a block link `page#^block|shown text`: to the page before
/// `#^`, showing the text between the first `|` and the next one.
pub open spec fn block_anchor(target: Seq<char>) -> Seq<char> {
    let page = match find(target, "#^"@) {
        Some(k) => target.take(k),
        None => target,
    };
    let after_bar = match find(target, "|"@) {
        Some(k) => target.skip(k + 1),
        None => Seq::empty(),
    };
    let shown = match find(after_bar, "|"@) {
        Some(l) => after_bar.take(l),
        None => after_bar,
    };
    "<a href='/html/"@ + page + ".html'/>"@ + shown + "</a>"@
}

/// A block link without a `|`, whose shown text does not exist.
pub open spec fn link_lacks_text(cap: Seq<char>) -> bool {
    is_block_link(link_target(cap)) && find(link_target(cap), "|"@) is None
}

/// The HTML that replaces a spot `cap` found by rule `m`; `None` where the
/// spot stays as it is.
pub open spec fn rewrite(m: Markup, cap: Seq<char>) -> Option<Seq<char>> {
    match m {
        Markup::Heading2 => Some("<h2>"@ + replace_all(cap, "##"@, ""@) + "</h2>"@),
        Markup::Heading1 => Some("<h1>"@ + replace_all(cap, "#"@, ""@) + "</h1>"@),
        Markup::Bold => Some(
            "<span style='font-weight: bold;'>"@ + replace_all(cap, "**"@, ""@) + "</span>"@,
        ),
        Markup::Italic => Some(
            "<span style='font-style: italic;'>"@ + replace_all(cap, "*"@, ""@) + "</span>"@,
        ),
        Markup::Picture => Some(
            "<img src='/img/"@ + replace_all(
                replace_all(replace_all(cap, "["@, ""@), "]"@, ""@),
                "!"@,
                ""@,
            ) + "'/>"@,
        ),
        Markup::Link => {
            let target = link_target(cap);
            if is_page_link(target) {
                Some(page_anchor(target))
            } else if is_block_link(target) {
                Some(block_anchor(target))
            } else {
                None
            }
        },
    }
}

/// The spots `caps` can all be rewritten by rule `m`.
pub open spec fn markup_applies(m: Markup, caps: Seq<Seq<char>>) -> bool {
    m is Link ==> forall|i: int| 0 <= i < caps.len() ==> !link_lacks_text(#[trigger] caps[i])
}

/// `text` with the spots `caps` rewritten in turn: every occurrence of each
/// spot is replaced by its HTML.
pub open spec fn rewrite_all(m: Markup, text: Seq<char>, caps: Seq<Seq<char>>) -> Seq<char>
    decreases caps.len(),
{
    if caps.len() == 0 {
        text
    } else {
        let before = rewrite_all(m, text, caps.drop_last());
        match rewrite(m, caps.last()) {
            Some(html) => replace_all(before, caps.last(), html),
            None => before,
        }
    }
}

/// What rule `m` makes of `text`: `None` where its pattern does not compile
/// or a link has no text to show.
pub open spec fn markup_page(m: Markup, text: Seq<char>) -> Option<Seq<char>> {
    if !regex_compiles(m.expression()) {
        None
    } else {
        let caps = regex_captures(m.expression(), text);
        if markup_applies(m, caps) {
            Some(rewrite_all(m, text, caps))
        } else {
            None
        }
    }
}

/// `open + mid + close`.
fn enclose(open: &str, mid: &Vec<char>, close: &str) -> (res: Vec<char>)
    ensures
        res@ == open@ + mid@ + close@,
{
    let mut res = chars_of(open);
    push_all(&mut res, mid);
    push_all(&mut res, &chars_of(close));
    res
}

/// `<a href='/html/{href}.html'/>{shown}</a>`.
fn anchor(href: &Vec<char>, shown: &Vec<char>) -> (res: Vec<char>)
    ensures
        res@ == "<a href='/html/"@ + href@ + ".html'/>"@ + shown@ + "</a>"@,
{
    let mut res = enclose("<a href='/html/", href, ".html'/>");
    push_all(&mut res, shown);
    push_all(&mut res, &chars_of("</a>"));
    res
}

/// `s` without any occurrence of `pat`.
fn strip(s: &Vec<char>, pat: &str) -> (res: Vec<char>)
    ensures
        res@ == replace_all(s@, pat@, ""@),
{
    replace_chars(s, &chars_of(pat), &chars_of(""))
}

/// The target of a link: the spot without its brackets.
fn link_target_of(cap: &Vec<char>) -> (res: Vec<char>)
    ensures
        res@ == link_target(cap@),
{
    strip(&strip(cap, "["), "]")
}

/// The position of the first `|`, which is followed by at least the end of
/// the text.
fn find_bar(target: &Vec<char>) -> (res: Option<usize>)
    ensures
        match res {
            Some(k) => find(target@, "|"@) == Some(k as int) && k < target.len(),
            None => find(target@, "|"@) is None,
        },
{
    let bar = chars_of("|");
    let res = find_chars(target, &bar);
    proof {
        reveal_strlit("|");
        lemma_find_from(target@, "|"@, 0);
    }
    res
}

/// Whether the link `cap` lacks the text that a block link shows.
fn lacks_text(cap: &Vec<char>) -> (res: bool)
    ensures
        res == link_lacks_text(cap@),
{
    let target = link_target_of(cap);
    let block = match find_chars(&target, &chars_of("#^")) {
        Some(k) => k > 0,
        None => false,
    };
    block && find_bar(&target).is_none()
}

/// The HTML of one link.
fn rewrite_link(cap: &Vec<char>) -> (res: Option<Vec<char>>)
    requires
        !link_lacks_text(cap@),
    ensures
        match res {
            Some(html) => rewrite(Markup::Link, cap@) == Some(html@),
            None => rewrite(Markup::Link, cap@) is None,
        },
{
    let target = link_target_of(cap);
    let no_hash = find_chars(&target, &chars_of("#")).is_none();
    if no_hash && !is_an_image(string_from_chars(&target)) {
        match find_bar(&target) {
            Some(k) => {
                let href = sub_chars(&target, 0, k);
                let shown = sub_chars(&target, k + 1, target.len());
                assert(shown@ == target@.skip(k + 1));
                assert(href@ == target@.take(k as int));
                Some(anchor(&href, &shown))
            },
            None => Some(anchor(&target, &target)),
        }
    } else {
        let block_at = find_chars(&target, &chars_of("#^"));
        match block_at {
            Some(k) => {
                if k > 0 {
                    proof {
                        lemma_find_from(target@, "#^"@, 0);
                    }
                    let page = sub_chars(&target, 0, k);
                    assert(page@ == target@.take(k as int));
                    match find_bar(&target) {
                        Some(b) => {
                            let after_bar = sub_chars(&target, b + 1, target.len());
                            assert(after_bar@ == target@.skip(b + 1));
                            let shown = match find_bar(&after_bar) {
                                Some(l) => {
                                    let s = sub_chars(&after_bar, 0, l);
                                    assert(s@ == after_bar@.take(l as int));
                                    s
                                },
                                None => after_bar,
                            };
                            Some(anchor(&page, &shown))
                        },
                        None => {
                            assert(false);
                            None
                        },
                    }
                } else {
                    None
                }
            },
            None => None,
        }
    }
}

/// The HTML that replaces one spot found by rule `m`.
fn rewrite_spot(m: Markup, cap: &Vec<char>) -> (res: Option<Vec<char>>)
    requires
        m is Link ==> !link_lacks_text(cap@),
    ensures
        match res {
            Some(html) => rewrite(m, cap@) == Some(html@),
            None => rewrite(m, cap@) is None,
        },
{
    match m {
        Markup::Heading2 => Some(enclose("<h2>", &strip(cap, "##"), "</h2>")),
        Markup::Heading1 => Some(enclose("<h1>", &strip(cap, "#"), "</h1>")),
        Markup::Bold => Some(enclose("<span style='font-weight: bold;'>", &strip(cap, "**"), "</span>")),
        Markup::Italic => Some(enclose("<span style='font-style: italic;'>", &strip(cap, "*"), "</span>")),
        Markup::Picture => Some(
            enclose("<img src='/img/", &strip(&strip(&strip(cap, "["), "]"), "!"), "'/>"),
        ),
        Markup::Link => rewrite_link(cap),
    }
}

/// Whether every spot of `caps` can be rewritten by rule `m`: the
/// condition under which `Parse::apply_markup` may be called.
pub fn applies(m: Markup, caps: &Vec<String>) -> (res: bool)
    ensures
        res == markup_applies(m, views(caps@)),
{
    match m {
        Markup::Link => {},
        _ => {
            return true;
        },
    }
    for i in 0..caps.len()
        invariant
            m is Link,
            forall|j: int| 0 <= j < i ==> !link_lacks_text(#[trigger] views(caps@)[j]),
    {
        if lacks_text(&chars_of(caps[i].as_str())) {
            assert(views(caps@)[i as int] == caps@[i as int]@);
            return false;
        }
    }
    true
}

/// The style given to the page at `path`: the value of the last entry of
/// `styles` whose key is `path`.
pub open spec fn style_for(path: Seq<char>, styles: Seq<(Seq<char>, Seq<char>)>) -> Option<Seq<char>>
    decreases styles.len(),
{
    if styles.len() == 0 {
        None
    } else if styles.last().0 == path {
        Some(styles.last().1)
    } else {
        style_for(path, styles.drop_last())
    }
}

/// No page has two entries in the style table.
pub open spec fn distinct_keys(styles: Seq<(Seq<char>, Seq<char>)>) -> bool {
    forall|i: int, j: int|
        0 <= i < styles.len() && 0 <= j < styles.len() && i != j ==> (#[trigger] styles[i]).0 != (
        #[trigger] styles[j]).0
}

/// In a table where no page has two entries, the style of a page is the
/// value of its entry, whatever the order of the entries.
pub proof fn law_unique_entry_gives_style(path: Seq<char>, styles: Seq<(Seq<char>, Seq<char>)>, i: int)
    requires
        distinct_keys(styles),
        0 <= i < styles.len(),
        styles[i].0 == path,
    ensures
        style_for(path, styles) == Some(styles[i].1),
    decreases styles.len(),
{
    if i < styles.len() - 1 {
        assert(styles.last() == styles[styles.len() - 1]);
        assert(styles.last().0 != path);
        let rest = styles.drop_last();
        assert(rest[i] == styles[i]);
        assert forall|a: int, b: int| 0 <= a < rest.len() && 0 <= b < rest.len() && a != b implies (#[trigger] rest[a]).0 != (#[trigger] rest[b]).0 by {
            assert(rest[a] == styles[a] && rest[b] == styles[b]);
        }
        law_unique_entry_gives_style(path, rest, i);
    }
}

/// The views of a list of `(page, style)` entries.
pub open spec fn style_views(styles: Seq<(String, String)>) -> Seq<(Seq<char>, Seq<char>)> {
    styles.map_values(|e: (String, String)| (e.0@, e.1@))
}

/// `text` inside a `div` with the style of the page at `path`, if it has one.
pub open spec fn styled(text: Seq<char>, path: Seq<char>, styles: Seq<(Seq<char>, Seq<char>)>) -> Seq<char> {
    match style_for(path, styles) {
        Some(style) => "<div style = '"@ + style + "'>"@ + text + "</div>"@,
        None => text,
    }
}

/// `text` with every line feed turned into `<br/>`.
pub open spec fn with_line_breaks(text: Seq<char>) -> Seq<char> {
    replace_all(text, "\n"@, "<br/>"@)
}

/// Rule `m` applied to a text, where the steps before it succeeded.
pub open spec fn then_markup(m: Markup, text: Option<Seq<char>>) -> Option<Seq<char>> {
    match text {
        Some(t) => markup_page(m, t),
        None => None,
    }
}

/// The page made of the note `text` at `path`: styled, then bold, italic,
/// line breaks, `##` and `#` headings, pictures and links, in this order.
pub open spec fn rendered(path: Seq<char>, text: Seq<char>, styles: Seq<(Seq<char>, Seq<char>)>) -> Option<Seq<char>> {
    let emphasised = then_markup(Markup::Italic, markup_page(Markup::Bold, styled(text, path, styles)));
    let broken = match emphasised {
        Some(t) => Some(with_line_breaks(t)),
        None => None,
    };
    then_markup(
        Markup::Link,
        then_markup(Markup::Picture, then_markup(Markup::Heading1, then_markup(Markup::Heading2, broken))),
    )
}

/// After `carriage_return` a page holds no line feed.
pub proof fn law_line_breaks_leave_no_line_feed(text: Seq<char>)
    ensures
        forall|i: int| 0 <= i < with_line_breaks(text).len() ==> with_line_breaks(text)[i] != '\n',
{
    reveal_strlit("\n");
    reveal_strlit("<br/>");
    assert("\n"@ =~= seq!['\n']);
    crate::text::law_replace_removes_char(text, '\n', "<br/>"@);
}

/// A page without line feeds comes out of `carriage_return` unchanged.
pub proof fn law_line_breaks_keep_single_line(text: Seq<char>)
    requires
        !crate::text::contains(text, "\n"@),
    ensures
        with_line_breaks(text) == text,
{
    reveal_strlit("\n");
    crate::text::law_replace_absent_is_identity(text, "\n"@, "<br/>"@);
}

/// A page without a style of its own comes out of `specific_page_styling`
/// unchanged; one with a style comes out inside a `div` with that style.
pub proof fn law_styling_wraps_only_styled_pages(
    text: Seq<char>,
    path: Seq<char>,
    styles: Seq<(Seq<char>, Seq<char>)>,
)
    ensures
        (forall|i: int| 0 <= i < styles.len() ==> (#[trigger] styles[i]).0 != path) ==> styled(text, path, styles) == text,
        style_for(path, styles) matches Some(style) ==> styled(text, path, styles) == "<div style = '"@ + style + "'>"@ + text + "</div>"@,
    decreases styles.len(),
{
    if styles.len() > 0 {
        law_styling_wraps_only_styled_pages(text, path, styles.drop_last());
        if forall|i: int| 0 <= i < styles.len() ==> (#[trigger] styles[i]).0 != path {
            assert(styles.last().0 != path);
            assert forall|i: int| 0 <= i < styles.drop_last().len() implies (#[trigger] styles.drop_last()[i]).0 != path by {
                assert(styles.drop_last()[i] == styles[i]);
            }
        }
    }
}

/// Where its pattern compiles, the link rule fails exactly on a page with a
/// block link that has no `|` text.
pub proof fn law_link_rule_fails_only_on_textless_block_links(text: Seq<char>)
    requires
        regex_compiles(Markup::Link.expression()),
    ensures
        markup_page(Markup::Link, text) is Some <==> forall|i: int|
            0 <= i < regex_captures(Markup::Link.expression(), text).len() ==> !link_lacks_text(
                #[trigger] regex_captures(Markup::Link.expression(), text)[i],
            ),
{
}

/// No character of `s` is `c`.
pub open spec fn free_of(s: Seq<char>, c: char) -> bool {
    forall|i: int| 0 <= i < s.len() ==> s[i] != c
}

/// Removing `c` from `cc` leaves nothing.
proof fn lemma_remove_double(c: char)
    ensures
        replace_all(seq![c, c], seq![c], Seq::empty()) == Seq::<char>::empty(),
{
    assert(seq![c, c] =~= seq![c] + seq![c]);
    lemma_replace_char_concat(seq![c], seq![c], c, Seq::empty());
    lemma_replace_char_self(c, Seq::empty());
    assert(Seq::<char>::empty() + Seq::<char>::empty() =~= Seq::<char>::empty());
}

/// Removing `c` from `a + b + d`, where only `a` holds `c` and removing it
/// from `a` leaves `a2`, gives `a2 + b + d`.
proof fn lemma_remove_from_front(a: Seq<char>, a2: Seq<char>, b: Seq<char>, d: Seq<char>, c: char)
    requires
        replace_all(a, seq![c], Seq::empty()) == a2,
        free_of(b, c),
        free_of(d, c),
    ensures
        replace_all(a + b + d, seq![c], Seq::empty()) == a2 + b + d,
{
    lemma_replace_char_concat(a + b, d, c, Seq::empty());
    lemma_replace_char_concat(a, b, c, Seq::empty());
    lemma_replace_char_absent(b, c, Seq::empty());
    lemma_replace_char_absent(d, c, Seq::empty());
}

/// The target of `[[x]]` is `x`, where `x` holds no bracket.
pub proof fn law_link_target(x: Seq<char>)
    requires
        free_of(x, '['),
        free_of(x, ']'),
    ensures
        link_target("[["@ + x + "]]"@) == x,
{
    reveal_strlit("[[");
    reveal_strlit("]]");
    reveal_strlit("[");
    reveal_strlit("]");
    reveal_strlit("");
    let e = Seq::<char>::empty();
    assert("[["@ =~= seq!['[', '[']);
    assert("]]"@ =~= seq![']', ']']);
    assert("["@ =~= seq!['[']);
    assert("]"@ =~= seq![']']);
    assert(""@ =~= e);
    lemma_remove_double('[');
    assert(free_of("]]"@, '['));
    lemma_remove_from_front("[["@, e, x, "]]"@, '[');
    assert(e + x + "]]"@ =~= x + "]]"@);
    lemma_replace_char_concat(x, "]]"@, ']', e);
    lemma_replace_char_absent(x, ']', e);
    lemma_remove_double(']');
    assert(x + e =~= x);
}

/// A picture `![[n]]` becomes `<img src='/img/n'/>`: its name is kept
/// character for character, where it holds no `[`, `]` or `!`.
pub proof fn law_picture_keeps_name(n: Seq<char>)
    requires
        free_of(n, '['),
        free_of(n, ']'),
        free_of(n, '!'),
    ensures
        rewrite(Markup::Picture, "![["@ + n + "]]"@) == Some("<img src='/img/"@ + n + "'/>"@),
{
    reveal_strlit("![[");
    reveal_strlit("]]");
    reveal_strlit("[");
    reveal_strlit("]");
    reveal_strlit("!");
    reveal_strlit("");
    let e = Seq::<char>::empty();
    assert("![["@ =~= seq!['!'] + seq!['[', '[']);
    assert("]]"@ =~= seq![']', ']']);
    assert("["@ =~= seq!['[']);
    assert("]"@ =~= seq![']']);
    assert("!"@ =~= seq!['!']);
    assert(""@ =~= e);
    let cap = "![["@ + n + "]]"@;
    // the `[`s go
    lemma_remove_double('[');
    lemma_replace_char_concat(seq!['!'], seq!['[', '['], '[', e);
    lemma_replace_char_absent(seq!['!'], '[', e);
    assert(seq!['!'] + e =~= seq!['!']);
    assert(free_of("]]"@, '['));
    lemma_remove_from_front("![["@, seq!['!'], n, "]]"@, '[');
    let s1 = seq!['!'] + n + "]]"@;
    // the `]`s go
    lemma_remove_double(']');
    assert(s1 =~= (seq!['!'] + n) + seq![']', ']']);
    lemma_replace_char_concat(seq!['!'] + n, seq![']', ']'], ']', e);
    lemma_replace_char_absent(seq!['!'] + n, ']', e);
    let s2 = seq!['!'] + n;
    assert(s2 + e =~= s2);
    // the `!` goes
    lemma_replace_char_concat(seq!['!'], n, '!', e);
    lemma_replace_char_self('!', e);
    lemma_replace_char_absent(n, '!', e);
    assert(e + n =~= n);
}

/// A `##` heading keeps every `#` that is not part of a `##`: the rule
/// turns `a + "##" + x` into `<h2>` around `a + x`, where `a` holds no `#`
/// and `x` no `##`.
pub proof fn law_h2_removes_only_double_marks(a: Seq<char>, x: Seq<char>)
    requires
        free_of(a, '#'),
        !contains(x, "##"@),
    ensures
        rewrite(Markup::Heading2, a + "##"@ + x) == Some("<h2>"@ + a + x + "</h2>"@),
{
    reveal_strlit("##");
    reveal_strlit("");
    let e = Seq::<char>::empty();
    let pat = "##"@;
    assert(pat =~= seq!['#', '#']);
    assert(""@ =~= e);
    let b = pat + x;
    assert forall|j: int| 0 <= j < a.len() < j + pat.len() implies !occurs_at(a + b, pat, j) by {
        if occurs_at(a + b, pat, j) {
            assert((a + b).subrange(j, j + 2)[0] == a[j]);
        }
    }
    lemma_replace_concat(a, b, pat, e);
    lemma_absent(a, pat);
    law_replace_absent_is_identity(a, pat, e);
    assert(b.subrange(0, 2) =~= pat);
    assert(b.skip(2) =~= x);
    law_replace_absent_is_identity(x, pat, e);
    assert(replace_all(b, pat, e) == e + replace_all(b.skip(2), pat, e));
    assert(a + pat + x =~= a + b);
    assert(a + (e + x) =~= a + x);
}

/// A `#` heading loses its `#`: the rule turns `a + "#" + x` into `<h1>`
/// around `a + x`, where `a` and `x` hold no `#`.
pub proof fn law_h1_removes_its_mark(a: Seq<char>, x: Seq<char>)
    requires
        free_of(a, '#'),
        free_of(x, '#'),
    ensures
        rewrite(Markup::Heading1, a + "#"@ + x) == Some("<h1>"@ + a + x + "</h1>"@),
{
    reveal_strlit("#");
    reveal_strlit("");
    let e = Seq::<char>::empty();
    assert("#"@ =~= seq!['#']);
    assert(""@ =~= e);
    lemma_replace_char_concat(a + seq!['#'], x, '#', e);
    lemma_replace_char_concat(a, seq!['#'], '#', e);
    lemma_replace_char_absent(a, '#', e);
    lemma_replace_char_absent(x, '#', e);
    lemma_replace_char_self('#', e);
    assert(a + e + x =~= a + x);
}

/// Bold text loses its marks: `**x**` becomes a bold span around `x`, where
/// `x` holds no `*`.
pub proof fn law_bold_keeps_text(x: Seq<char>)
    requires
        free_of(x, '*'),
    ensures
        rewrite(Markup::Bold, "**"@ + x + "**"@) == Some(
            "<span style='font-weight: bold;'>"@ + x + "</span>"@,
        ),
{
    reveal_strlit("**");
    reveal_strlit("");
    let e = Seq::<char>::empty();
    let pat = "**"@;
    assert(pat =~= seq!['*', '*']);
    assert(""@ =~= e);
    let cap = pat + x + pat;
    assert(cap.subrange(0, 2) =~= pat);
    assert(cap.skip(2) =~= x + pat);
    assert forall|j: int| 0 <= j < x.len() < j + pat.len() implies !occurs_at(x + pat, pat, j) by {
        if occurs_at(x + pat, pat, j) {
            assert((x + pat).subrange(j, j + 2)[0] == x[j]);
        }
    }
    lemma_replace_concat(x, pat, pat, e);
    lemma_absent(x, pat);
    law_replace_absent_is_identity(x, pat, e);
    assert(pat.subrange(0, 2) =~= pat);
    assert(pat.skip(2) =~= e);
    assert(replace_all(pat, pat, e) == e + replace_all(pat.skip(2), pat, e));
    assert(replace_all(cap, pat, e) == e + replace_all(cap.skip(2), pat, e));
    assert(e + (x + (e + e)) =~= x);
}

/// Italic text loses its marks: `*x*` becomes an italic span around `x`,
/// where `x` holds no `*`.
pub proof fn law_italic_keeps_text(x: Seq<char>)
    requires
        free_of(x, '*'),
    ensures
        rewrite(Markup::Italic, "*"@ + x + "*"@) == Some(
            "<span style='font-style: italic;'>"@ + x + "</span>"@,
        ),
{
    reveal_strlit("*");
    reveal_strlit("");
    let e = Seq::<char>::empty();
    assert("*"@ =~= seq!['*']);
    assert(""@ =~= e);
    lemma_replace_char_concat(seq!['*'] + x, seq!['*'], '*', e);
    lemma_replace_char_concat(seq!['*'], x, '*', e);
    lemma_replace_char_absent(x, '*', e);
    lemma_replace_char_self('*', e);
    assert(e + x + e =~= x);
}

/// Each line feed becomes one `<br/>`, and the text around it is treated
/// on its own.
pub proof fn law_line_feed_becomes_break(a: Seq<char>, b: Seq<char>)
    ensures
        with_line_breaks(a + "\n"@ + b) == with_line_breaks(a) + "<br/>"@ + with_line_breaks(b),
{
    reveal_strlit("\n");
    assert("\n"@ =~= seq!['\n']);
    lemma_replace_char_concat(a + seq!['\n'], b, '\n', "<br/>"@);
    lemma_replace_char_concat(a, seq!['\n'], '\n', "<br/>"@);
    lemma_replace_char_self('\n', "<br/>"@);
}

/// A text made of two pieces without `c` has no `c`.
proof fn lemma_free_concat(a: Seq<char>, b: Seq<char>, c: char)
    requires
        free_of(a, c),
        free_of(b, c),
    ensures
        free_of(a + b, c),
{
    assert forall|i: int| 0 <= i < (a + b).len() implies (a + b)[i] != c by {
        if i >= a.len() {
            assert((a + b)[i] == b[i - a.len()]);
        }
    }
}

/// The first position of `c` in `a + seq![c] + b`, where `a` has no `c`,
/// is the length of `a`.
proof fn lemma_find_char_after(a: Seq<char>, c: char, b: Seq<char>)
    requires
        free_of(a, c),
    ensures
        find(a + seq![c] + b, seq![c]) == Some(a.len() as int),
{
    let s = a + seq![c] + b;
    lemma_occurs_char(s, c, a.len() as int);
    assert forall|j: int| 0 <= j < a.len() implies !occurs_at(s, seq![c], j) by {
        lemma_occurs_char(s, c, j);
        assert(s[j] == a[j]);
    }
    lemma_find_at(s, seq![c], a.len() as int);
}

/// A link `[[p]]` to a page becomes an anchor to `/html/p.html` showing
/// `p`, where `p` holds no `[`, `]`, `#` or `|` and is not a picture.
pub proof fn law_page_link(p: Seq<char>)
    requires
        free_of(p, '['),
        free_of(p, ']'),
        free_of(p, '#'),
        free_of(p, '|'),
        !is_image_name(p),
    ensures
        rewrite(Markup::Link, "[["@ + p + "]]"@) == Some(
            "<a href='/html/"@ + p + ".html'/>"@ + p + "</a>"@,
        ),
{
    law_link_target(p);
    reveal_strlit("#");
    reveal_strlit("|");
    assert("#"@ =~= seq!['#']);
    assert("|"@ =~= seq!['|']);
    lemma_absent(p, "#"@);
    lemma_absent(p, "|"@);
}

/// A link `[[p|t]]` becomes an anchor to `/html/p.html` showing `t`, where
/// `p` and `t` hold no `[`, `]`, `#` or `|` and the link is not a picture.
pub proof fn law_page_link_with_text(p: Seq<char>, t: Seq<char>)
    requires
        free_of(p, '['),
        free_of(p, ']'),
        free_of(p, '#'),
        free_of(p, '|'),
        free_of(t, '['),
        free_of(t, ']'),
        free_of(t, '#'),
        free_of(t, '|'),
        !is_image_name(p + "|"@ + t),
    ensures
        rewrite(Markup::Link, "[["@ + p + "|"@ + t + "]]"@) == Some(
            "<a href='/html/"@ + p + ".html'/>"@ + t + "</a>"@,
        ),
{
    reveal_strlit("#");
    reveal_strlit("|");
    assert("#"@ =~= seq!['#']);
    assert("|"@ =~= seq!['|']);
    let target = p + "|"@ + t;
    lemma_free_concat(p, seq!['|'], '[');
    lemma_free_concat(p + seq!['|'], t, '[');
    lemma_free_concat(p, seq!['|'], ']');
    lemma_free_concat(p + seq!['|'], t, ']');
    lemma_free_concat(p, seq!['|'], '#');
    lemma_free_concat(p + seq!['|'], t, '#');
    law_link_target(target);
    assert("[["@ + p + "|"@ + t + "]]"@ =~= "[["@ + target + "]]"@);
    lemma_absent(target, "#"@);
    lemma_find_char_after(p, '|', t);
    assert(target.take(p.len() as int) =~= p);
    assert(target.skip(p.len() as int + 1) =~= t);
}

/// Where `#^` and the first `|` stand in the target `p#^b|t` of a block
/// link.
proof fn lemma_block_target(p: Seq<char>, b: Seq<char>, t: Seq<char>)
    requires
        p.len() > 0,
        free_of(p, '#'),
        free_of(p, '|'),
        free_of(b, '|'),
        free_of(t, '|'),
    ensures
        ({
            let target = p + seq!['#', '^'] + b + seq!['|'] + t;
            &&& find(target, seq!['#']) is Some
            &&& find(target, seq!['#', '^']) == Some(p.len() as int)
            &&& find(target, seq!['|']) == Some(p.len() as int + 2 + b.len())
            &&& target.take(p.len() as int) == p
            &&& target.skip(p.len() as int + 3 + b.len()) == t
            &&& find(t, seq!['|']) is None
        }),
{
    let mark = seq!['#', '^'];
    let front = p + mark + b;
    let target = front + seq!['|'] + t;
    lemma_find_mark(p, b + seq!['|'] + t);
    assert(target =~= p + mark + (b + seq!['|'] + t));
    assert(target =~= p + seq!['#'] + (seq!['^'] + b + seq!['|'] + t));
    lemma_find_char_after(p, '#', seq!['^'] + b + seq!['|'] + t);
    assert(target.take(p.len() as int) =~= p);
    lemma_free_concat(p, mark, '|');
    lemma_free_concat(p + mark, b, '|');
    lemma_find_char_after(front, '|', t);
    assert(target.skip(front.len() as int + 1) =~= t);
    lemma_absent(t, seq!['|']);
}

/// `#^` first stands right after `p`, where `p` holds no `#`.
proof fn lemma_find_mark(p: Seq<char>, rest: Seq<char>)
    requires
        free_of(p, '#'),
    ensures
        find(p + seq!['#', '^'] + rest, seq!['#', '^']) == Some(p.len() as int),
{
    let mark = seq!['#', '^'];
    let target = p + mark + rest;
    assert(target.subrange(p.len() as int, p.len() as int + 2) =~= mark);
    assert forall|j: int| 0 <= j < p.len() implies !occurs_at(target, mark, j) by {
        if occurs_at(target, mark, j) {
            assert(target.subrange(j, j + 2)[0] == target[j]);
            assert(target[j] == p[j]);
        }
    }
    lemma_find_at(target, mark, p.len() as int);
}

/// The target of the block link `[[p#^b|t]]` is `p#^b|t`.
proof fn lemma_block_link_target(p: Seq<char>, b: Seq<char>, t: Seq<char>)
    requires
        free_of(p, '['),
        free_of(p, ']'),
        free_of(b, '['),
        free_of(b, ']'),
        free_of(t, '['),
        free_of(t, ']'),
    ensures
        link_target("[["@ + p + "#^"@ + b + "|"@ + t + "]]"@) == p + seq!['#', '^'] + b + seq!['|'] + t,
{
    reveal_strlit("|");
    reveal_strlit("#^");
    assert("|"@ =~= seq!['|']);
    assert("#^"@ =~= seq!['#', '^']);
    let mark = seq!['#', '^'];
    let front = p + mark + b;
    let target = front + seq!['|'] + t;
    lemma_free_concat(p, mark, '[');
    lemma_free_concat(p + mark, b, '[');
    lemma_free_concat(front, seq!['|'], '[');
    lemma_free_concat(front + seq!['|'], t, '[');
    lemma_free_concat(p, mark, ']');
    lemma_free_concat(p + mark, b, ']');
    lemma_free_concat(front, seq!['|'], ']');
    lemma_free_concat(front + seq!['|'], t, ']');
    law_link_target(target);
    assert("[["@ + p + "#^"@ + b + "|"@ + t + "]]"@ =~= "[["@ + target + "]]"@);
}

/// A block link `[[p#^b|t]]` becomes an anchor to `/html/p.html` showing
/// `t`, the text after the first `|`, where `p` is not empty and `p`, `b`
/// and `t` hold no `[`, `]`, `#` or `|`.
pub proof fn law_block_link(p: Seq<char>, b: Seq<char>, t: Seq<char>)
    requires
        p.len() > 0,
        free_of(p, '['),
        free_of(p, ']'),
        free_of(p, '#'),
        free_of(p, '|'),
        free_of(b, '['),
        free_of(b, ']'),
        free_of(b, '#'),
        free_of(b, '|'),
        free_of(t, '['),
        free_of(t, ']'),
        free_of(t, '#'),
        free_of(t, '|'),
    ensures
        rewrite(Markup::Link, "[["@ + p + "#^"@ + b + "|"@ + t + "]]"@) == Some(
            "<a href='/html/"@ + p + ".html'/>"@ + t + "</a>"@,
        ),
{
    reveal_strlit("#");
    reveal_strlit("|");
    reveal_strlit("#^");
    assert("#"@ =~= seq!['#']);
    assert("|"@ =~= seq!['|']);
    assert("#^"@ =~= seq!['#', '^']);
    lemma_block_link_target(p, b, t);
    lemma_block_target(p, b, t);
}

/// The page is made in the steps of the chain, each from the page the step
/// before made: its style, bold, italic, line breaks, `##` headings, `#`
/// headings, pictures, links; it fails where a step fails.
pub proof fn law_render_steps(path: Seq<char>, text: Seq<char>, styles: Seq<(Seq<char>, Seq<char>)>)
    ensures
        rendered(path, text, styles) == (match markup_page(Markup::Bold, styled(text, path, styles)) {
            None => None,
            Some(bold) => match markup_page(Markup::Italic, bold) {
                None => None,
                Some(italic) => match markup_page(Markup::Heading2, with_line_breaks(italic)) {
                    None => None,
                    Some(h2) => match markup_page(Markup::Heading1, h2) {
                        None => None,
                        Some(h1) => match markup_page(Markup::Picture, h1) {
                            None => None,
                            Some(pictures) => markup_page(Markup::Link, pictures),
                        },
                    },
                },
            },
        }),
{
}

/// A link to a heading of a page, with a `#` but no block mark after its
/// first character, is left as it is.
pub proof fn law_heading_links_stay(cap: Seq<char>)
    requires
        contains(link_target(cap), "#"@),
        !is_block_link(link_target(cap)),
    ensures
        rewrite(Markup::Link, cap) is None,
{
}

/// A block link without a page, `[[#^b|t]]`, is left as it is, where `b`
/// and `t` hold no `[`, `]` or `#`.
pub proof fn law_block_link_needs_page(b: Seq<char>, t: Seq<char>)
    requires
        free_of(b, '['),
        free_of(b, ']'),
        free_of(b, '#'),
        free_of(t, '['),
        free_of(t, ']'),
        free_of(t, '#'),
    ensures
        rewrite(Markup::Link, "[[#^"@ + b + "|"@ + t + "]]"@) is None,
{
    reveal_strlit("[[#^");
    reveal_strlit("[[");
    reveal_strlit("#^");
    assert("#^"@ =~= seq!['#', '^']);
    reveal_strlit("|");
    reveal_strlit("#");
    assert("[[#^"@ =~= "[["@ + seq!['#', '^']);
    assert("|"@ =~= seq!['|']);
    assert("#"@ =~= seq!['#']);
    let target = seq!['#', '^'] + b + seq!['|'] + t;
    lemma_free_concat(seq!['#', '^'], b, '[');
    lemma_free_concat(seq!['#', '^'] + b, seq!['|'], '[');
    lemma_free_concat(seq!['#', '^'] + b + seq!['|'], t, '[');
    lemma_free_concat(seq!['#', '^'], b, ']');
    lemma_free_concat(seq!['#', '^'] + b, seq!['|'], ']');
    lemma_free_concat(seq!['#', '^'] + b + seq!['|'], t, ']');
    law_link_target(target);
    assert("[[#^"@ + b + "|"@ + t + "]]"@ =~= "[["@ + target + "]]"@);
    lemma_find_mark(Seq::empty(), b + seq!['|'] + t);
    assert(Seq::<char>::empty() + seq!['#', '^'] + (b + seq!['|'] + t) =~= target);
    lemma_find_char_after(Seq::empty(), '#', seq!['^'] + b + seq!['|'] + t);
    assert(Seq::<char>::empty() + seq!['#'] + (seq!['^'] + b + seq!['|'] + t) =~= target);
}

/// A block link `[[p#^b]]` without `|` has no text to show, so the link
/// rule fails on a page holding it.
pub proof fn law_block_link_without_text(p: Seq<char>, b: Seq<char>)
    requires
        p.len() > 0,
        free_of(p, '['),
        free_of(p, ']'),
        free_of(p, '#'),
        free_of(p, '|'),
        free_of(b, '['),
        free_of(b, ']'),
        free_of(b, '|'),
    ensures
        link_lacks_text("[["@ + p + "#^"@ + b + "]]"@),
{
    reveal_strlit("#^");
    reveal_strlit("|");
    assert("#^"@ =~= seq!['#', '^']);
    assert("|"@ =~= seq!['|']);
    let target = p + seq!['#', '^'] + b;
    lemma_free_concat(p, seq!['#', '^'], '[');
    lemma_free_concat(p + seq!['#', '^'], b, '[');
    lemma_free_concat(p, seq!['#', '^'], ']');
    lemma_free_concat(p + seq!['#', '^'], b, ']');
    law_link_target(target);
    assert("[["@ + p + "#^"@ + b + "]]"@ =~= "[["@ + target + "]]"@);
    lemma_find_mark(p, b);
    lemma_free_concat(p, seq!['#', '^'], '|');
    lemma_free_concat(p + seq!['#', '^'], b, '|');
    lemma_absent(target, seq!['|']);
}

/// A link to a picture is not made into an anchor: the link rule leaves it
/// to the picture rule.
pub proof fn law_picture_links_stay(cap: Seq<char>)
    requires
        is_image_name(link_target(cap)),
        !is_block_link(link_target(cap)),
    ensures
        rewrite(Markup::Link, cap) is None,
{
}

/// Finding no spots, a rule leaves the page as it is.
pub proof fn law_no_spots_no_change(m: Markup, text: Seq<char>)
    ensures
        markup_applies(m, Seq::empty()),
        rewrite_all(m, text, Seq::empty()) == text,
{
}

/// Headings, bold and italic text and pictures can always be rewritten:
/// such a rule gives `None` only where its pattern does not compile, whatever
/// the page.
pub proof fn law_only_links_can_fail(m: Markup, text: Seq<char>)
    requires
        !(m is Link),
    ensures
        regex_compiles(m.expression()) ==> markup_page(m, text) == Some(
            rewrite_all(m, text, regex_captures(m.expression(), text)),
        ),
        !regex_compiles(m.expression()) ==> markup_page(m, text) is None,
{
}

impl Parse {
    /// Rewrites the spots `caps`, found by the pattern of rule `m`, in turn:
    /// every occurrence of each spot is replaced by its HTML.
    pub fn apply_markup(&self, m: Markup, caps: &Vec<String>) -> (res: Parse)
        requires
            markup_applies(m, views(caps@)),
        ensures
            res@ == rewrite_all(m, self@, views(caps@)),
    {
        let ghost all = views(caps@);
        let mut text = chars_of(self.contents.as_str());
        assert(all.take(0) =~= Seq::<Seq<char>>::empty());
        for i in 0..caps.len()
            invariant
                all == views(caps@),
                markup_applies(m, all),
                text@ == rewrite_all(m, self@, all.take(i as int)),
        {
            let cap = chars_of(caps[i].as_str());
            assert(all[i as int] == cap@);
            assert(all.take(i + 1).drop_last() == all.take(i as int));
            assert(all.take(i + 1).last() == cap@);
            match rewrite_spot(m, &cap) {
                Some(html) => {
                    text = replace_chars(&text, &cap, &html);
                },
                None => {},
            }
        }
        assert(all.take(caps.len() as int) == all);
        Parse { contents: string_from_chars(&text) }
    }

    /// Rule `m` applied to the page: its pattern is run on the text, and the
    /// spots found are rewritten by `apply_markup` where they all can be.
    fn markup(&self, m: Markup) -> (res: Option<Parse>)
        ensures
            match res {
                Some(p) => markup_page(m, self@) == Some(p@),
                None => markup_page(m, self@) is None,
            },
    {
        match regex_match_texts(m.pattern(), self.contents.as_str()) {
            Some(caps) => {
                if applies(m, &caps) {
                    Some(self.apply_markup(m, &caps))
                } else {
                    None
                }
            },
            None => None,
        }
    }

    /// The page inside a `div` with its own style, where `styles` gives one
    /// for `entry_path`; else the page unchanged.
    pub fn specific_page_styling(&self, entry_path: String, styles: &Vec<(String, String)>) -> (res: Self)
        ensures
            res@ == styled(self@, entry_path@, style_views(styles@)),
    {
        let ghost all = style_views(styles@);
        let text = chars_of(self.contents.as_str());
        let mut out = chars_of(self.contents.as_str());
        assert(all.take(0) =~= Seq::<(Seq<char>, Seq<char>)>::empty());
        for i in 0..styles.len()
            invariant
                all == style_views(styles@),
                text@ == self@,
                out@ == styled(self@, entry_path@, all.take(i as int)),
        {
            assert(all.take(i + 1).drop_last() == all.take(i as int));
            assert(all.take(i + 1).last() == (styles@[i as int].0@, styles@[i as int].1@));
            if styles[i].0 == entry_path {
                let mut wrapped = enclose("<div style = '", &chars_of(styles[i].1.as_str()), "'>");
                push_all(&mut wrapped, &text);
                push_all(&mut wrapped, &chars_of("</div>"));
                out = wrapped;
            }
        }
        assert(all.take(styles.len() as int) == all);
        Parse { contents: string_from_chars(&out) }
    }

    /// The page with every line feed turned into `<br/>`.
    pub fn carriage_return(&self) -> (res: Self)
        ensures
            res@ == with_line_breaks(self@),
    {
        Parse { contents: replace(self.contents.as_str(), "\n", "<br/>") }
    }

    /// `##` headings between line breaks turned into `<h2>`; `None` where
    /// the pattern does not compile.
    pub fn add_h2_to_page(&mut self) -> (res: Option<Self>)
        ensures
            *final(self) == *old(self),
            match res {
                Some(p) => markup_page(Markup::Heading2, old(self)@) == Some(p@),
                None => markup_page(Markup::Heading2, old(self)@) is None,
            },
    {
        self.markup(Markup::Heading2)
    }

    /// `#` headings between line breaks turned into `<h1>`; `None` where the
    /// pattern does not compile.
    pub fn add_h1_to_page(&mut self) -> (res: Option<Self>)
        ensures
            *final(self) == *old(self),
            match res {
                Some(p) => markup_page(Markup::Heading1, old(self)@) == Some(p@),
                None => markup_page(Markup::Heading1, old(self)@) is None,
            },
    {
        self.markup(Markup::Heading1)
    }

    /// `**text**` turned into bold text; `None` where the pattern does not
    /// compile.
    pub fn add_bold_text_to_page(&mut self) -> (res: Option<Self>)
        ensures
            *final(self) == *old(self),
            match res {
                Some(p) => markup_page(Markup::Bold, old(self)@) == Some(p@),
                None => markup_page(Markup::Bold, old(self)@) is None,
            },
    {
        self.markup(Markup::Bold)
    }

    /// `*text*` turned into italic text; `None` where the pattern does not
    /// compile.
    pub fn add_italic_text_to_page(&mut self) -> (res: Option<Self>)
        ensures
            *final(self) == *old(self),
            match res {
                Some(p) => markup_page(Markup::Italic, old(self)@) == Some(p@),
                None => markup_page(Markup::Italic, old(self)@) is None,
            },
    {
        self.markup(Markup::Italic)
    }

    /// `![[picture]]` turned into an image from `/img/`; `None` where the
    /// pattern does not compile.
    pub fn add_picture_to_page(&mut self) -> (res: Option<Self>)
        ensures
            *final(self) == *old(self),
            match res {
                Some(p) => markup_page(Markup::Picture, old(self)@) == Some(p@),
                None => markup_page(Markup::Picture, old(self)@) is None,
            },
    {
        self.markup(Markup::Picture)
    }

    /// `[[page]]`, `[[page|text]]` and `[[page#^block|text]]` turned into
    /// anchors to `/html/page.html`; `None` where the pattern does not
    /// compile or a block link has no `|` text.
    pub fn link_to_another_page(&mut self) -> (res: Option<Self>)
        ensures
            *final(self) == *old(self),
            match res {
                Some(p) => markup_page(Markup::Link, old(self)@) == Some(p@),
                None => markup_page(Markup::Link, old(self)@) is None,
            },
    {
        self.markup(Markup::Link)
    }
}

/// The page made of the note `contents` at `entry_path`: its style, then
/// bold, italic, line breaks, headings, pictures and links. `None` where a
/// rule fails (see `markup_page`).
pub fn render_page(entry_path: String, contents: String, styles: &Vec<(String, String)>) -> (res: Option<String>)
    ensures
        match res {
            Some(page) => rendered(entry_path@, contents@, style_views(styles@)) == Some(page@),
            None => rendered(entry_path@, contents@, style_views(styles@)) is None,
        },
{
    let page = Parse { contents };
    let mut step = page.specific_page_styling(entry_path, styles);
    let mut step = match step.add_bold_text_to_page() {
        Some(p) => p,
        None => return None,
    };
    let step = match step.add_italic_text_to_page() {
        Some(p) => p,
        None => return None,
    };
    let mut step = step.carriage_return();
    let mut step = match step.add_h2_to_page() {
        Some(p) => p,
        None => return None,
    };
    let mut step = match step.add_h1_to_page() {
        Some(p) => p,
        None => return None,
    };
    let mut step = match step.add_picture_to_page() {
        Some(p) => p,
        None => return None,
    };
    match step.link_to_another_page() {
        Some(p) => Some(p.contents),
        None => None,
    }
}

} // verus!
