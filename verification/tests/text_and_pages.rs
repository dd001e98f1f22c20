use warp_page::pages::{html_page_path, image_store_path, is_an_image, plan_file, FileTask};
use warp_page::text::{chars_of, find_chars, replace, replace_chars};

#[test]
fn replace_turns_line_feeds_into_breaks() {
    assert_eq!(replace("a\nb\n", "\n", "<br/>"), "a<br/>b<br/>");
}

#[test]
fn replace_matches_std_on_edge_cases() {
    for (s, from, to) in [
        ("abc", "", "-"),
        ("", "", "-"),
        ("aaa", "aa", "b"),
        ("abcabc", "bc", ""),
        ("xyz", "q", "r"),
        ("héllo wörld", "ö", "o"),
    ] {
        assert_eq!(replace(s, from, to), s.replace(from, to), "{:?} {:?} {:?}", s, from, to);
    }
}

#[test]
fn replace_chars_leaves_text_without_pattern() {
    let s = chars_of("plain text");
    assert_eq!(replace_chars(&s, &chars_of("#"), &chars_of("X")), s);
}

#[test]
fn find_gives_first_position() {
    let s = chars_of("a|b|c");
    assert_eq!(find_chars(&s, &chars_of("|")), Some(1));
    assert_eq!(find_chars(&s, &chars_of("#")), None);
    assert_eq!(find_chars(&s, &chars_of("")), Some(0));
}

#[test]
fn images_are_recognised_by_extension() {
    assert!(is_an_image("./src/obsidian_project/cat.png".to_string()));
    assert!(is_an_image("photo.jpeg".to_string()));
    assert!(is_an_image("doc.pdf".to_string()));
    assert!(is_an_image("anim.webp".to_string()));
    assert!(!is_an_image("./src/obsidian_project/Note.md".to_string()));
    assert!(!is_an_image("".to_string()));
}

#[test]
fn notes_go_to_html_and_images_to_img() {
    assert_eq!(
        html_page_path("./src/obsidian_project/Note.md"),
        "./src/obsidian_html/Note.html"
    );
    assert_eq!(
        image_store_path("./src/obsidian_project/cat.png"),
        "./src/obsidian_img/cat.png"
    );
}

#[test]
fn plan_file_copies_images_and_renders_notes() {
    match plan_file("./src/obsidian_project/cat.gif") {
        FileTask::CopyImage(target) => assert_eq!(target, "./src/obsidian_img/cat.gif"),
        FileTask::RenderPage(_) => panic!("an image is copied"),
    }
    match plan_file("./src/obsidian_project/Story.md") {
        FileTask::RenderPage(target) => assert_eq!(target, "./src/obsidian_html/Story.html"),
        FileTask::CopyImage(_) => panic!("a note is rendered"),
    }
}
