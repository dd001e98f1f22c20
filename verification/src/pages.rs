//! Where the files of the vault go: which ones are images, and the paths
//! of the generated pages and of the copied images.

use vstd::prelude::*;
use crate::text::{lemma_contains_middle, chars_of, contains, contains_chars, replace, replace_all};

verus! {

/// A name that mentions one of the image (or document) extensions that are
/// copied rather than rendered.
pub open spec fn is_image_name(name: Seq<char>) -> bool {
    ||| contains(name, ".jpg"@)
    ||| contains(name, ".jpeg"@)
    ||| contains(name, ".gif"@)
    ||| contains(name, ".pdf"@)
    ||| contains(name, ".svg"@)
    ||| contains(name, ".tiff"@)
    ||| contains(name, ".webp"@)
    ||| contains(name, ".png"@)
}

/// A name is an image exactly when it contains one of the extensions, each
/// on its own: `.jpg`, `.jpeg`, `.gif`, `.pdf`, `.svg`, `.tiff`, `.webp`,
/// `.png`.
pub proof fn law_image_extensions(name: Seq<char>)
    ensures
        contains(name, ".jpg"@) ==> is_image_name(name),
        contains(name, ".jpeg"@) ==> is_image_name(name),
        contains(name, ".gif"@) ==> is_image_name(name),
        contains(name, ".pdf"@) ==> is_image_name(name),
        contains(name, ".svg"@) ==> is_image_name(name),
        contains(name, ".tiff"@) ==> is_image_name(name),
        contains(name, ".webp"@) ==> is_image_name(name),
        contains(name, ".png"@) ==> is_image_name(name),
        is_image_name(name) ==> contains(name, ".jpg"@) || contains(name, ".jpeg"@) || contains(
            name,
            ".gif"@,
        ) || contains(name, ".pdf"@) || contains(name, ".svg"@) || contains(name, ".tiff"@)
            || contains(name, ".webp"@) || contains(name, ".png"@),
{
}

/// Any file name with one of the extensions in it, such as `a + ".jpg" + b`,
/// is an image, and is copied rather than rendered.
pub proof fn law_named_images(a: Seq<char>, b: Seq<char>)
    ensures
        is_image_name(a + ".jpg"@ + b),
        is_image_name(a + ".jpeg"@ + b),
        is_image_name(a + ".gif"@ + b),
        is_image_name(a + ".pdf"@ + b),
        is_image_name(a + ".svg"@ + b),
        is_image_name(a + ".tiff"@ + b),
        is_image_name(a + ".webp"@ + b),
        is_image_name(a + ".png"@ + b),
{
    lemma_contains_middle(a, ".jpg"@, b);
    lemma_contains_middle(a, ".jpeg"@, b);
    lemma_contains_middle(a, ".gif"@, b);
    lemma_contains_middle(a, ".pdf"@, b);
    lemma_contains_middle(a, ".svg"@, b);
    lemma_contains_middle(a, ".tiff"@, b);
    lemma_contains_middle(a, ".webp"@, b);
    lemma_contains_middle(a, ".png"@, b);
}

/// Whether `name` is an image: it contains one of `.jpg`, `.jpeg`, `.gif`,
/// `.pdf`, `.svg`, `.tiff`, `.webp` or `.png`.
pub fn is_an_image(name: String) -> (res: bool)
    ensures
        res == is_image_name(name@),
{
    let s = chars_of(name.as_str());
    contains_chars(&s, &chars_of(".jpg"))
        || contains_chars(&s, &chars_of(".jpeg"))
        || contains_chars(&s, &chars_of(".gif"))
        || contains_chars(&s, &chars_of(".pdf"))
        || contains_chars(&s, &chars_of(".svg"))
        || contains_chars(&s, &chars_of(".tiff"))
        || contains_chars(&s, &chars_of(".webp"))
        || contains_chars(&s, &chars_of(".png"))
}

/// The path of the page generated from the note at `entry_path`.
pub open spec fn html_path_of(entry_path: Seq<char>) -> Seq<char> {
    replace_all(
        replace_all(entry_path, "obsidian_project"@, "obsidian_html"@),
        ".md"@,
        ".html"@,
    )
}

/// The path to which the image at `entry_path` is copied.
pub open spec fn image_path_of(entry_path: Seq<char>) -> Seq<char> {
    replace_all(entry_path, "obsidian_project"@, "obsidian_img"@)
}

/// The page generated from a note goes to `obsidian_html` in place of
/// `obsidian_project`, with `.html` in place of `.md`.
pub fn html_page_path(entry_path: &str) -> (res: String)
    ensures
        res@ == html_path_of(entry_path@),
{
    let moved = replace(entry_path, "obsidian_project", "obsidian_html");
    replace(moved.as_str(), ".md", ".html")
}

/// An image goes to `obsidian_img` in place of `obsidian_project`.
pub fn image_store_path(entry_path: &str) -> (res: String)
    ensures
        res@ == image_path_of(entry_path@),
{
    replace(entry_path, "obsidian_project", "obsidian_img")
}

/// What becomes of one file of the vault.
pub enum FileTask {
    /// The note is rendered to HTML and written to this path.
    RenderPage(String),
    /// The image is copied to this path.
    CopyImage(String),
}

/// Images are copied to `obsidian_img`; every other file is rendered to a
/// page under `obsidian_html`.
pub fn plan_file(entry_path: &str) -> (res: FileTask)
    ensures
        match res {
            FileTask::RenderPage(target) => !is_image_name(entry_path@) && target@ == html_path_of(
                entry_path@,
            ),
            FileTask::CopyImage(target) => is_image_name(entry_path@) && target@ == image_path_of(
                entry_path@,
            ),
        },
{
    let name = crate::text::string_from_chars(&chars_of(entry_path));
    if !is_an_image(name) {
        FileTask::RenderPage(html_page_path(entry_path))
    } else {
        FileTask::CopyImage(image_store_path(entry_path))
    }
}

} // verus!
