//! Turns an Obsidian vault into the pages of a static site: the text
//! rewriting rules, the placement of generated files, and the link map.

pub mod text;
pub mod rust_state;
pub mod pages;
pub mod markup;
pub mod site_map;
pub mod obsidian_styles;
