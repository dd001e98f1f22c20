# warp_page

A static site generator for Obsidian vaults, written in Verus.

- `src/text.rs`: search and replacement on character sequences.
- `src/pages.rs`: which files are images, and where pages and images go.
- `src/markup.rs`: the rewriting of a note into HTML (styles, bold, italic,
  line breaks, headings, pictures, links), rule by rule.
- `src/site_map.rs`: the links found in the generated pages.
- `src/rust_state/state.rs`: the list of links.
- `app/`: the server: file system, HTTP routes with warp, JSON replies.
