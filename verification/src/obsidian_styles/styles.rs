//! The style of each page that has one of its own: the key is the path of
//! the note in the vault, the value the CSS of the `div` around its page
//! (see `Parse::specific_page_styling`). Add an entry here to give a page
//! its own look.

use vstd::prelude::*;
use crate::markup::{distinct_keys, style_views};

verus! {

/// The table of page styles: none so far. As in a map, no page has two
/// entries.
pub fn specpag() -> (res: Vec<(String, String)>)
    ensures
        res@.len() == 0,
        distinct_keys(style_views(res@)),
{
    Vec::new()
}

} // verus!
