//! The state that the site keeps about its pages.

pub mod state;
