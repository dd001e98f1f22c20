//! Page-specific styles.

pub mod styles;
