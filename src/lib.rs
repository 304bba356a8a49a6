//! Turns outlines of headlines into a blog's articles, indexes them, and
//! decides how internal links are rendered.

pub mod text;
pub mod outline;
pub mod site;
pub mod extract;
pub mod listing;
pub mod handlers;
