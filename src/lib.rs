//! Serve a directory of Markdown as sanitized HTML: path resolution,
//! sanitizing of rendered pages, and a render cache keyed on file
//! modification time.
pub mod cache;
pub mod error;
pub mod render;
pub mod resolve;
