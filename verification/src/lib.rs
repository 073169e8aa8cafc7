//! A verified document pipeline for a small static site generator.
//!
//! The library turns front-matter-annotated text documents into HTML
//! fragments: `meta::parse_document` splits a raw document into metadata
//! and a body, `render::render_markdown` turns the body into block-level
//! markup, `inline::format_inline` expands strong-emphasis spans, and
//! `date::format_date` humanizes ISO-like dates.  `http::extract_path`
//! and `http::get_content_type` are the pure helpers of the serving
//! shell.  Every function's behaviour is pinned down by a spec function
//! over sequences of characters and proved with Verus.

pub mod chars;
pub mod date;
pub mod http;
pub mod inline;
pub mod meta;
pub mod render;

pub use date::format_date;
pub use http::extract_path;
pub use http::get_content_type;
pub use inline::format_inline;
pub use meta::parse_document;
pub use meta::PostMeta;
pub use render::render_markdown;
