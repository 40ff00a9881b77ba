//! Renderings of a mapping report: Markdown and HTML pages.
pub mod markdown;
pub mod html;
