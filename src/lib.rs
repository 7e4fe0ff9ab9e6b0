//! Segmentation of loosely formatted prose into paragraphs and list entries.

pub mod laws;
pub mod model;
pub mod render;
pub mod report;
pub mod text;

pub use text::{parse, TextElement};
