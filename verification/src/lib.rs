//! A markdown document model with a verified layout-flow engine.
//!
//! The library parses markdown source into a tree of content blocks,
//! measures the tree into vertical offsets expressed in integer layout
//! units, and answers viewport visibility queries without rescanning the
//! whole document. Text shaping and image decoding are performed by the
//! host through an explicit request/result protocol, so every layout
//! decision made here is verified.

pub mod builder;
pub mod measure;
pub mod theme;
pub mod content;
pub mod flow;
pub mod marker;
pub mod parse;
pub mod token;
pub mod widget;
