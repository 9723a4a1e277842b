//! Rendering of Graphviz code blocks inside mdBook chapters: file naming,
//! theme token substitution, SVG clean-up, HTML wrapping and the rewrite of a
//! chapter's Markdown events. The functions here are verified against their
//! contracts; parsing and writing Markdown are left to `pulldown_cmark` and
//! `pulldown_cmark_to_cmark`, whose results the contracts name without stating
//! them.

pub mod block;
pub mod config;
pub mod engine;
pub mod html;
pub mod markdown;
pub mod render;
pub mod text;
pub mod theme;
pub mod theme_css;
