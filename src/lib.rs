//! Finds fenced `svgbob` code blocks in a stream of documentation fragments
//! and replaces each one with an embedded SVG image reference.

mod chars;
pub mod encode;
pub mod fence;
pub mod laws;
pub mod textproc;
