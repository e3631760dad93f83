//! A small source formatter: it lays out function definitions, given as a
//! syntax tree, in one canonical textual form.
//!
//! The tree types live in [`syntax`], the mathematical description of the
//! produced text in [`text`], the indentation state in [`indent`], the
//! executable renderer in [`render`], and the properties that hold of every
//! rendering in [`laws`]. The settings, and the reading of a settings text,
//! are in [`config`].

pub mod config;
pub mod indent;
pub mod laws;
pub mod render;
pub mod syntax;
pub mod text;
