//! Directory listings as coloured, column-aligned grids.
//!
//! The library classifies and filters directory entries, orders them,
//! resolves a style for each name and lays the styled names out in
//! fixed-width columns. Reading the file system, the terminal and the
//! command line is left to the caller.

pub mod text;
pub mod ansi;
pub mod color;
pub mod entry;
pub mod style;
pub mod grid;
pub mod pattern;
pub mod order;
pub mod sort;
pub mod listing;
pub mod config;
pub mod walker;
pub mod terminal;
pub mod output;
