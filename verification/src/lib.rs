//! Verified core of a CSV-to-chart generator.
//!
//! The library validates and loads tabular CSV data, computes the exact
//! angular layout of pie and radar charts, and decides what the interactive
//! shell accepts. Rendering to pixels and all file handling live outside it.
pub mod bar;
pub mod csvio;
pub mod error;
pub mod numtext;
pub mod pie;
pub mod pipeline;
pub mod radar;
pub mod rows;
pub mod shell;
pub mod template;
pub mod text;
pub mod xy;
