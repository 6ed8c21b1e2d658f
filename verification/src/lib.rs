//! Inline previews of mathematical formulas: finding the formulas of a text,
//! rendering them in batches through LaTeX or Typst, and deciding what an
//! editor shows in their place.

pub mod backend;
pub mod batch;
pub mod cache;
pub mod command;
pub mod config;
pub mod context;
pub mod delimiters;
pub mod entry;
pub mod hash;
pub mod job;
pub mod keyed;
pub mod layout;
pub mod paths;
pub mod previews;
pub mod ranges;
pub mod registry;
pub mod request;
pub mod settings;
pub mod svg;
pub mod text;
