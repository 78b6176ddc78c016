//! A reading list for academic papers: the model, BibTeX import and export,
//! reference classification, metadata extraction and text layout.

pub mod text;
pub mod model;
pub mod fetch;
pub mod bibtex;
pub mod output;
pub mod commands;
pub mod edit;
pub mod stats;
pub mod json;
pub mod atom;
pub mod transfer;
pub mod local;
pub mod store;
pub mod screen;
