//! A gallery of hypermedia examples: the metadata parser and dataset builder
//! that turn annotated example sources into a catalog, and the request logic
//! that searches the catalog and renders fragments with theme state.
pub mod catalog;
pub mod codec;
pub mod dataset;
pub mod error;
pub mod example;
pub mod fragments;
pub mod highlight;
pub mod pages;
pub mod parser;
pub mod settings;
pub mod templates;
pub mod text;
pub mod theme;
