//! The data that each page and fragment is rendered from.
use vstd::prelude::*;
use crate::example::ExampleWithHighlight;

verus! {

/// The index page.
pub struct IndexTemplate {
    pub title: String,
    pub environment: String,
    pub theme_css: String,
    pub syntax_css: String,
}

/// The demo data fragment; the time stamp is in seconds since the epoch.
pub struct DataItemsTemplate {
    pub message: String,
    pub timestamp_secs: i64,
    pub items: Vec<String>,
}

/// The confirmation of a submitted form.
pub struct FormResponseTemplate {
    pub message: String,
}

/// The gallery page, with every record of the catalog.
pub struct ExamplesTemplate {
    pub title: String,
    pub environment: String,
    pub theme_css: String,
    pub syntax_css: String,
    pub examples: Vec<ExampleWithHighlight>,
}

/// The cards of the records that a search found.
pub struct SearchResultsTemplate {
    pub examples: Vec<ExampleWithHighlight>,
}

/// The highlighted source of one example.
pub struct BackendCodeTemplate {
    pub example_id: String,
    pub code: String,
}

} // verus!
