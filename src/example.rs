//! The records of the example catalog.
use vstd::prelude::*;

verus! {

/// One example of the gallery, as the dataset holds it.
///
/// `highlighted_html` is derived: it is never written to the dataset, and it
/// stands equal to `html` until highlighting has produced something better.
#[derive(Debug, Clone)]
pub struct ExampleData {
    pub id: String,
    pub title: String,
    pub description: String,
    pub html: String,
    pub backend_file: String,
    pub highlighted_html: String,
}

/// The persisted fields of a record.
pub struct ExampleView {
    pub id: Seq<char>,
    pub title: Seq<char>,
    pub description: Seq<char>,
    pub html: Seq<char>,
    pub backend_file: Seq<char>,
}

impl View for ExampleData {
    type V = ExampleView;

    open spec fn view(&self) -> ExampleView {
        ExampleView {
            id: self.id@,
            title: self.title@,
            description: self.description@,
            html: self.html@,
            backend_file: self.backend_file@,
        }
    }
}

/// The views of a sequence of records.
pub open spec fn records_view(v: Seq<ExampleData>) -> Seq<ExampleView> {
    v.map_values(|e: ExampleData| e@)
}

/// The top level of the dataset: its sequence of examples.
#[derive(Debug)]
pub struct ExamplesRoot {
    pub examples: Vec<ExampleData>,
}

/// A record as the gallery pages show it, with its highlighted markup.
#[derive(Clone)]
pub struct ExampleWithHighlight {
    pub id: String,
    pub title: String,
    pub description: String,
    pub html: String,
    pub highlighted_html: String,
    pub backend_file: String,
}

} // verus!
