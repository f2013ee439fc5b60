//! The example catalog at request time: the query of a search request, and
//! the case-insensitive filter over the records.
use vstd::prelude::*;
use crate::example::{records_view, ExampleData, ExampleView};
use crate::text::{contains_text, lower_of, lowercase, occurs_in};

verus! {

/// What serde_json finds as the string value of `key` in the JSON object
/// `text`.
pub uninterp spec fn json_string_field(text: Seq<char>, key: Seq<char>) -> Option<Seq<char>>;

/// Relies on `serde_json::from_str` into a `serde_json::Value`, read with
/// `Value::get` and `Value::as_str`: the string value of `key` in the JSON
/// object `text`, which depends on the two arguments alone.
#[verifier::external_body]
fn json_field_text(text: &str, key: &str) -> (r: Option<String>)
    ensures
        r is Some <==> json_string_field(text@, key@) is Some,
        r matches Some(v) ==> json_string_field(text@, key@) == Some(v@),
{
    let value: serde_json::Value = serde_json::from_str(text).ok()?;
    let field = value.get(key)?.as_str()?;
    Some(field.to_string())
}

/// The parameters of a search request: a structured signal payload and a
/// plain query parameter, either of which may be absent.
#[derive(Debug, Clone)]
pub struct SearchRequestExtractor {
    pub datastar: Option<String>,
    pub search: Option<String>,
}

/// The search text: the `search` field of the payload if it has one, else
/// the plain parameter, else nothing.
pub open spec fn search_text_of(datastar: Option<Seq<char>>, plain: Option<Seq<char>>) -> Seq<
    char,
> {
    match datastar {
        Some(d) if json_string_field(d, "search"@) is Some => json_string_field(d, "search"@)->0,
        _ => match plain {
            Some(p) => p,
            None => Seq::empty(),
        },
    }
}

impl SearchRequestExtractor {
    pub open spec fn datastar_view(&self) -> Option<Seq<char>> {
        match self.datastar {
            Some(d) => Some(d@),
            None => None,
        }
    }

    pub open spec fn search_view(&self) -> Option<Seq<char>> {
        match self.search {
            Some(s) => Some(s@),
            None => None,
        }
    }

    pub fn get_search_text(&self) -> (r: String)
        ensures
            r@ == search_text_of(self.datastar_view(), self.search_view()),
    {
        let from_payload = match &self.datastar {
            Some(d) => json_field_text(d.as_str(), "search"),
            None => None,
        };
        match from_payload {
            Some(t) => t,
            None => match &self.search {
                Some(s) => s.clone(),
                None => String::new(),
            },
        }
    }
}

/// Whether lower-cased fields match a lower-cased query: it occurs in any
/// one of them.
pub open spec fn fields_match(title: Seq<char>, description: Seq<char>, id: Seq<char>, query: Seq<
    char,
>) -> bool {
    occurs_in(query, title) || occurs_in(query, description) || occurs_in(query, id)
}

/// Whether a record matches a lower-case query, whatever the case of its
/// fields.
pub open spec fn record_matches(e: ExampleView, query: Seq<char>) -> bool {
    fields_match(lower_of(e.title), lower_of(e.description), lower_of(e.id), query)
}

/// The records that match, in their order.
pub open spec fn matching_records(rs: Seq<ExampleView>, query: Seq<char>) -> Seq<ExampleView>
    decreases rs.len(),
{
    if rs.len() == 0 {
        Seq::empty()
    } else {
        let prev = matching_records(rs.drop_last(), query);
        if record_matches(rs.last(), query) {
            prev.push(rs.last())
        } else {
            prev
        }
    }
}

/// Whether already lower-cased fields match a lower-cased query.
pub fn matches_lowered(title: &str, description: &str, id: &str, query: &str) -> (r: bool)
    ensures
        r == fields_match(title@, description@, id@, query@),
{
    contains_text(title, query) || contains_text(description, query) || contains_text(id, query)
}

/// Whether the record matches the lower-case query.
pub fn example_matches(e: &ExampleData, query: &str) -> (r: bool)
    ensures
        r == record_matches(e@, query@),
{
    let t = lowercase(e.title.as_str());
    let d = lowercase(e.description.as_str());
    let i = lowercase(e.id.as_str());
    matches_lowered(t.as_str(), d.as_str(), i.as_str(), query)
}

impl ExampleData {
    /// A field-for-field copy.
    pub fn duplicate(&self) -> (r: ExampleData)
        ensures
            r@ == self@,
            r.highlighted_html@ == self.highlighted_html@,
    {
        ExampleData {
            id: self.id.clone(),
            title: self.title.clone(),
            description: self.description.clone(),
            html: self.html.clone(),
            backend_file: self.backend_file.clone(),
            highlighted_html: self.highlighted_html.clone(),
        }
    }
}

/// The records that match the lower-case `query`, in catalog order. The
/// empty query matches every record.
pub fn filter_examples(examples: &Vec<ExampleData>, query: &str) -> (r: Vec<ExampleData>)
    ensures
        records_view(r@) == matching_records(records_view(examples@), query@),
{
    let ghost rs = records_view(examples@);
    let mut out: Vec<ExampleData> = Vec::new();
    let mut i: usize = 0;
    assert(rs.take(0) =~= Seq::<ExampleView>::empty());
    assert(records_view(out@) =~= Seq::<ExampleView>::empty());
    while i < examples.len()
        invariant
            rs == records_view(examples@),
            i <= examples.len(),
            records_view(out@) == matching_records(rs.take(i as int), query@),
        decreases examples.len() - i,
    {
        assert(rs.take(i + 1).drop_last() =~= rs.take(i as int));
        assert(rs.take(i + 1).last() == examples@[i as int]@);
        if example_matches(&examples[i], query) {
            let e = examples[i].duplicate();
            let ghost before = out@;
            out.push(e);
            assert(out@.drop_last() =~= before);
            assert(records_view(out@) =~= records_view(before).push(e@));
        }
        i += 1;
    }
    assert(rs.take(examples.len() as int) =~= rs);
    out
}

/// The empty query matches every record, so the whole catalog comes back in
/// its order.
pub proof fn lemma_empty_query_matches_all(rs: Seq<ExampleView>)
    ensures
        matching_records(rs, Seq::empty()) == rs,
    decreases rs.len(),
{
    if rs.len() > 0 {
        lemma_empty_query_matches_all(rs.drop_last());
        let t = lower_of(rs.last().title);
        assert(t.subrange(0, 0 + Seq::<char>::empty().len() as int) =~= Seq::<char>::empty());
        assert(rs.drop_last().push(rs.last()) =~= rs);
    } else {
        assert(rs =~= Seq::<ExampleView>::empty());
    }
}

/// A record is among the results of a query exactly when the query occurs in
/// its lower-cased title, description or id.
pub proof fn lemma_matching_records_member(rs: Seq<ExampleView>, query: Seq<char>, e: ExampleView)
    ensures
        matching_records(rs, query).contains(e) <==> rs.contains(e) && record_matches(e, query),
    decreases rs.len(),
{
    if rs.len() > 0 {
        let init = rs.drop_last();
        lemma_matching_records_member(init, query, e);
        assert(rs =~= init.push(rs.last()));
        if rs.contains(e) && e != rs.last() {
            let k = choose|k: int| 0 <= k < rs.len() && rs[k] == e;
            assert(init[k] == e);
        }
        if init.contains(e) {
            let k = choose|k: int| 0 <= k < init.len() && init[k] == e;
            assert(rs[k] == e);
        }
        let prev = matching_records(init, query);
        if record_matches(rs.last(), query) {
            if prev.push(rs.last()).contains(e) && e != rs.last() {
                let k = choose|k: int| 0 <= k < prev.push(rs.last()).len() && prev.push(rs.last())[k] == e;
                assert(prev[k] == e);
            }
            if prev.contains(e) {
                let k = choose|k: int| 0 <= k < prev.len() && prev[k] == e;
                assert(prev.push(rs.last())[k] == e);
            }
            assert(prev.push(rs.last())[prev.len() as int] == rs.last());
            assert(rs[rs.len() - 1] == rs.last());
        }
    }
}

} // verus!
