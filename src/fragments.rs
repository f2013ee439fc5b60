//! The request logic: which requests each endpoint serves, and what it
//! answers. Fragment endpoints serve only requests that carry the
//! partial-update marker; any other request gets `NotFound`.
use vstd::prelude::*;
use vstd::string::*;
use crate::catalog::{filter_examples, matching_records, search_text_of, SearchRequestExtractor};
use crate::error::AppError;
use crate::example::{records_view, ExampleData, ExampleView, ExampleWithHighlight};
use crate::highlight::{highlight_as, shown_highlighted, CodeLanguage};
use crate::templates::{
    BackendCodeTemplate, DataItemsTemplate, FormResponseTemplate, SearchResultsTemplate,
};
use crate::text::{
    concat, has_prefix, join_lines, join_with_newlines, lower_of, lowercase, push_char,
    lines_of, text_has_prefix, text_lines, trim_front, views,
};
use crate::theme::{get_theme_variables, theme_css, theme_named, Theme};

verus! {

/// The message of a fragment endpoint refusing a full-page request.
pub const FRAGMENTS_ONLY: &'static str = "This endpoint only serves HTML fragments";

/// Whether `w` shows the record `e`, with its markup highlighted as HTML
/// where highlighting succeeds and left as it is where it fails.
pub open spec fn shows(w: ExampleWithHighlight, e: ExampleView) -> bool {
    &&& w.id@ == e.id
    &&& w.title@ == e.title
    &&& w.description@ == e.description
    &&& w.html@ == e.html
    &&& w.backend_file@ == e.backend_file
    &&& w.highlighted_html@ == shown_highlighted(CodeLanguage::Html, e.html)
}

/// Whether `ws` shows the records `rs`, one for one and in order.
pub open spec fn shows_all(ws: Seq<ExampleWithHighlight>, rs: Seq<ExampleView>) -> bool {
    ws.len() == rs.len() && forall|i: int| 0 <= i < ws.len() ==> shows(#[trigger] ws[i], rs[i])
}

/// The records with their markup highlighted as HTML.
pub fn with_highlight(examples: &Vec<ExampleData>) -> (r: Vec<ExampleWithHighlight>)
    ensures
        shows_all(r@, records_view(examples@)),
{
    let mut out: Vec<ExampleWithHighlight> = Vec::new();
    let mut i: usize = 0;
    while i < examples.len()
        invariant
            i <= examples.len(),
            out.len() == i,
            forall|k: int| 0 <= k < i ==> shows(#[trigger] out@[k], examples@[k]@),
        decreases examples.len() - i,
    {
        let e = &examples[i];
        let w = ExampleWithHighlight {
            id: e.id.clone(),
            title: e.title.clone(),
            description: e.description.clone(),
            html: e.html.clone(),
            highlighted_html: highlight_as(e.html.as_str(), CodeLanguage::Html),
            backend_file: e.backend_file.clone(),
        };
        out.push(w);
        i += 1;
    }
    out
}

/// The search endpoint: the records whose title, description or id hold the
/// lower-cased search text, each with its highlighted markup.
pub fn search(has_marker: bool, examples: &Vec<ExampleData>, request: &SearchRequestExtractor) -> (r:
    Result<SearchResultsTemplate, AppError>)
    ensures
        !has_marker ==> (r matches Err(AppError::NotFound(m)) && m@ == FRAGMENTS_ONLY@),
        has_marker ==> (r matches Ok(t) && shows_all(
            t.examples@,
            matching_records(
                records_view(examples@),
                lower_of(search_text_of(request.datastar_view(), request.search_view())),
            ),
        )),
{
    if !has_marker {
        return Err(AppError::not_found(FRAGMENTS_ONLY));
    }
    let query = lowercase(request.get_search_text().as_str());
    let found = filter_examples(examples, query.as_str());
    Ok(SearchResultsTemplate { examples: with_highlight(&found) })
}

/// The opening tag of the results container.
pub open spec fn cards_open() -> Seq<char> {
    "<div id=\"example-cards\">"@
}

/// The closing tag of the results container.
pub open spec fn cards_close() -> Seq<char> {
    "</div>"@
}

/// The rendered search results inside the container that the page patches.
pub fn wrap_example_cards(rendered: &str) -> (r: String)
    ensures
        r@ == cards_open() + rendered@ + cards_close(),
{
    let mut r = concat("<div id=\"example-cards\">", rendered);
    r.append("</div>");
    r
}

/// Each hyphen replaced by an underscore.
pub open spec fn underscored(s: Seq<char>) -> Seq<char> {
    s.map_values(|c: char| if c == '-' { '_' } else { c })
}

/// An example's source path relative to the package.
pub open spec fn primary_source_path(id: Seq<char>) -> Seq<char> {
    "src/examples/"@ + underscored(id) + ".rs"@
}

/// An example's source path relative to the workspace root.
pub open spec fn alternate_source_path(id: Seq<char>) -> Seq<char> {
    "web-app/src/examples/"@ + underscored(id) + ".rs"@
}

/// Where the source of an example is looked for when the catalog has no
/// record of it: first relative to the package, then relative to the
/// workspace root.
pub fn default_source_paths(example_id: &str) -> (r: (String, String))
    ensures
        r.0@ == primary_source_path(example_id@),
        r.1@ == alternate_source_path(example_id@),
{
    let v = crate::text::chars_of(example_id);
    let mut name = String::new();
    let mut i: usize = 0;
    while i < v.len()
        invariant
            v@ == example_id@,
            i <= v.len(),
            name@ == underscored(v@.take(i as int)),
        decreases v.len() - i,
    {
        let c = if v[i] == '-' {
            '_'
        } else {
            v[i]
        };
        push_char(&mut name, c);
        assert(name@ =~= underscored(v@.take(i + 1)));
        i += 1;
    }
    assert(v@.take(v.len() as int) =~= v@);
    let mut primary = concat("src/examples/", name.as_str());
    primary.append(".rs");
    let mut alternate = concat("web-app/src/examples/", name.as_str());
    alternate.append(".rs");
    (primary, alternate)
}

/// The first record with the given id.
pub open spec fn record_with_id(rs: Seq<ExampleView>, id: Seq<char>) -> Option<ExampleView>
    decreases rs.len(),
{
    if rs.len() == 0 {
        None
    } else if rs[0].id == id {
        Some(rs[0])
    } else {
        record_with_id(rs.skip(1), id)
    }
}

/// Where the source of an example is looked for: the path the catalog
/// recorded for it, then the same path under the workspace root.
pub open spec fn source_paths(rs: Seq<ExampleView>, id: Seq<char>) -> (Seq<char>, Seq<char>) {
    match record_with_id(rs, id) {
        Some(e) => (e.backend_file, "web-app/"@ + e.backend_file),
        None => (primary_source_path(id), alternate_source_path(id)),
    }
}

/// The primary and the alternate path of an example's source.
pub fn example_source_paths(catalog: &Vec<ExampleData>, example_id: &str) -> (r: (String, String))
    ensures
        (r.0@, r.1@) == source_paths(records_view(catalog@), example_id@),
{
    let ghost rs = records_view(catalog@);
    let mut i: usize = 0;
    assert(rs.skip(0) =~= rs);
    while i < catalog.len()
        invariant
            rs == records_view(catalog@),
            i <= catalog.len(),
            record_with_id(rs, example_id@) == record_with_id(rs.skip(i as int), example_id@),
        decreases catalog.len() - i,
    {
        assert(rs.skip(i as int)[0] == catalog@[i as int]@);
        assert(rs.skip(i as int).skip(1) =~= rs.skip(i + 1));
        if catalog[i].id == String::from_str(example_id) {
            let file = catalog[i].backend_file.clone();
            let alternate = concat("web-app/", file.as_str());
            return (file, alternate);
        }
        i += 1;
    }
    default_source_paths(example_id)
}

/// The lines after the leading documentation lines.
pub open spec fn after_doc_lines(ls: Seq<Seq<char>>) -> Seq<Seq<char>>
    decreases ls.len(),
{
    if ls.len() > 0 && has_prefix(ls[0], "//!"@) {
        after_doc_lines(ls.skip(1))
    } else {
        ls
    }
}

/// An example's source without its metadata block and the blank space after
/// it.
pub open spec fn code_without_metadata(content: Seq<char>) -> Seq<char> {
    trim_front(join_lines(after_doc_lines(text_lines(content))))
}

/// Drops the leading metadata comment lines of an example's source.
pub fn strip_metadata_header(content: &str) -> (r: String)
    ensures
        r@ == code_without_metadata(content@),
{
    let lines = lines_of(content);
    let mut i: usize = 0;
    assert(views(lines@).skip(0) =~= views(lines@));
    while i < lines.len() && text_has_prefix(lines[i].as_str(), "//!")
        invariant
            i <= lines.len(),
            views(lines@) == text_lines(content@),
            after_doc_lines(text_lines(content@)) == after_doc_lines(views(lines@).skip(i as int)),
        decreases lines.len() - i,
    {
        assert(views(lines@).skip(i as int).skip(1) =~= views(lines@).skip(i + 1));
        i += 1;
    }
    let mut rest: Vec<String> = Vec::new();
    let mut j: usize = i;
    assert(views(rest@) =~= views(lines@).subrange(i as int, i as int));
    while j < lines.len()
        invariant
            i <= j <= lines.len(),
            views(rest@) == views(lines@).subrange(i as int, j as int),
        decreases lines.len() - j,
    {
        let ghost before = rest@;
        rest.push(lines[j].clone());
        assert(rest@.drop_last() =~= before);
        assert(views(rest@) =~= views(before).push(lines@[j as int]@));
        assert(views(rest@) =~= views(lines@).subrange(i as int, j + 1));
        j += 1;
    }
    assert(views(lines@).skip(i as int) =~= views(lines@).subrange(i as int, lines.len() as int));
    let joined = join_with_newlines(&rest);
    let v = crate::text::chars_of(joined.as_str());
    let mut k: usize = 0;
    assert(v@.skip(0) =~= v@);
    while k < v.len() && crate::text::white_space(v[k])
        invariant
            k <= v.len(),
            trim_front(v@) == trim_front(v@.skip(k as int)),
        decreases v.len() - k,
    {
        assert(v@.skip(k as int).skip(1) =~= v@.skip(k + 1));
        k += 1;
    }
    assert(v@.skip(0) =~= v@);
    assert(v@.subrange(k as int, v.len() as int) =~= v@.skip(k as int));
    crate::text::string_of(&v, k, v.len())
}

/// The text shown where an example's source cannot be read.
pub open spec fn code_not_found(primary: Seq<char>, alternate: Seq<char>, error: Seq<char>) -> Seq<
    char,
> {
    "// Example code not found\n// Tried: "@ + primary + "\n// Alt: "@ + alternate
        + "\n// Error: "@ + error
}

/// The source text that the code fragment shows: the first file that could
/// be read, without its metadata; else a placeholder naming both paths and
/// the first error.
pub open spec fn shown_source(
    rs: Seq<ExampleView>,
    id: Seq<char>,
    primary: Result<Seq<char>, Seq<char>>,
    alternate: Result<Seq<char>, Seq<char>>,
) -> Seq<char> {
    match primary {
        Ok(c) => code_without_metadata(c),
        Err(e) => match alternate {
            Ok(c) => code_without_metadata(c),
            Err(_) => code_not_found(source_paths(rs, id).0, source_paths(rs, id).1, e),
        },
    }
}

/// The view of a file read: its text, or the error's message.
pub open spec fn read_view(r: Result<String, String>) -> Result<Seq<char>, Seq<char>> {
    match r {
        Ok(c) => Ok(c@),
        Err(e) => Err(e@),
    }
}

/// The code endpoint: the highlighted source of an example. `primary` and
/// `alternate` are what reading the two paths of `example_source_paths`
/// gave: the text, or the error's message. A missing file is no error; the
/// fragment then shows a placeholder.
pub fn get_example_code(
    has_marker: bool,
    catalog: &Vec<ExampleData>,
    example_id: &str,
    primary: Result<String, String>,
    alternate: Result<String, String>,
) -> (r: Result<BackendCodeTemplate, AppError>)
    ensures
        !has_marker ==> (r matches Err(AppError::NotFound(m)) && m@ == FRAGMENTS_ONLY@),
        has_marker ==> (r matches Ok(t) && t.example_id@ == example_id@ && ({
            let raw = shown_source(
                records_view(catalog@),
                example_id@,
                read_view(primary),
                read_view(alternate),
            );
            t.code@ == shown_highlighted(CodeLanguage::Rust, raw)
        })),
{
    if !has_marker {
        return Err(AppError::not_found(FRAGMENTS_ONLY));
    }
    let raw = match &primary {
        Ok(content) => strip_metadata_header(content.as_str()),
        Err(e) => match &alternate {
            Ok(content) => strip_metadata_header(content.as_str()),
            Err(_) => {
                let (p, a) = example_source_paths(catalog, example_id);
                let mut s = concat("// Example code not found\n// Tried: ", p.as_str());
                s.append("\n// Alt: ");
                s.append(a.as_str());
                s.append("\n// Error: ");
                s.append(e.as_str());
                s
            },
        },
    };
    let code = highlight_as(raw.as_str(), CodeLanguage::Rust);
    Ok(BackendCodeTemplate { example_id: String::from_str(example_id), code })
}

/// What the theme switch answers: a style block and the cookie to set.
pub struct ThemeSwitchResponse {
    pub html: String,
    pub set_cookie: String,
}

/// The style block that carries a theme's variables.
pub open spec fn theme_style_block(css: Seq<char>) -> Seq<char> {
    "<style id=\"theme\">\n        :root {\n            "@ + css + "\n        }\n    </style>"@
}

/// The cookie that records a requested theme name for a year, site-wide.
pub open spec fn theme_cookie(name: Seq<char>) -> Seq<char> {
    "theme="@ + name + "; Path=/; Max-Age=31536000; SameSite=Lax"@
}

/// The theme that a requested name resolves to: the one it names, or the
/// default.
pub open spec fn resolved_theme(name: Seq<char>) -> Theme {
    match theme_named(lower_of(name)) {
        Some(t) => t,
        None => Theme::Light,
    }
}

/// The theme switch endpoint. The cookie records the requested name as it
/// came, also where it names no theme and the style block falls back to the
/// default theme.
pub fn switch_theme(has_marker: bool, theme: &str) -> (r: Result<ThemeSwitchResponse, AppError>)
    ensures
        !has_marker ==> (r matches Err(AppError::NotFound(m)) && m@ == FRAGMENTS_ONLY@),
        has_marker ==> (r matches Ok(s) && s.html@ == theme_style_block(
            theme_css(resolved_theme(theme@)),
        ) && s.set_cookie@ == theme_cookie(theme@)),
{
    if !has_marker {
        return Err(AppError::not_found(FRAGMENTS_ONLY));
    }
    let resolved = Theme::resolve(theme);
    let css = get_theme_variables(&resolved);
    let mut html = concat("<style id=\"theme\">\n        :root {\n            ", css.as_str());
    html.append("\n        }\n    </style>");
    let mut cookie = concat("theme=", theme);
    cookie.append("; Path=/; Max-Age=31536000; SameSite=Lax");
    Ok(ThemeSwitchResponse { html, set_cookie: cookie })
}

/// A submitted form.
#[derive(Debug, Clone)]
pub struct SubmitRequest {
    pub name: String,
    pub value: String,
}

/// The form endpoint: a confirmation naming the submitted name, which must
/// not be empty.
pub fn submit_form(has_marker: bool, payload: &SubmitRequest) -> (r: Result<
    FormResponseTemplate,
    AppError,
>)
    ensures
        !has_marker ==> (r matches Err(AppError::NotFound(m)) && m@ == FRAGMENTS_ONLY@),
        has_marker && payload.name@.len() == 0 ==> (r matches Err(AppError::BadRequest(m)) && m@
            == "Name cannot be empty"@),
        has_marker && payload.name@.len() > 0 ==> (r matches Ok(t) && t.message@
            == "Successfully processed: "@ + payload.name@),
{
    if !has_marker {
        return Err(AppError::not_found(FRAGMENTS_ONLY));
    }
    if payload.name.as_str().is_empty() {
        return Err(AppError::bad_request("Name cannot be empty"));
    }
    Ok(FormResponseTemplate { message: concat("Successfully processed: ", payload.name.as_str()) })
}

/// The demo data endpoint: a greeting and three items, stamped with the
/// time of the request.
pub fn get_items(has_marker: bool, timestamp_secs: i64) -> (r: Result<DataItemsTemplate, AppError>)
    ensures
        !has_marker ==> (r matches Err(AppError::NotFound(m)) && m@ == FRAGMENTS_ONLY@),
        has_marker ==> (r matches Ok(t) && t.message@ == "Hello from Rust Web Starter!"@
            && t.timestamp_secs == timestamp_secs && t.items@.len() == 3 && t.items@[0]@
            == "Item 1"@ && t.items@[1]@ == "Item 2"@ && t.items@[2]@ == "Item 3"@),
{
    if !has_marker {
        return Err(AppError::not_found(FRAGMENTS_ONLY));
    }
    let items = vec![String::from_str("Item 1"), String::from_str("Item 2"), String::from_str("Item 3")];
    Ok(
        DataItemsTemplate {
            message: String::from_str("Hello from Rust Web Starter!"),
            timestamp_secs,
            items,
        },
    )
}

} // verus!
