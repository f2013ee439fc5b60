use web_app::catalog::{filter_examples, SearchRequestExtractor};
use web_app::codec::{parse_dataset, render_dataset};
use web_app::dataset::{build_dataset, collect_examples, is_example_source, BuildError, SourceFile};
use web_app::error::AppError;
use web_app::example::ExampleData;
use web_app::fragments::{
    default_source_paths, example_source_paths, get_example_code, get_items, search, strip_metadata_header,
    submit_form, switch_theme, wrap_example_cards, SubmitRequest, FRAGMENTS_ONLY,
};
use web_app::highlight::{highlight_code, highlight_or_plain, language_for_tag, CodeLanguage};
use web_app::pages::{examples, extract_theme_from_cookie, index};
use web_app::parser::{example_id, extract_metadata};
use web_app::settings::{ApplicationSettings, Metadata, ServerSettings, Settings, TelemetrySettings};
use web_app::theme::{
    get_syntax_highlighting_variables, get_theme_variables, Theme, DARK_SYNTAX_CSS,
    DARK_THEME_CSS, LIGHT_THEME_CSS,
};

const FORM_DEMO: &str = "//! @title Form Demo\n//! @description desc A\n//! @html_start\n//! <form>\n//!     <input name=\"name\">\n//!\n//! </form>\n//! @html_end\n\nuse crate::x;\n";

fn record(id: &str, title: &str, description: &str, html: &str) -> ExampleData {
    ExampleData {
        id: id.to_string(),
        title: title.to_string(),
        description: description.to_string(),
        html: html.to_string(),
        backend_file: format!("src/examples/{}.rs", id.replace('-', "_")),
        highlighted_html: html.to_string(),
    }
}

fn catalog() -> Vec<ExampleData> {
    vec![
        record("active-search", "Active Search", "Search examples as you type", "<input>"),
        record("form-demo", "Form Demo", "Form submission", "<form></form>"),
        record("theme-switcher", "Server-Side Theme Switcher", "Change themes", "<div></div>"),
        record("hypermedia-demo", "Hypermedia Demo", "Dynamic content loading", "<button>"),
    ]
}

fn settings() -> Settings {
    Settings {
        metadata: Metadata { name: "web-app".to_string(), version: "0.1.0".to_string() },
        application: ApplicationSettings {
            name: "Gallery".to_string(),
            environment: "local".to_string(),
        },
        server: ServerSettings { host: "127.0.0.1".to_string(), port: 3000 },
        telemetry: TelemetrySettings { level: "info".to_string(), otlp_endpoint: None },
    }
}

fn source(path: &str, content: &str) -> SourceFile {
    SourceFile { path: path.to_string(), content: content.to_string() }
}

#[test]
fn parser_extracts_block_lines_in_order() {
    let e = extract_metadata(FORM_DEMO, "src/examples/form_demo.rs").expect("an example");
    assert_eq!(e.id, "form-demo");
    assert_eq!(e.title, "Form Demo");
    assert_eq!(e.description, "desc A");
    assert_eq!(e.html, "<form>\n    <input name=\"name\">\n\n</form>");
    assert_eq!(e.backend_file, "src/examples/form_demo.rs");
    assert_eq!(e.highlighted_html, e.html);
}

#[test]
fn parser_keeps_blank_lines_inside_block() {
    let text = "//! @title T\n//! @description D\n//! @html_start\n//! a\n\n//! b\n//! @html_end\n";
    let e = extract_metadata(text, "x.rs").unwrap();
    assert_eq!(e.html, "a\n\nb");
}

#[test]
fn parser_reads_crlf_lines() {
    let text = "//! @title T\r\n//! @description D\r\n//! @html_start\r\n//! a\r\n//!\r\n//! b\r\n//! @html_end\r\n";
    let e = extract_metadata(text, "x.rs").unwrap();
    assert_eq!(e.title, "T");
    assert_eq!(e.html, "a\n\nb");
}

#[test]
fn highlighting_aliases_agree() {
    let code = "let x = 1;";
    let a = highlight_code(code, "RUST").ok().unwrap();
    assert_eq!(highlight_code(code, "rs").ok().unwrap(), a);
    assert_eq!(highlight_code(code, "rust").ok().unwrap(), a);
    let j = highlight_code(code, "JS").ok().unwrap();
    assert_eq!(highlight_code(code, "javascript").ok().unwrap(), j);
}

#[test]
fn parser_strips_exactly_one_space() {
    let text = "//! @title T\n//! @description D\n//! @html_start\n//!   two\n//!x\n//! @html_end\n";
    let e = extract_metadata(text, "x.rs").unwrap();
    assert_eq!(e.html, "  two\nx");
}

#[test]
fn parser_last_directive_wins_and_trims() {
    let text = "//! @title  First \n//! @title   Second  \n//! @description D\n";
    let e = extract_metadata(text, "a/b/c_d.rs").unwrap();
    assert_eq!(e.title, "Second");
    assert_eq!(e.html, "");
    assert_eq!(e.id, "c-d");
}

#[test]
fn parser_concatenates_blocks_and_keeps_unclosed_block() {
    let text = "//! @title T\n//! @description D\n//! @html_start\n//! one\n//! @html_end\n//! ignored\n//! @html_start\n//! two\n";
    let e = extract_metadata(text, "x.rs").unwrap();
    assert_eq!(e.html, "one\ntwo");
}

#[test]
fn file_without_title_is_not_an_example() {
    let text = "//! @description only\n//! @html_start\n//! <p>\n//! @html_end\n";
    assert!(extract_metadata(text, "src/examples/x.rs").is_none());
    let text = "//! @title only\n";
    assert!(extract_metadata(text, "src/examples/x.rs").is_none());
    assert!(extract_metadata("", "src/examples/x.rs").is_none());
}

#[test]
fn id_maps_underscores_to_hyphens() {
    assert_eq!(example_id("src/examples/form_demo.rs"), "form-demo");
    assert_eq!(example_id("src/examples/a__b_c.rs"), "a--b-c");
    assert_eq!(example_id("src/examples/plain.rs"), "plain");
    assert_eq!(example_id("src/examples/form_demo.rs"), example_id("src/examples/form_demo.rs"));
    assert_eq!(example_id(".hidden"), ".hidden");
    assert_eq!(example_id("dir/archive.tar.gz"), "archive.tar");
}

#[test]
fn candidates_are_sources_other_than_the_index() {
    assert!(is_example_source("src/examples/form_demo.rs"));
    assert!(!is_example_source("src/examples/mod.rs"));
    assert!(!is_example_source("src/examples/notes.txt"));
    assert!(!is_example_source("src/examples/.rs"));
    assert!(is_example_source("src/examples/xmod.rs"));
}

#[test]
fn end_to_end_two_files_give_one_record() {
    let files = vec![
        source("src/examples/untitled.rs", "//! @description desc B\n//! @html_start\n//! <p>\n//! @html_end\n"),
        source("src/examples/form_demo.rs", FORM_DEMO),
    ];
    let built = build_dataset(files).expect("no duplicate ids");
    assert_eq!(built.len(), 1);
    assert_eq!(built[0].id, "form-demo");
    assert_eq!(built[0].title, "Form Demo");
    assert_eq!(built[0].description, "desc A");
}

#[test]
fn build_sorts_by_path_and_skips_the_index() {
    let files = vec![
        source("src/examples/zeta.rs", "//! @title Z\n//! @description z\n"),
        source("src/examples/mod.rs", "//! @title M\n//! @description m\n"),
        source("src/examples/alpha.rs", "//! @title A\n//! @description a\n"),
        source("src/examples/readme.md", "//! @title R\n//! @description r\n"),
    ];
    let built = build_dataset(files).unwrap();
    let ids: Vec<&str> = built.iter().map(|e| e.id.as_str()).collect();
    assert_eq!(ids, vec!["alpha", "zeta"]);
}

#[test]
fn duplicate_ids_fail_the_build() {
    let files = vec![
        source("src/examples/a_b.rs", "//! @title One\n//! @description d\n"),
        source("other/a-b.rs", "//! @title Two\n//! @description d\n"),
    ];
    match collect_examples(&files) {
        Err(BuildError::DuplicateId(id)) => assert_eq!(id, "a-b"),
        Ok(_) => panic!("duplicate ids were accepted"),
    }
    assert!(build_dataset(files).is_err());
}

#[test]
fn dataset_text_has_block_scalar_form() {
    let v = vec![record("form-demo", "Form Demo", "desc A", "<a>\n  <b/>")];
    let text = render_dataset(&v);
    assert_eq!(
        text,
        "examples:\n  - id: \"form-demo\"\n    title: \"Form Demo\"\n    description: \"desc A\"\n    html: |\n      <a>\n        <b/>\n    backend_file: \"src/examples/form_demo.rs\"\n"
    );
}

#[test]
fn dataset_round_trip_keeps_records() {
    let mut v = catalog();
    v.push(record("blank-lines", "Blank \"quoted\"", "d", "a\n\nb\n"));
    v.push(record("empty-html", "E", "e", ""));
    let mut odd = record("odd\\id", "back\\slash \\\"", "two\nlines", "  x\r\n\"y\"");
    odd.backend_file = "dir\nwith newline/a.rs".to_string();
    v.push(odd);
    let text = render_dataset(&v);
    let back = parse_dataset(&text).expect("well formed");
    assert_eq!(back.len(), v.len());
    for (a, b) in back.iter().zip(v.iter()) {
        assert_eq!(a.id, b.id);
        assert_eq!(a.title, b.title);
        assert_eq!(a.description, b.description);
        assert_eq!(a.html, b.html);
        assert_eq!(a.backend_file, b.backend_file);
        assert_eq!(a.highlighted_html, a.html);
    }
    assert_eq!(parse_dataset(&render_dataset(&Vec::new())).unwrap().len(), 0);
}

#[test]
fn dataset_escapes_quoted_values() {
    let mut v = vec![record("a", "say \"hi\"", "x\\y\nz", "<p>")];
    v[0].backend_file = "p.rs".to_string();
    let text = render_dataset(&v);
    assert!(text.contains("    title: \"say \\\"hi\\\"\"\n"));
    assert!(text.contains("    description: \"x\\\\y\\nz\"\n"));
    assert!(parse_dataset("examples:\n  - id: \"a\\q\"\n    title: \"t\"\n    description: \"d\"\n    html: |\n    backend_file: \"f\"\n").is_none());
}

#[test]
fn malformed_dataset_is_rejected() {
    assert!(parse_dataset("").is_none());
    assert!(parse_dataset("examples:").is_none());
    assert!(parse_dataset("items:\n").is_none());
    assert!(parse_dataset("examples:\n  - id: \"x\"\n").is_none());
    assert_eq!(parse_dataset("examples:\n").unwrap().len(), 0);
}

#[test]
fn empty_query_returns_whole_catalog_in_order() {
    let c = catalog();
    let r = filter_examples(&c, "");
    let ids: Vec<&str> = r.iter().map(|e| e.id.as_str()).collect();
    assert_eq!(ids, vec!["active-search", "form-demo", "theme-switcher", "hypermedia-demo"]);
}

#[test]
fn query_matches_title_description_or_id_case_insensitively() {
    let c = catalog();
    let r = filter_examples(&c, "theme");
    let ids: Vec<&str> = r.iter().map(|e| e.id.as_str()).collect();
    assert_eq!(ids, vec!["theme-switcher"]);
    let r = filter_examples(&c, "demo");
    let ids: Vec<&str> = r.iter().map(|e| e.id.as_str()).collect();
    assert_eq!(ids, vec!["form-demo", "hypermedia-demo"]);
    let r = filter_examples(&c, "as you type");
    assert_eq!(r.len(), 1);
    assert!(filter_examples(&c, "nothing like this").is_empty());
}

#[test]
fn search_reads_payload_then_parameter() {
    let req = SearchRequestExtractor {
        datastar: Some("{\"search\":\"THEME\"}".to_string()),
        search: Some("form".to_string()),
    };
    assert_eq!(req.get_search_text(), "THEME");
    let req = SearchRequestExtractor { datastar: Some("not json".to_string()), search: Some("form".to_string()) };
    assert_eq!(req.get_search_text(), "form");
    let req = SearchRequestExtractor { datastar: None, search: None };
    assert_eq!(req.get_search_text(), "");
}

#[test]
fn search_endpoint_filters_and_highlights() {
    let c = catalog();
    let req = SearchRequestExtractor { datastar: Some("{\"search\":\"Theme\"}".to_string()), search: None };
    let t = search(true, &c, &req).unwrap_or_else(|_| panic!("served"));
    assert_eq!(t.examples.len(), 1);
    assert_eq!(t.examples[0].id, "theme-switcher");
    assert_eq!(t.examples[0].html, "<div></div>");
    assert_ne!(t.examples[0].highlighted_html, "<div></div>");
    let all = search(true, &c, &SearchRequestExtractor { datastar: None, search: None }).unwrap_or_else(|_| panic!("served"));
    assert_eq!(all.examples.len(), 4);
    assert_eq!(wrap_example_cards("<p>x</p>"), "<div id=\"example-cards\"><p>x</p></div>");
}

#[test]
fn highlighting_unknown_language_or_empty_text_passes_through() {
    assert_eq!(highlight_or_plain("", "klingon"), "");
    assert_eq!(highlight_or_plain("plain words", "klingon"), "plain words");
    assert_eq!(highlight_or_plain("a<b & \"c\"/'d'>", "klingon"), "a&lt;b &amp; &quot;c&quot;&#x2f;&#x27;d&#x27;&gt;");
    assert_eq!(highlight_code("x < y", "").unwrap_or_else(|_| panic!("plain text never fails")), "x &lt; y");
    assert_eq!(highlight_or_plain("", "rust"), "");
    assert!(highlight_code("anything", "nope").is_ok());
}

#[test]
fn highlighting_known_language_marks_up_code() {
    let h = highlight_code("fn main() { let x = 1; }", "RUST").unwrap_or_else(|_| panic!("highlighted"));
    assert!(h.contains("<span"));
    assert_eq!(language_for_tag("JS"), CodeLanguage::Javascript);
    assert_eq!(language_for_tag("rs"), CodeLanguage::Rust);
    assert_eq!(language_for_tag("Html"), CodeLanguage::Html);
    assert_eq!(language_for_tag("markup"), CodeLanguage::Plaintext);
}

fn is_not_found(r: &AppError) -> bool {
    matches!(r, AppError::NotFound(m) if m == FRAGMENTS_ONLY) && r.status_and_message().0 == 404
}

#[test]
fn fragment_endpoints_refuse_requests_without_marker() {
    let c = catalog();
    let req = SearchRequestExtractor { datastar: None, search: Some("form".to_string()) };
    assert!(is_not_found(&search(false, &c, &req).err().unwrap()));
    let form = SubmitRequest { name: "n".to_string(), value: "v".to_string() };
    assert!(is_not_found(&submit_form(false, &form).err().unwrap()));
    let empty = SubmitRequest { name: String::new(), value: String::new() };
    assert!(is_not_found(&submit_form(false, &empty).err().unwrap()));
    assert!(is_not_found(&get_items(false, 0).err().unwrap()));
    assert!(is_not_found(&switch_theme(false, "dark").err().unwrap()));
    assert!(is_not_found(&get_example_code(false, &c, "form-demo", Ok(FORM_DEMO.to_string()), Err(String::new())).err().unwrap()));
}

#[test]
fn theme_switch_sets_cookie_and_style() {
    let r = switch_theme(true, "dark").unwrap_or_else(|_| panic!("served"));
    assert_eq!(r.set_cookie, "theme=dark; Path=/; Max-Age=31536000; SameSite=Lax");
    assert_eq!(
        r.html,
        format!("<style id=\"theme\">\n        :root {{\n            {}\n        }}\n    </style>", DARK_THEME_CSS)
    );
    assert!(r.html.contains("color-scheme: dark;"));
}

#[test]
fn theme_switch_with_unknown_name_falls_back_but_echoes_cookie() {
    let r = switch_theme(true, "bogus").unwrap_or_else(|_| panic!("served"));
    assert_eq!(r.set_cookie, "theme=bogus; Path=/; Max-Age=31536000; SameSite=Lax");
    assert!(r.html.contains(LIGHT_THEME_CSS));
    assert!(r.html.contains("color-scheme: light;"));
}

#[test]
fn theme_names_are_case_insensitive() {
    assert_eq!(Theme::from_str("DARK"), Some(Theme::Dark));
    assert_eq!(Theme::from_str("Grape"), Some(Theme::Grape));
    assert_eq!(Theme::from_str("dim"), Some(Theme::Dim));
    assert_eq!(Theme::from_str("sepia"), None);
    assert_eq!(Theme::default(), Theme::Light);
    assert_eq!(Theme::resolve("sepia"), Theme::Light);
}

#[test]
fn theme_tables_are_trimmed_blocks() {
    let css = get_theme_variables(&Theme::Grape);
    assert!(css.starts_with("/* Grape theme"));
    assert!(css.ends_with("--shadow-strength: 60%;"));
    assert_eq!(get_syntax_highlighting_variables(&Theme::Dark), DARK_SYNTAX_CSS);
    assert!(DARK_SYNTAX_CSS.contains("--token-keyword: var(--pink-3);"));
}

#[test]
fn cookie_selects_theme_or_default() {
    assert_eq!(extract_theme_from_cookie(Some("a=b; theme=dim")), Theme::Dim);
    assert_eq!(extract_theme_from_cookie(Some("theme=GRAPE")), Theme::Grape);
    assert_eq!(extract_theme_from_cookie(Some("theme=bogus; theme=dark")), Theme::Light);
    assert_eq!(extract_theme_from_cookie(Some("theme=a=b; theme=dark")), Theme::Dark);
    assert_eq!(extract_theme_from_cookie(Some("")), Theme::Light);
    assert_eq!(extract_theme_from_cookie(None), Theme::Light);
}

#[test]
fn pages_carry_theme_and_catalog() {
    let s = settings();
    let page = index(&s, Some("theme=dark"));
    assert_eq!(page.title, "Gallery");
    assert_eq!(page.environment, "local");
    assert_eq!(page.theme_css, DARK_THEME_CSS);
    assert_eq!(page.syntax_css, DARK_SYNTAX_CSS);
    let c = catalog();
    let gallery = examples(&s, None, &c);
    assert_eq!(gallery.theme_css, LIGHT_THEME_CSS);
    assert_eq!(gallery.examples.len(), 4);
    assert_eq!(gallery.examples[1].id, "form-demo");
}

#[test]
fn form_submit_requires_a_name() {
    let empty = SubmitRequest { name: String::new(), value: "v".to_string() };
    match submit_form(true, &empty) {
        Err(AppError::BadRequest(m)) => assert_eq!(m, "Name cannot be empty"),
        _ => panic!("empty name accepted"),
    }
    let form = SubmitRequest { name: "widget".to_string(), value: "7".to_string() };
    let t = submit_form(true, &form).unwrap_or_else(|_| panic!("served"));
    assert_eq!(t.message, "Successfully processed: widget");
}

#[test]
fn items_fragment_has_three_items() {
    let t = get_items(true, 1_700_000_000).unwrap_or_else(|_| panic!("served"));
    assert_eq!(t.message, "Hello from Rust Web Starter!");
    assert_eq!(t.items, vec!["Item 1", "Item 2", "Item 3"]);
    assert_eq!(t.timestamp_secs, 1_700_000_000);
}

#[test]
fn code_fragment_strips_metadata() {
    assert_eq!(strip_metadata_header(FORM_DEMO), "use crate::x;");
    assert_eq!(strip_metadata_header("//! @title T\r\n\r\nfn a() {}\r\nfn b() {}\r\n"), "fn a() {}\nfn b() {}");
    assert_eq!(strip_metadata_header("fn a() {}"), "fn a() {}");
    let (p, a) = default_source_paths("form-demo");
    assert_eq!(p, "src/examples/form_demo.rs");
    assert_eq!(a, "web-app/src/examples/form_demo.rs");
    let mut c = catalog();
    c[2].backend_file = "src/examples/themes.rs".to_string();
    let (p, a) = example_source_paths(&c, "theme-switcher");
    assert_eq!(p, "src/examples/themes.rs");
    assert_eq!(a, "web-app/src/examples/themes.rs");
    let (p, _) = example_source_paths(&c, "not-listed");
    assert_eq!(p, "src/examples/not_listed.rs");
    let t = get_example_code(true, &c, "form-demo", Err("gone".to_string()), Ok(FORM_DEMO.to_string()))
        .unwrap_or_else(|_| panic!("served"));
    assert_eq!(t.example_id, "form-demo");
    assert!(t.code.contains("crate"));
}

#[test]
fn missing_source_gives_placeholder() {
    let t = get_example_code(true, &catalog(), "no-such", Err("not found".to_string()), Err("also".to_string()))
        .unwrap_or_else(|_| panic!("served"));
    assert!(t.code.contains("Example code not found"));
    assert!(t.code.contains("no_such.rs"));
    assert!(t.code.contains("web-app"));
    assert!(t.code.contains("not found"));
}

#[test]
fn errors_map_to_statuses_without_leaking_detail() {
    let (s, m) = AppError::bad_request("bad").status_and_message();
    assert_eq!((s, m.as_str()), (400, "bad"));
    let (s, m) = AppError::not_found("gone").status_and_message();
    assert_eq!((s, m.as_str()), (404, "gone"));
    let (s, m) = AppError::internal("secret detail").status_and_message();
    assert_eq!((s, m.as_str()), (500, "Internal server error"));
}
