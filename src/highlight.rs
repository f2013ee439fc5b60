//! Syntax highlighting of code blocks into HTML with semantic span classes.
use vstd::prelude::*;
use crate::error::AppError;
use crate::text::{lower_of, lowercase};

verus! {

/// The languages that the highlighter is asked for.
#[derive(Debug, Clone, Copy, PartialEq, Eq, Structural)]
pub enum CodeLanguage {
    Rust,
    Javascript,
    Html,
    Plaintext,
}

/// Whether a lower-case tag names a language with highlighting.
pub open spec fn is_known_tag(tag: Seq<char>) -> bool {
    tag == "rust"@ || tag == "rs"@ || tag == "javascript"@ || tag == "js"@ || tag == "html"@
}

/// The language of a lower-case tag; anything unknown is plain text.
pub open spec fn language_named(tag: Seq<char>) -> CodeLanguage {
    if tag == "rust"@ || tag == "rs"@ {
        CodeLanguage::Rust
    } else if tag == "javascript"@ || tag == "js"@ {
        CodeLanguage::Javascript
    } else if tag == "html"@ {
        CodeLanguage::Html
    } else {
        CodeLanguage::Plaintext
    }
}

/// The language that a lower-case tag names.
pub fn language_of_lowercase(tag: &str) -> (r: CodeLanguage)
    ensures
        r == language_named(tag@),
{
    let t = String::from_str(tag);
    if t == String::from_str("rust") || t == String::from_str("rs") {
        CodeLanguage::Rust
    } else if t == String::from_str("javascript") || t == String::from_str("js") {
        CodeLanguage::Javascript
    } else if t == String::from_str("html") {
        CodeLanguage::Html
    } else {
        CodeLanguage::Plaintext
    }
}

/// The language that a tag names, in any letter case.
pub fn language_for_tag(tag: &str) -> (r: CodeLanguage)
    ensures
        r == language_named(lower_of(tag@)),
{
    language_of_lowercase(lowercase(tag).as_str())
}

/// What inkjet's HTML formatter makes of `code` in `lang`.
pub uninterp spec fn highlighted(lang: CodeLanguage, code: Seq<char>) -> Seq<char>;

/// Whether inkjet highlights `code` in `lang` without an error.
pub uninterp spec fn highlight_ok(lang: CodeLanguage, code: Seq<char>) -> bool;

/// The HTML escape of one character, as v_htmlescape writes it.
pub open spec fn escaped_char(c: char) -> Seq<char> {
    if c == '"' {
        "&quot;"@
    } else if c == '&' {
        "&amp;"@
    } else if c == '\'' {
        "&#x27;"@
    } else if c == '/' {
        "&#x2f;"@
    } else if c == '<' {
        "&lt;"@
    } else if c == '>' {
        "&gt;"@
    } else {
        seq![c]
    }
}

/// The HTML escape of a text, character by character.
pub open spec fn html_escaped(s: Seq<char>) -> Seq<char>
    decreases s.len(),
{
    if s.len() == 0 {
        Seq::empty()
    } else {
        html_escaped(s.drop_last()) + escaped_char(s.last())
    }
}

/// Relies on inkjet's `Highlighter::highlight_to_string` with the class-based
/// `formatter::Html`: whether it succeeds and what it gives depend on the
/// language and the code alone (no cancellation flag is set). Plain text has
/// empty highlight queries, so tree-sitter-highlight yields only source
/// spans, which the formatter writes escaped by `v_htmlescape::escape`.
#[verifier::external_body]
fn render_highlighted(lang: CodeLanguage, code: &str) -> (r: Option<String>)
    ensures
        r is Some <==> highlight_ok(lang, code@),
        r matches Some(h) ==> h@ == highlighted(lang, code@),
        r is Some || lang != CodeLanguage::Plaintext,
        r matches Some(h) ==> (lang == CodeLanguage::Plaintext ==> h@ == html_escaped(code@)),
{
    let lang = match lang {
        CodeLanguage::Rust => inkjet::Language::Rust,
        CodeLanguage::Javascript => inkjet::Language::Javascript,
        CodeLanguage::Html => inkjet::Language::Html,
        CodeLanguage::Plaintext => inkjet::Language::Plaintext,
    };
    inkjet::Highlighter::new().highlight_to_string(lang, &inkjet::formatter::Html, code).ok()
}

/// What highlighting `code` in `lang` shows: the highlighted markup where
/// inkjet succeeds, the code itself where it fails.
pub open spec fn shown_highlighted(lang: CodeLanguage, code: Seq<char>) -> Seq<char> {
    if highlight_ok(lang, code) {
        highlighted(lang, code)
    } else {
        code
    }
}

/// Highlights `code` in the language that `language` names; an unknown
/// name means plain text, which is only escaped and never fails.
pub fn highlight_code(code: &str, language: &str) -> (r: Result<String, AppError>)
    ensures
        r is Ok <==> highlight_ok(language_named(lower_of(language@)), code@),
        r matches Ok(h) ==> h@ == highlighted(language_named(lower_of(language@)), code@),
        r matches Err(e) ==> e is InternalServerError,
        !is_known_tag(lower_of(language@)) ==> (r matches Ok(h) && h@ == html_escaped(code@)),
{
    let lang = language_for_tag(language);
    match render_highlighted(lang, code) {
        Some(h) => Ok(h),
        None => Err(AppError::internal("highlighting failed")),
    }
}

/// Highlights `code` in `lang`, or hands it back unchanged where
/// highlighting fails.
pub fn highlight_as(code: &str, lang: CodeLanguage) -> (r: String)
    ensures
        r@ == shown_highlighted(lang, code@),
        lang == CodeLanguage::Plaintext ==> r@ == html_escaped(code@),
{
    match render_highlighted(lang, code) {
        Some(h) => h,
        None => String::from_str(code),
    }
}

/// Highlights `code`, or hands it back unchanged where highlighting fails:
/// never an error. Text in an unknown language comes back only escaped.
pub fn highlight_or_plain(code: &str, language: &str) -> (r: String)
    ensures
        r@ == shown_highlighted(language_named(lower_of(language@)), code@),
        !is_known_tag(lower_of(language@)) ==> r@ == html_escaped(code@),
{
    highlight_as(code, language_for_tag(language))
}

/// Whether a character is one that HTML escaping rewrites.
pub open spec fn is_markup_char(c: char) -> bool {
    c == '"' || c == '&' || c == '\'' || c == '/' || c == '<' || c == '>'
}

/// Plain text passes through escaping unchanged when it holds no character
/// that HTML gives a meaning to; in particular the empty text stays empty.
/// With an unknown language tag, highlighting gives exactly this escape.
pub proof fn lemma_plain_text_passes_through(code: Seq<char>)
    requires
        forall|i: int| 0 <= i < code.len() ==> !is_markup_char(#[trigger] code[i]),
    ensures
        html_escaped(code) == code,
    decreases code.len(),
{
    if code.len() > 0 {
        let init = code.drop_last();
        assert forall|i: int| 0 <= i < init.len() implies !is_markup_char(#[trigger] init[i]) by {
            assert(init[i] == code[i]);
        }
        lemma_plain_text_passes_through(init);
        assert(!is_markup_char(code[code.len() - 1]));
        assert(init + seq![code.last()] =~= code);
    }
}

} // verus!
