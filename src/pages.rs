//! The full pages: the theme comes from the request's cookie, once per
//! request, and its CSS is injected into the page shell.
use vstd::prelude::*;
use crate::example::{records_view, ExampleData};
use crate::fragments::{resolved_theme, shows_all, with_highlight};
use crate::settings::Settings;
use crate::templates::{ExamplesTemplate, IndexTemplate};
use crate::text::{split_on, split_text_on, trim_text, trimmed, views};
use crate::theme::{get_syntax_highlighting_variables, get_theme_variables, syntax_css, theme_css, Theme};

verus! {

/// The value of the first cookie that reads `theme=<value>`, with exactly
/// one `=`.
pub open spec fn cookie_theme_value(pieces: Seq<Seq<char>>) -> Option<Seq<char>>
    decreases pieces.len(),
{
    if pieces.len() == 0 {
        None
    } else {
        let parts = split_on(trimmed(pieces[0]), '=');
        if parts.len() == 2 && parts[0] == "theme"@ {
            Some(parts[1])
        } else {
            cookie_theme_value(pieces.skip(1))
        }
    }
}

/// The theme of a request with the given `Cookie` header: the one its theme
/// cookie names, else the default.
pub open spec fn theme_from_cookie(header: Option<Seq<char>>) -> Theme {
    match header {
        Some(h) => match cookie_theme_value(split_on(h, ';')) {
            Some(v) => resolved_theme(v),
            None => Theme::Light,
        },
        None => Theme::Light,
    }
}

/// The view of an optional header.
pub open spec fn opt_view(s: Option<&str>) -> Option<Seq<char>> {
    match s {
        Some(h) => Some(h@),
        None => None,
    }
}

/// The theme that the `Cookie` header of a request selects.
pub fn extract_theme_from_cookie(cookie_header: Option<&str>) -> (r: Theme)
    ensures
        r == theme_from_cookie(opt_view(cookie_header)),
{
    match cookie_header {
        None => Theme::default(),
        Some(h) => {
            let pieces = split_text_on(h, ';');
            let mut i: usize = 0;
            assert(views(pieces@).skip(0) =~= views(pieces@));
            while i < pieces.len()
                invariant
                    cookie_header == Some(h),
                    i <= pieces.len(),
                    views(pieces@) == split_on(h@, ';'),
                    cookie_theme_value(views(pieces@)) == cookie_theme_value(
                        views(pieces@).skip(i as int),
                    ),
                decreases pieces.len() - i,
            {
                let t = trim_text(pieces[i].as_str());
                let parts = split_text_on(t.as_str(), '=');
                assert(views(pieces@).skip(i as int)[0] == pieces@[i as int]@);
                assert(views(pieces@).skip(i as int).skip(1) =~= views(pieces@).skip(i + 1));
                if parts.len() == 2 && parts[0] == String::from_str("theme") {
                    assert(views(parts@)[0] == parts@[0]@);
                    assert(views(parts@)[1] == parts@[1]@);
                    assert(views(parts@) == split_on(trimmed(views(pieces@).skip(i as int)[0]), '='));
                    assert(cookie_theme_value(views(pieces@).skip(i as int)) == Some(parts@[1]@));
                    assert(cookie_theme_value(split_on(h@, ';')) == Some(parts@[1]@));
                    let res = Theme::resolve(parts[1].as_str());
                    return res;
                }
                proof {
                    if views(parts@).len() == 2 {
                        assert(views(parts@)[0] == parts@[0]@);
                    }
                }
                i += 1;
            }
            Theme::default()
        },
    }
}

/// The index page, in the theme of the request's cookie.
pub fn index(settings: &Settings, cookie_header: Option<&str>) -> (r: IndexTemplate)
    ensures
        r.title@ == settings.application.name@,
        r.environment@ == settings.application.environment@,
        r.theme_css@ == theme_css(theme_from_cookie(opt_view(cookie_header))),
        r.syntax_css@ == syntax_css(theme_from_cookie(opt_view(cookie_header))),
{
    let theme = extract_theme_from_cookie(cookie_header);
    IndexTemplate {
        title: settings.application.name.clone(),
        environment: settings.application.environment.clone(),
        theme_css: get_theme_variables(&theme),
        syntax_css: get_syntax_highlighting_variables(&theme),
    }
}

/// The gallery page: every record of the catalog, in order, with its
/// highlighted markup, in the theme of the request's cookie.
pub fn examples(settings: &Settings, cookie_header: Option<&str>, catalog: &Vec<ExampleData>) -> (r:
    ExamplesTemplate)
    ensures
        r.title@ == settings.application.name@,
        r.environment@ == settings.application.environment@,
        r.theme_css@ == theme_css(theme_from_cookie(opt_view(cookie_header))),
        r.syntax_css@ == syntax_css(theme_from_cookie(opt_view(cookie_header))),
        shows_all(r.examples@, records_view(catalog@)),
{
    let theme = extract_theme_from_cookie(cookie_header);
    ExamplesTemplate {
        title: settings.application.name.clone(),
        environment: settings.application.environment.clone(),
        theme_css: get_theme_variables(&theme),
        syntax_css: get_syntax_highlighting_variables(&theme),
        examples: with_highlight(catalog),
    }
}

} // verus!
