//! The metadata parser: reads the documentation block at the top of an
//! example source and extracts its title, description and demo markup.
use vstd::prelude::*;
use vstd::string::*;
use crate::example::{ExampleData, ExampleView};
use crate::text::{
    chars_of, has_prefix, is_white_space, join_lines, join_with_newlines, range_has_prefix,
    lines_of, string_of, text_lines, trim_range, trimmed, unlines, views,
    without_cr,
};

verus! {

/// The directive that gives an example's title.
pub open spec fn title_marker() -> Seq<char> {
    "//! @title"@
}

/// The directive that gives an example's description.
pub open spec fn description_marker() -> Seq<char> {
    "//! @description"@
}

/// The directive that opens a markup block.
pub open spec fn html_start_marker() -> Seq<char> {
    "//! @html_start"@
}

/// The directive that closes a markup block.
pub open spec fn html_end_marker() -> Seq<char> {
    "//! @html_end"@
}

/// The prefix of every documentation line.
pub open spec fn comment_marker() -> Seq<char> {
    "//!"@
}

/// What the scan of a file has gathered so far.
pub struct ScanState {
    pub title: Seq<char>,
    pub description: Seq<char>,
    pub body: Seq<Seq<char>>,
    pub in_html: bool,
}

/// Nothing found yet, outside any markup block.
pub open spec fn initial_scan() -> ScanState {
    ScanState { title: Seq::empty(), description: Seq::empty(), body: Seq::empty(), in_html: false }
}

/// A comment line's text in the markup block: one leading space dropped.
pub open spec fn body_text(rest: Seq<char>) -> Seq<char> {
    if rest.len() > 0 && rest[0] == ' ' {
        rest.skip(1)
    } else {
        rest
    }
}

/// The effect of one line on the scan. A directive repeated later wins.
pub open spec fn scan_step(st: ScanState, line: Seq<char>) -> ScanState {
    if has_prefix(line, title_marker()) {
        ScanState { title: trimmed(line.skip(title_marker().len() as int)), ..st }
    } else if has_prefix(line, description_marker()) {
        ScanState { description: trimmed(line.skip(description_marker().len() as int)), ..st }
    } else if has_prefix(line, html_start_marker()) {
        ScanState { in_html: true, ..st }
    } else if has_prefix(line, html_end_marker()) {
        ScanState { in_html: false, ..st }
    } else if st.in_html && has_prefix(line, comment_marker()) {
        ScanState {
            body: st.body.push(body_text(line.skip(comment_marker().len() as int))),
            ..st
        }
    } else if st.in_html && line.len() == 0 {
        ScanState { body: st.body.push(Seq::empty()), ..st }
    } else {
        st
    }
}

/// The scan of a sequence of lines, in order.
pub open spec fn scan_lines(lines: Seq<Seq<char>>) -> ScanState
    decreases lines.len(),
{
    if lines.len() == 0 {
        initial_scan()
    } else {
        scan_step(scan_lines(lines.drop_last()), lines.last())
    }
}

/// Index where the last path component of `p[..i]` starts.
pub open spec fn name_start(p: Seq<char>, i: int) -> int
    decreases i,
{
    if i <= 0 {
        0
    } else if p[i - 1] == '/' {
        i
    } else {
        name_start(p, i - 1)
    }
}

/// The last component of a `/`-separated path.
pub open spec fn base_name(p: Seq<char>) -> Seq<char> {
    p.subrange(name_start(p, p.len() as int), p.len() as int)
}

/// Index of the last `.` in `n[..i]`, or -1.
pub open spec fn last_dot(n: Seq<char>, i: int) -> int
    decreases i,
{
    if i <= 0 {
        -1
    } else if n[i - 1] == '.' {
        i - 1
    } else {
        last_dot(n, i - 1)
    }
}

/// A file name without its extension; a name that starts with its only
/// `.` has none.
pub open spec fn stem_of(n: Seq<char>) -> Seq<char> {
    let d = last_dot(n, n.len() as int);
    if d > 0 {
        n.take(d)
    } else {
        n
    }
}

/// Each underscore replaced by a hyphen.
pub open spec fn hyphenated(s: Seq<char>) -> Seq<char> {
    s.map_values(|c: char| if c == '_' { '-' } else { c })
}

/// The catalog id of the example at `path`.
pub open spec fn id_of(path: Seq<char>) -> Seq<char> {
    hyphenated(stem_of(base_name(path)))
}

/// The record that a file yields, if it is an example.
pub open spec fn metadata_of(content: Seq<char>, path: Seq<char>) -> Option<ExampleView> {
    let st = scan_lines(text_lines(content));
    if st.title.len() == 0 || st.description.len() == 0 {
        None
    } else {
        Some(
            ExampleView {
                id: id_of(path),
                title: st.title,
                description: st.description,
                html: join_lines(st.body),
                backend_file: path,
            },
        )
    }
}

proof fn lemma_last_dot_bounds(n: Seq<char>, i: int)
    requires
        0 <= i <= n.len(),
    ensures
        -1 <= last_dot(n, i) < i,
    decreases i,
{
    if i > 0 && n[i - 1] != '.' {
        lemma_last_dot_bounds(n, i - 1);
    }
}

/// The last component of a `/`-separated path.
pub fn file_name_of(path: &str) -> (r: String)
    ensures
        r@ == base_name(path@),
{
    let p = chars_of(path);
    let mut i: usize = p.len();
    while i > 0 && p[i - 1] != '/'
        invariant
            i <= p.len(),
            p@ == path@,
            name_start(p@, p.len() as int) == name_start(p@, i as int),
        decreases i,
    {
        i -= 1;
    }
    string_of(&p, i, p.len())
}

/// The catalog id for the example at `path`: the file's stem with every
/// underscore turned into a hyphen.
pub fn example_id(path: &str) -> (r: String)
    ensures
        r@ == id_of(path@),
{
    let n = chars_of(file_name_of(path).as_str());
    let mut d: usize = n.len();
    while d > 0 && n[d - 1] != '.'
        invariant
            d <= n.len(),
            last_dot(n@, n.len() as int) == last_dot(n@, d as int),
        decreases d,
    {
        d -= 1;
    }
    let end: usize = if d > 1 {
        d - 1
    } else {
        n.len()
    };
    proof {
        lemma_last_dot_bounds(n@, n.len() as int);
        assert(stem_of(n@) =~= n@.take(end as int));
    }
    let mut r = String::new();
    let mut i: usize = 0;
    while i < end
        invariant
            end <= n.len(),
            i <= end,
            r@ == hyphenated(n@.take(i as int)),
        decreases end - i,
    {
        let c = if n[i] == '_' {
            '-'
        } else {
            n[i]
        };
        crate::text::push_char(&mut r, c);
        assert(r@ =~= hyphenated(n@.take(i + 1)));
        i += 1;
    }
    assert(n@.take(end as int).take(end as int) =~= n@.take(end as int));
    r
}

/// The scan in progress, held in executable form.
pub struct MetadataScanner {
    pub title: String,
    pub description: String,
    pub body: Vec<String>,
    pub in_html: bool,
}

impl View for MetadataScanner {
    type V = ScanState;

    open spec fn view(&self) -> ScanState {
        ScanState {
            title: self.title@,
            description: self.description@,
            body: views(self.body@),
            in_html: self.in_html,
        }
    }
}

impl MetadataScanner {
    pub fn new() -> (r: MetadataScanner)
        ensures
            r@ == initial_scan(),
    {
        let r = MetadataScanner {
            title: String::new(),
            description: String::new(),
            body: Vec::new(),
            in_html: false,
        };
        assert(views(r.body@) =~= Seq::<Seq<char>>::empty());
        r
    }

    /// Takes in the line `v[from..to]`.
    pub fn scan_line(&mut self, v: &Vec<char>, from: usize, to: usize)
        requires
            from <= to <= v.len(),
        ensures
            final(self)@ == scan_step(old(self)@, v@.subrange(from as int, to as int)),
    {
        let ghost line = v@.subrange(from as int, to as int);
        let title_m = chars_of("//! @title");
        let description_m = chars_of("//! @description");
        let start_m = chars_of("//! @html_start");
        let end_m = chars_of("//! @html_end");
        let comment_m = chars_of("//!");
        if range_has_prefix(v, from, to, &title_m) {
            assert(line.skip(title_m.len() as int) =~= v@.subrange(from + title_m.len(), to as int));
            self.title = trim_range(v, from + title_m.len(), to);
        } else if range_has_prefix(v, from, to, &description_m) {
            assert(line.skip(description_m.len() as int) =~= v@.subrange(
                from + description_m.len(),
                to as int,
            ));
            self.description = trim_range(v, from + description_m.len(), to);
        } else if range_has_prefix(v, from, to, &start_m) {
            self.in_html = true;
        } else if range_has_prefix(v, from, to, &end_m) {
            self.in_html = false;
        } else if self.in_html && range_has_prefix(v, from, to, &comment_m) {
            let mut s = from + comment_m.len();
            assert(line.skip(comment_m.len() as int) =~= v@.subrange(s as int, to as int));
            if s < to && v[s] == ' ' {
                assert(v@.subrange(s as int, to as int).skip(1) =~= v@.subrange(s + 1, to as int));
                s = s + 1;
            }
            let text = string_of(v, s, to);
            self.body.push(text);
            assert(views(self.body@) =~= views(old(self).body@).push(text@));
        } else if self.in_html && from == to {
            self.body.push(String::new());
            assert(views(self.body@) =~= views(old(self).body@).push(Seq::empty()));
        }
    }
}

/// Reads the documentation block of the file at `file_path` with text
/// `file_content`. Gives the record if both a title and a description were
/// found, and `None` otherwise: such a file is simply not an example.
pub fn extract_metadata(file_content: &str, file_path: &str) -> (r: Option<ExampleData>)
    ensures
        r is None <==> metadata_of(file_content@, file_path@) is None,
        r matches Some(e) ==> Some(e@) == metadata_of(file_content@, file_path@)
            && e.highlighted_html@ == e.html@,
{
    let lines = lines_of(file_content);
    let mut scanner = MetadataScanner::new();
    let mut i: usize = 0;
    assert(views(lines@).take(0) =~= Seq::<Seq<char>>::empty());
    while i < lines.len()
        invariant
            i <= lines.len(),
            views(lines@) == text_lines(file_content@),
            scanner@ == scan_lines(views(lines@).take(i as int)),
        decreases lines.len() - i,
    {
        let v = chars_of(lines[i].as_str());
        scanner.scan_line(&v, 0, v.len());
        proof {
            assert(v@.subrange(0, v.len() as int) =~= v@);
            assert(views(lines@).take(i + 1).drop_last() =~= views(lines@).take(i as int));
            assert(views(lines@).take(i + 1).last() == lines@[i as int]@);
        }
        i += 1;
    }
    assert(views(lines@).take(lines.len() as int) =~= views(lines@));
    if scanner.title.as_str().is_empty() || scanner.description.as_str().is_empty() {
        return None;
    }
    let html = join_with_newlines(&scanner.body);
    let html_copy = html.clone();
    Some(
        ExampleData {
            id: example_id(file_path),
            title: scanner.title,
            description: scanner.description,
            html,
            backend_file: String::from_str(file_path),
            highlighted_html: html_copy,
        },
    )
}

/// A scan never finds a title where no line carries the title directive.
proof fn lemma_scan_without_title(lines: Seq<Seq<char>>)
    requires
        forall|i: int| 0 <= i < lines.len() ==> !has_prefix(#[trigger] lines[i], title_marker()),
    ensures
        scan_lines(lines).title.len() == 0,
    decreases lines.len(),
{
    if lines.len() > 0 {
        let init = lines.drop_last();
        assert forall|i: int| 0 <= i < init.len() implies !has_prefix(#[trigger] init[i], title_marker()) by {
            assert(init[i] == lines[i]);
        }
        lemma_scan_without_title(init);
        assert(!has_prefix(lines[lines.len() - 1], title_marker()));
    }
}

/// A scan never finds a description where no line carries the description
/// directive.
proof fn lemma_scan_without_description(lines: Seq<Seq<char>>)
    requires
        forall|i: int| 0 <= i < lines.len() ==> !has_prefix(#[trigger] lines[i], description_marker()),
    ensures
        scan_lines(lines).description.len() == 0,
    decreases lines.len(),
{
    if lines.len() > 0 {
        let init = lines.drop_last();
        assert forall|i: int| 0 <= i < init.len() implies !has_prefix(#[trigger] init[i], description_marker()) by {
            assert(init[i] == lines[i]);
        }
        lemma_scan_without_description(init);
        assert(!has_prefix(lines[lines.len() - 1], description_marker()));
    }
}

/// A file without a title directive, or without a description directive,
/// is not an example: it yields no record, and no error.
pub proof fn lemma_file_without_metadata_is_skipped(content: Seq<char>, path: Seq<char>)
    requires
        (forall|i: int|
            0 <= i < text_lines(content).len() ==> !has_prefix(
                #[trigger] text_lines(content)[i],
                title_marker(),
            )) || (forall|i: int|
            0 <= i < text_lines(content).len() ==> !has_prefix(
                #[trigger] text_lines(content)[i],
                description_marker(),
            )),
    ensures
        metadata_of(content, path) is None,
{
    if forall|i: int|
        0 <= i < text_lines(content).len() ==> !has_prefix(
            #[trigger] text_lines(content)[i],
            title_marker(),
        ) {
        lemma_scan_without_title(text_lines(content));
    } else {
        lemma_scan_without_description(text_lines(content));
    }
}

/// The id of a file depends on its path alone, and maps the stem of its
/// name character for character, each underscore to a hyphen.
pub proof fn lemma_id_from_file_name(p: Seq<char>, q: Seq<char>)
    ensures
        p == q ==> id_of(p) == id_of(q),
        id_of(p).len() == stem_of(base_name(p)).len(),
        forall|i: int|
            0 <= i < id_of(p).len() ==> #[trigger] id_of(p)[i] == if stem_of(base_name(p))[i]
                == '_' {
                '-'
            } else {
                stem_of(base_name(p))[i]
            },
{
}

/// A documentation line: `//! ` followed by `text`.
pub open spec fn doc_line(text: Seq<char>) -> Seq<char> {
    "//! "@ + text
}

/// Whether a markup line would read as a directive once commented.
pub open spec fn is_directive_text(l: Seq<char>) -> bool {
    has_prefix(l, "@title"@) || has_prefix(l, "@description"@) || has_prefix(l, "@html_start"@)
        || has_prefix(l, "@html_end"@)
}

/// The lines of an example file whose documentation block gives a title, a
/// description and the markup lines `body`.
pub open spec fn example_file_lines(
    title: Seq<char>,
    description: Seq<char>,
    body: Seq<Seq<char>>,
) -> Seq<Seq<char>> {
    seq![
        doc_line("@title "@ + title),
        doc_line("@description "@ + description),
        doc_line("@html_start"@),
    ] + body.map_values(|l: Seq<char>| doc_line(l)) + seq![doc_line("@html_end"@)]
}

proof fn lemma_prefix_after_common(a: Seq<char>, l: Seq<char>, t: Seq<char>)
    ensures
        has_prefix(a + l, a + t) == has_prefix(l, t),
{
    if has_prefix(l, t) {
        assert((a + l).take((a + t).len() as int) =~= a + t);
    }
    if has_prefix(a + l, a + t) {
        assert forall|i: int| 0 <= i < t.len() implies l.take(t.len() as int)[i] == t[i] by {
            assert((a + l).take((a + t).len() as int)[a.len() + i] == (a + t)[a.len() + i]);
        }
        assert(l.take(t.len() as int) =~= t);
    }
}

proof fn lemma_markers()
    ensures
        title_marker() == doc_line("@title"@),
        description_marker() == doc_line("@description"@),
        html_start_marker() == doc_line("@html_start"@),
        html_end_marker() == doc_line("@html_end"@),
        comment_marker() == "//!"@,
        comment_marker().len() == 3,
        title_marker().len() == 10,
        description_marker().len() == 16,
        "@title "@ == "@title"@.push(' '),
        "@description "@ == "@description"@.push(' '),
        !has_prefix("@html_start"@, "@title"@),
        !has_prefix("@html_start"@, "@description"@),
        !has_prefix("@html_end"@, "@title"@),
        !has_prefix("@html_end"@, "@description"@),
        !has_prefix("@html_end"@, "@html_start"@),
        has_prefix("@html_start"@, "@html_start"@),
        has_prefix("@html_end"@, "@html_end"@),
        forall|x: Seq<char>| #![auto] !has_prefix("@description"@ + x, "@title"@),
        forall|x: Seq<char>| #![auto] has_prefix(doc_line(x), "//!"@),
        forall|x: Seq<char>| #![auto] doc_line(x).skip(3) == seq![' '] + x,
        forall|c: char| c == ' ' ==> is_white_space(c),
{
    reveal_strlit("//! @title");
    reveal_strlit("//! @description");
    reveal_strlit("//! @html_start");
    reveal_strlit("//! @html_end");
    reveal_strlit("//!");
    reveal_strlit("//! ");
    reveal_strlit("@title");
    reveal_strlit("@title ");
    reveal_strlit("@description");
    reveal_strlit("@description ");
    reveal_strlit("@html_start");
    reveal_strlit("@html_end");
    assert(title_marker() =~= doc_line("@title"@));
    assert(description_marker() =~= doc_line("@description"@));
    assert(html_start_marker() =~= doc_line("@html_start"@));
    assert(html_end_marker() =~= doc_line("@html_end"@));
    assert("@title "@ =~= "@title"@.push(' '));
    assert("@description "@ =~= "@description"@.push(' '));
    assert("@html_start"@.take(6)[1] != "@title"@[1]);
    assert("@html_end"@.take(6)[1] != "@title"@[1]);
    assert("@html_start"@.take(11) =~= "@html_start"@);
    assert("@html_end"@.take(9) =~= "@html_end"@);
    assert forall|x: Seq<char>| #![auto] !has_prefix("@description"@ + x, "@title"@) by {
        assert(("@description"@ + x).take(6)[1] != "@title"@[1]);
    }
    assert forall|x: Seq<char>| #![auto] has_prefix(doc_line(x), "//!"@) by {
        assert(doc_line(x).take(3) =~= "//!"@);
    }
    assert forall|x: Seq<char>| #![auto] doc_line(x).skip(3) == seq![' '] + x by {
        assert(doc_line(x).skip(3) =~= seq![' '] + x);
    }
}

proof fn lemma_trim_after_space(t: Seq<char>)
    ensures
        trimmed(seq![' '] + t) == trimmed(t),
{
    lemma_markers();
    assert((seq![' '] + t).skip(1) =~= t);
}

/// The scan of an example file's header and its first `n` markup lines.
proof fn lemma_scan_example_prefix(
    title: Seq<char>,
    description: Seq<char>,
    body: Seq<Seq<char>>,
    n: int,
)
    requires
        0 <= n <= body.len(),
        forall|i: int| 0 <= i < body.len() ==> !is_directive_text(#[trigger] body[i]),
    ensures
        scan_lines(example_file_lines(title, description, body).take(3 + n)) == (ScanState {
            title: trimmed(title),
            description: trimmed(description),
            body: body.take(n),
            in_html: true,
        }),
    decreases n,
{
    let ls = example_file_lines(title, description, body);
    lemma_markers();
    if n == 0 {
        let h0 = doc_line("@title "@ + title);
        let h1 = doc_line("@description "@ + description);
        let h2 = doc_line("@html_start"@);
        assert(ls.take(3) =~= seq![h0, h1, h2]);
        assert(seq![h0, h1, h2].drop_last() =~= seq![h0, h1]);
        assert(seq![h0, h1].drop_last() =~= seq![h0]);
        assert(seq![h0].drop_last() =~= Seq::<Seq<char>>::empty());
        // the title line
        assert("@title "@ + title =~= "@title"@ + (seq![' '] + title));
        assert(h0 =~= doc_line("@title"@) + (seq![' '] + title));
        assert(h0 =~= title_marker() + (seq![' '] + title));
        assert(has_prefix(h0, title_marker())) by {
            assert(h0.take(title_marker().len() as int) =~= title_marker());
        }
        assert(h0.skip(title_marker().len() as int) =~= seq![' '] + title);
        lemma_trim_after_space(title);
        // the description line
        assert("@description "@ + description =~= "@description"@ + (seq![' '] + description));
        assert(h1 =~= description_marker() + (seq![' '] + description));
        assert(!has_prefix(h1, title_marker())) by {
            assert(h1 =~= "//! "@ + ("@description"@ + (seq![' '] + description)));
            lemma_prefix_after_common("//! "@, "@description"@ + (seq![' '] + description), "@title"@);
        }
        assert(has_prefix(h1, description_marker())) by {
            assert(h1.take(description_marker().len() as int) =~= description_marker());
        }
        assert(h1.skip(description_marker().len() as int) =~= seq![' '] + description);
        lemma_trim_after_space(description);
        // the block start
        lemma_prefix_after_common("//! "@, "@html_start"@, "@title"@);
        lemma_prefix_after_common("//! "@, "@html_start"@, "@description"@);
        lemma_prefix_after_common("//! "@, "@html_start"@, "@html_start"@);
        assert(body.take(0) =~= Seq::<Seq<char>>::empty());
        let s0 = scan_step(initial_scan(), h0);
        assert(s0.title == trimmed(title));
        assert(!s0.in_html && s0.body.len() == 0);
        assert(scan_lines(Seq::<Seq<char>>::empty()) == initial_scan());
        assert(seq![h0].last() == h0);
        assert(scan_lines(seq![h0]) == s0);
        let s1 = scan_step(s0, h1);
        assert(s1.description == trimmed(description));
        assert(s1.title == trimmed(title));
        assert(seq![h0, h1].last() == h1);
        assert(scan_lines(seq![h0, h1]) == s1);
        let s2 = scan_step(s1, h2);
        assert(s2.in_html);
        assert(s2.body =~= body.take(0));
        assert(seq![h0, h1, h2].last() == h2);
        assert(scan_lines(seq![h0, h1, h2]) == s2);
    } else {
        lemma_scan_example_prefix(title, description, body, n - 1);
        let l = body[n - 1];
        assert(ls.take(3 + n).drop_last() =~= ls.take(3 + n - 1));
        assert(ls.take(3 + n).last() == doc_line(l));
        assert(!is_directive_text(l));
        lemma_prefix_after_common("//! "@, l, "@title"@);
        lemma_prefix_after_common("//! "@, l, "@description"@);
        lemma_prefix_after_common("//! "@, l, "@html_start"@);
        lemma_prefix_after_common("//! "@, l, "@html_end"@);
        assert((seq![' '] + l).skip(1) =~= l);
        assert(body.take(n - 1).push(l) =~= body.take(n));
    }
}

/// The parser takes from an example file exactly the markup lines between
/// the block's start and end directives, in order, each with the one space
/// after the comment prefix removed; blank lines stay. Title and description
/// come back as written.
pub proof fn lemma_parser_extracts_block(
    title: Seq<char>,
    description: Seq<char>,
    body: Seq<Seq<char>>,
    path: Seq<char>,
)
    requires
        title.len() > 0,
        trimmed(title) == title,
        !title.contains('\n'),
        description.len() > 0,
        trimmed(description) == description,
        !description.contains('\n'),
        forall|i: int| 0 <= i < body.len() ==> !(#[trigger] body[i]).contains('\n'),
        forall|i: int| 0 <= i < body.len() ==> without_cr(#[trigger] body[i]) == body[i],
        forall|i: int| 0 <= i < body.len() ==> !is_directive_text(#[trigger] body[i]),
    ensures
        metadata_of(unlines(example_file_lines(title, description, body)), path) == Some(
            ExampleView {
                id: id_of(path),
                title,
                description,
                html: join_lines(body),
                backend_file: path,
            },
        ),
{
    let ls = example_file_lines(title, description, body);
    lemma_markers();
    reveal_strlit("//! ");
    reveal_strlit("@title ");
    reveal_strlit("@description ");
    reveal_strlit("@html_start");
    reveal_strlit("@html_end");
    assert forall|i: int| 0 <= i < ls.len() implies !(#[trigger] ls[i]).contains('\n') by {
        if i == 0 {
            assert(ls[0] =~= "//! "@ + ("@title "@ + title));
            assert forall|j: int| 0 <= j < ls[0].len() implies ls[0][j] != '\n' by {
                if j >= 11 {
                    assert(ls[0][j] == title[j - 11]);
                }
            }
        } else if i == 1 {
            assert(ls[1] =~= "//! "@ + ("@description "@ + description));
            assert forall|j: int| 0 <= j < ls[1].len() implies ls[1][j] != '\n' by {
                if j >= 17 {
                    assert(ls[1][j] == description[j - 17]);
                }
            }
        } else if i == 2 {
            assert(ls[2] =~= "//! "@ + "@html_start"@);
        } else if i < 3 + body.len() {
            assert(ls[i] == doc_line(body[i - 3]));
            assert forall|j: int| 0 <= j < ls[i].len() implies ls[i][j] != '\n' by {
                if j >= 4 {
                    assert(ls[i][j] == body[i - 3][j - 4]);
                }
            }
        } else {
            assert(ls[i] == doc_line("@html_end"@));
        }
    }
    crate::text::lemma_trim_back_last(crate::text::trim_front(title));
    crate::text::lemma_trim_back_last(crate::text::trim_front(description));
    assert forall|i: int| 0 <= i < ls.len() implies without_cr(#[trigger] ls[i]) == ls[i] by {
        if i == 0 {
            assert(ls[0] =~= "//! "@ + ("@title "@ + title));
            assert(ls[0].last() == title.last());
        } else if i == 1 {
            assert(ls[1] =~= "//! "@ + ("@description "@ + description));
            assert(ls[1].last() == description.last());
        } else if i == 2 {
            assert(ls[2] =~= "//! "@ + "@html_start"@);
        } else if i < 3 + body.len() {
            let l = body[i - 3];
            assert(ls[i] == doc_line(l));
            if l.len() > 0 {
                assert(ls[i].last() == l.last());
            }
        } else {
            assert(ls[i] == doc_line("@html_end"@));
        }
    }
    crate::text::lemma_text_lines_unlines(ls);
    lemma_scan_example_prefix(title, description, body, body.len() as int);
    assert(body.take(body.len() as int) =~= body);
    assert(ls.drop_last() =~= ls.take(3 + body.len() as int));
    let end = doc_line("@html_end"@);
    assert(ls.last() == end);
    lemma_prefix_after_common("//! "@, "@html_end"@, "@title"@);
    lemma_prefix_after_common("//! "@, "@html_end"@, "@description"@);
    lemma_prefix_after_common("//! "@, "@html_end"@, "@html_start"@);
    lemma_prefix_after_common("//! "@, "@html_end"@, "@html_end"@);
}

/// A line that gives the title.
pub open spec fn is_title_line(l: Seq<char>) -> bool {
    has_prefix(l, title_marker())
}

/// A line that gives the description.
pub open spec fn is_description_line(l: Seq<char>) -> bool {
    !is_title_line(l) && has_prefix(l, description_marker())
}

/// A line that opens a markup block.
pub open spec fn is_start_line(l: Seq<char>) -> bool {
    !is_title_line(l) && !has_prefix(l, description_marker()) && has_prefix(l, html_start_marker())
}

/// A line that closes a markup block.
pub open spec fn is_end_line(l: Seq<char>) -> bool {
    !is_title_line(l) && !has_prefix(l, description_marker()) && !has_prefix(
        l,
        html_start_marker(),
    ) && has_prefix(l, html_end_marker())
}

/// A line that, inside a block, is markup: a documentation line that is no
/// directive, or a blank line.
pub open spec fn is_markup_text_line(l: Seq<char>) -> bool {
    !is_title_line(l) && !has_prefix(l, description_marker()) && !has_prefix(
        l,
        html_start_marker(),
    ) && !has_prefix(l, html_end_marker()) && (has_prefix(l, comment_marker()) || l.len() == 0)
}

/// The markup that a markup line holds.
pub open spec fn markup_text(l: Seq<char>) -> Seq<char> {
    if l.len() == 0 {
        Seq::empty()
    } else {
        body_text(l.skip(comment_marker().len() as int))
    }
}

/// Whether line `i` lies inside a markup block: a block start comes before
/// it, with no block end in between.
pub open spec fn inside_block(lines: Seq<Seq<char>>, i: int) -> bool {
    exists|j: int|
        0 <= j < i && is_start_line(#[trigger] lines[j]) && forall|k: int|
            j < k < i ==> !is_end_line(#[trigger] lines[k])
}

/// The markup lines of a file, in order: the markup lines inside its
/// blocks, each as its markup.
pub open spec fn markup_lines(lines: Seq<Seq<char>>) -> Seq<Seq<char>>
    decreases lines.len(),
{
    if lines.len() == 0 {
        Seq::empty()
    } else {
        let prev = markup_lines(lines.drop_last());
        let i = lines.len() - 1;
        if inside_block(lines, i) && is_markup_text_line(lines[i]) {
            prev.push(markup_text(lines[i]))
        } else {
            prev
        }
    }
}

proof fn lemma_inside_block_prefix(lines: Seq<Seq<char>>, i: int)
    requires
        0 <= i < lines.len(),
    ensures
        inside_block(lines, i) == inside_block(lines.drop_last(), i),
{
    let init = lines.drop_last();
    if inside_block(lines, i) {
        let j = choose|j: int|
            0 <= j < i && is_start_line(#[trigger] lines[j]) && forall|k: int|
                j < k < i ==> !is_end_line(#[trigger] lines[k]);
        assert(init[j] == lines[j]);
        assert forall|k: int| j < k < i implies !is_end_line(#[trigger] init[k]) by {
            assert(init[k] == lines[k]);
        }
    }
    if inside_block(init, i) {
        let j = choose|j: int|
            0 <= j < i && is_start_line(#[trigger] init[j]) && forall|k: int|
                j < k < i ==> !is_end_line(#[trigger] init[k]);
        assert(init[j] == lines[j]);
        assert forall|k: int| j < k < i implies !is_end_line(#[trigger] lines[k]) by {
            assert(init[k] == lines[k]);
        }
    }
}

proof fn lemma_inside_block_step(lines: Seq<Seq<char>>, n: int)
    requires
        0 <= n < lines.len(),
    ensures
        inside_block(lines, n + 1) == (is_start_line(lines[n]) || (inside_block(lines, n)
            && !is_end_line(lines[n]))),
{
    if inside_block(lines, n + 1) {
        let j = choose|j: int|
            0 <= j < n + 1 && is_start_line(#[trigger] lines[j]) && forall|k: int|
                j < k < n + 1 ==> !is_end_line(#[trigger] lines[k]);
        if j < n {
            assert(!is_end_line(lines[n]));
            assert forall|k: int| j < k < n implies !is_end_line(#[trigger] lines[k]) by {}
        }
    }
    if is_start_line(lines[n]) {
        assert(forall|k: int| n < k < n + 1 ==> !is_end_line(#[trigger] lines[k]));
    } else if inside_block(lines, n) && !is_end_line(lines[n]) {
        let j = choose|j: int|
            0 <= j < n && is_start_line(#[trigger] lines[j]) && forall|k: int|
                j < k < n ==> !is_end_line(#[trigger] lines[k]);
        assert forall|k: int| j < k < n + 1 implies !is_end_line(#[trigger] lines[k]) by {}
    }
}

/// The scan of any file is inside a block exactly after a block start with
/// no block end since, and collects exactly the markup lines inside the
/// blocks, in order, each without its comment prefix and one space.
pub proof fn lemma_scan_collects_markup_lines(lines: Seq<Seq<char>>)
    ensures
        scan_lines(lines).in_html == inside_block(lines, lines.len() as int),
        scan_lines(lines).body == markup_lines(lines),
    decreases lines.len(),
{
    if lines.len() == 0 {
    } else {
        let init = lines.drop_last();
        let n = lines.len() - 1;
        lemma_scan_collects_markup_lines(init);
        lemma_inside_block_prefix(lines, n);
        lemma_inside_block_step(lines, n);
        assert(lines[n] == lines.last());
        let st = scan_lines(init);
        let l = lines.last();
        assert(scan_lines(lines) == scan_step(st, l));
        if st.in_html && is_markup_text_line(l) {
            if l.len() == 0 {
                lemma_markers();
                assert(!has_prefix(l, comment_marker()));
            }
            assert(scan_step(st, l).body == st.body.push(markup_text(l)));
        } else {
            assert(scan_step(st, l).body == st.body);
        }
    }
}

/// Of any example file, the parser takes as markup exactly the markup lines
/// inside its blocks, in order, each with its comment prefix and one space
/// removed, joined by newlines; several blocks are joined in order.
pub proof fn lemma_parser_takes_markup_lines(content: Seq<char>, path: Seq<char>)
    ensures
        metadata_of(content, path) matches Some(e) ==> e.html == join_lines(
            markup_lines(text_lines(content)),
        ),
{
    lemma_scan_collects_markup_lines(text_lines(content));
}

} // verus!
