//! The stored form of the catalog: a document with a top-level `examples:`
//! sequence. Each entry holds the quoted fields `id`, `title`,
//! `description` and `backend_file`, in which a backslash, a double quote
//! and a newline are escaped with a backslash, and the markup as a block
//! whose lines are indented by six spaces.
use vstd::prelude::*;
use vstd::string::*;
use crate::example::{records_view, ExampleData, ExampleView};
use crate::text::{
    chars_of, join_lines, join_with_newlines, lemma_join_split, lemma_split_lines_no_newline,
    lemma_split_lines_nonempty, lemma_split_unlines, lemma_unlines_append, push_char, range_has_prefix, has_prefix,
    split_lines, split_text_lines, string_of, unlines, views,
};

verus! {

/// The first line: the top-level sequence field.
pub open spec fn header_line() -> Seq<char> {
    "examples:"@
}

/// The start of an entry, with its quoted id.
pub open spec fn id_key() -> Seq<char> {
    "  - id: \""@
}

/// The quoted title of an entry.
pub open spec fn title_key() -> Seq<char> {
    "    title: \""@
}

/// The quoted description of an entry.
pub open spec fn description_key() -> Seq<char> {
    "    description: \""@
}

/// The field that opens an entry's markup block.
pub open spec fn html_key() -> Seq<char> {
    "    html: |"@
}

/// The quoted source path of an entry.
pub open spec fn file_key() -> Seq<char> {
    "    backend_file: \""@
}

/// The indentation of a markup block's lines.
pub open spec fn block_indent() -> Seq<char> {
    "      "@
}

/// A key followed by its value and a closing double quote.
pub open spec fn quoted_line(key: Seq<char>, value: Seq<char>) -> Seq<char> {
    key + value.push('"')
}

/// How a character stands inside a quoted value: a backslash, a double
/// quote and a newline are escaped with a backslash.
pub open spec fn escaped_char(c: char) -> Seq<char> {
    if c == '\\' {
        seq!['\\', '\\']
    } else if c == '"' {
        seq!['\\', '"']
    } else if c == '\n' {
        seq!['\\', 'n']
    } else {
        seq![c]
    }
}

/// A value as it stands between the quotes.
pub open spec fn escaped(s: Seq<char>) -> Seq<char>
    decreases s.len(),
{
    if s.len() == 0 {
        Seq::empty()
    } else {
        escaped_char(s[0]) + escaped(s.skip(1))
    }
}

/// The value that quoted text stands for, if its escapes are well formed.
pub open spec fn unescaped(s: Seq<char>) -> Option<Seq<char>>
    decreases s.len(),
{
    if s.len() == 0 {
        Some(Seq::empty())
    } else if s[0] == '\\' {
        if s.len() < 2 {
            None
        } else {
            let c = if s[1] == 'n' {
                Some('\n')
            } else if s[1] == '\\' || s[1] == '"' {
                Some(s[1])
            } else {
                None
            };
            match (c, unescaped(s.skip(2))) {
                (Some(c), Some(t)) => Some(seq![c] + t),
                _ => None,
            }
        }
    } else {
        match unescaped(s.skip(1)) {
            Some(t) => Some(seq![s[0]] + t),
            None => None,
        }
    }
}

/// The lines of a markup block, each indented.
pub open spec fn indented(ls: Seq<Seq<char>>) -> Seq<Seq<char>> {
    ls.map_values(|l: Seq<char>| block_indent() + l)
}

/// The lines that store one record.
pub open spec fn record_lines(e: ExampleView) -> Seq<Seq<char>> {
    seq![
        quoted_line(id_key(), escaped(e.id)),
        quoted_line(title_key(), escaped(e.title)),
        quoted_line(description_key(), escaped(e.description)),
        html_key(),
    ] + indented(split_lines(e.html)) + seq![quoted_line(file_key(), escaped(e.backend_file))]
}

/// The lines that store a sequence of records, in order.
pub open spec fn records_lines(rs: Seq<ExampleView>) -> Seq<Seq<char>>
    decreases rs.len(),
{
    if rs.len() == 0 {
        Seq::empty()
    } else {
        records_lines(rs.drop_last()) + record_lines(rs.last())
    }
}

/// The stored text of a sequence of records.
pub open spec fn dataset_text(rs: Seq<ExampleView>) -> Seq<char> {
    unlines(seq![header_line()] + records_lines(rs))
}

/// The value of a quoted field, if `line` is one for `key`.
pub open spec fn field_value(line: Seq<char>, key: Seq<char>) -> Option<Seq<char>> {
    if has_prefix(line, key) && line.len() > key.len() && line.last() == '"' {
        Some(line.subrange(key.len() as int, line.len() - 1))
    } else {
        None
    }
}

/// The value of the quoted field `key` on `line`, if it is one and its
/// escapes are well formed.
pub open spec fn field_text(line: Seq<char>, key: Seq<char>) -> Option<Seq<char>> {
    match field_value(line, key) {
        Some(raw) => unescaped(raw),
        None => None,
    }
}

/// How many lines from index `i` on belong to a markup block.
pub open spec fn block_run(ls: Seq<Seq<char>>, i: int) -> nat
    decreases ls.len() - i,
{
    if 0 <= i < ls.len() && has_prefix(ls[i], block_indent()) {
        1 + block_run(ls, i + 1)
    } else {
        0
    }
}

/// The lines of a markup block without their indentation.
pub open spec fn dedented(ls: Seq<Seq<char>>) -> Seq<Seq<char>> {
    ls.map_values(|l: Seq<char>| l.skip(block_indent().len() as int))
}

/// The record that the first `5 + k` lines of `ls` store, if they do.
pub open spec fn decode_entry(ls: Seq<Seq<char>>, k: int) -> Option<ExampleView> {
    if 5 + k <= ls.len() && field_text(ls[0], id_key()) is Some && field_text(
        ls[1],
        title_key(),
    ) is Some && field_text(ls[2], description_key()) is Some && ls[3] == html_key()
        && field_text(ls[4 + k], file_key()) is Some {
        Some(
            ExampleView {
                id: field_text(ls[0], id_key())->0,
                title: field_text(ls[1], title_key())->0,
                description: field_text(ls[2], description_key())->0,
                html: join_lines(dedented(ls.subrange(4, 4 + k))),
                backend_file: field_text(ls[4 + k], file_key())->0,
            },
        )
    } else {
        None
    }
}

/// The records that a run of entry lines stores, in order.
pub open spec fn decode_records(ls: Seq<Seq<char>>) -> Option<Seq<ExampleView>>
    decreases ls.len(),
{
    if ls.len() == 0 {
        Some(Seq::empty())
    } else {
        let k = block_run(ls, 4) as int;
        match decode_entry(ls, k) {
            Some(e) => match decode_records(ls.skip(5 + k)) {
                Some(rest) => Some(seq![e] + rest),
                None => None,
            },
            None => None,
        }
    }
}

/// The records that a stored text holds, if it is well formed.
pub open spec fn decode_dataset(text: Seq<char>) -> Option<Seq<ExampleView>> {
    let ls = split_lines(text);
    if ls.len() >= 2 && ls[0] == header_line() && ls.last().len() == 0 {
        decode_records(ls.subrange(1, ls.len() - 1))
    } else {
        None
    }
}

/// A field that fits on one line.
pub open spec fn single_line(s: Seq<char>) -> bool {
    !s.contains('\n')
}

/// Appends `line` and a newline.
fn push_line(out: &mut String, line: &str)
    ensures
        final(out)@ == old(out)@ + line@.push('\n'),
{
    out.append(line);
    push_char(out, '\n');
}

proof fn lemma_escaped_push(s: Seq<char>, c: char)
    ensures
        escaped(s.push(c)) == escaped(s) + escaped_char(c),
    decreases s.len(),
{
    if s.len() == 0 {
        assert(s =~= Seq::<char>::empty());
        assert(s.push(c)[0] == c);
        assert(escaped(Seq::<char>::empty()) == Seq::<char>::empty());
        assert(s.push(c).skip(1) =~= Seq::<char>::empty());
        assert(escaped_char(c) + Seq::<char>::empty() =~= escaped_char(c));
        assert(Seq::<char>::empty() + escaped_char(c) =~= escaped_char(c));
    } else {
        lemma_escaped_push(s.skip(1), c);
        assert(s.push(c).skip(1) =~= s.skip(1).push(c));
        assert(s.push(c)[0] == s[0]);
        assert(escaped(s.push(c)) =~= escaped(s) + escaped_char(c));
    }
}

/// Appends `value` with its escapes.
fn push_escaped(out: &mut String, value: &str)
    ensures
        final(out)@ == old(out)@ + escaped(value@),
{
    let ghost before = out@;
    let v = chars_of(value);
    let mut i: usize = 0;
    assert(v@.take(0) =~= Seq::<char>::empty());
    assert(out@ =~= before + escaped(v@.take(0)));
    while i < v.len()
        invariant
            i <= v.len(),
            v@ == value@,
            out@ == before + escaped(v@.take(i as int)),
        decreases v.len() - i,
    {
        let c = v[i];
        if c == '\\' || c == '"' {
            push_char(out, '\\');
            push_char(out, c);
        } else if c == '\n' {
            push_char(out, '\\');
            push_char(out, 'n');
        } else {
            push_char(out, c);
        }
        proof {
            lemma_escaped_push(v@.take(i as int), c);
            assert(v@.take(i + 1) =~= v@.take(i as int).push(c));
            assert(out@ =~= before + escaped(v@.take(i + 1)));
        }
        i += 1;
    }
    assert(v@.take(v.len() as int) =~= v@);
}

/// Appends a key, an escaped value and a closing quote, as one line.
fn push_quoted(out: &mut String, key: &str, value: &str)
    ensures
        final(out)@ == old(out)@ + quoted_line(key@, escaped(value@)).push('\n'),
{
    out.append(key);
    push_escaped(out, value);
    push_char(out, '"');
    push_char(out, '\n');
    assert(final(out)@ =~= old(out)@ + quoted_line(key@, escaped(value@)).push('\n'));
}

proof fn lemma_unlines_one(x: Seq<char>)
    ensures
        unlines(seq![x]) == x.push('\n'),
{
    assert(seq![x].drop_last() =~= Seq::<Seq<char>>::empty());
    assert(unlines(seq![x]) == unlines(Seq::<Seq<char>>::empty()) + x.push('\n'));
    assert(Seq::<char>::empty() + x.push('\n') =~= x.push('\n'));
}

/// Appends the markup block of `html`, one indented line per piece.
fn push_block(out: &mut String, html: &str)
    ensures
        final(out)@ == old(out)@ + unlines(indented(split_lines(html@))),
{
    let ghost before = out@;
    let lines = split_text_lines(html);
    let mut j: usize = 0;
    assert(indented(views(lines@)).take(0) =~= Seq::<Seq<char>>::empty());
    assert(out@ =~= before + unlines(indented(views(lines@)).take(0)));
    while j < lines.len()
        invariant
            j <= lines.len(),
            out@ == before + unlines(indented(views(lines@)).take(j as int)),
        decreases lines.len() - j,
    {
        let ghost mid = out@;
        out.append("      ");
        push_line(out, lines[j].as_str());
        proof {
            let t = indented(views(lines@)).take(j + 1);
            assert(t.drop_last() =~= indented(views(lines@)).take(j as int));
            assert(t.last() == block_indent() + lines@[j as int]@);
            assert(out@ =~= mid + (block_indent() + lines@[j as int]@).push('\n'));
        }
        j += 1;
    }
    assert(indented(views(lines@)).take(lines.len() as int) =~= indented(views(lines@)));
}

/// Appends the stored lines of one record.
fn push_record(out: &mut String, e: &ExampleData)
    ensures
        final(out)@ == old(out)@ + unlines(record_lines(e@)),
{
    let ghost before = out@;
    let ghost head = seq![
        quoted_line(id_key(), escaped(e.id@)),
        quoted_line(title_key(), escaped(e.title@)),
        quoted_line(description_key(), escaped(e.description@)),
        html_key(),
    ];
    push_quoted(out, "  - id: \"", e.id.as_str());
    proof {
        lemma_unlines_one(head[0]);
        assert(head.take(1) =~= seq![head[0]]);
        assert(out@ =~= before + unlines(head.take(1)));
    }
    push_quoted(out, "    title: \"", e.title.as_str());
    proof {
        assert(head.take(2).drop_last() =~= head.take(1));
        assert(out@ =~= before + unlines(head.take(2)));
    }
    push_quoted(out, "    description: \"", e.description.as_str());
    proof {
        assert(head.take(3).drop_last() =~= head.take(2));
        assert(out@ =~= before + unlines(head.take(3)));
    }
    push_line(out, "    html: |");
    proof {
        assert(head.drop_last() =~= head.take(3));
        assert(out@ =~= before + unlines(head));
    }
    let ghost mid = out@;
    push_block(out, e.html.as_str());
    let ghost block = indented(split_lines(e.html@));
    push_quoted(out, "    backend_file: \"", e.backend_file.as_str());
    proof {
        let tail = seq![quoted_line(file_key(), escaped(e.backend_file@))];
        lemma_unlines_one(tail[0]);
        lemma_unlines_append(head, block);
        lemma_unlines_append(head + block, tail);
        assert(record_lines(e@) =~= head + block + tail);
        assert(out@ =~= before + unlines(record_lines(e@)));
    }
}

/// Writes the records in their stored form, in order.
pub fn render_dataset(examples: &Vec<ExampleData>) -> (r: String)
    ensures
        r@ == dataset_text(records_view(examples@)),
{
    let ghost rs = records_view(examples@);
    let mut out = String::new();
    push_line(&mut out, "examples:");
    proof {
        lemma_unlines_one(header_line());
        assert(seq![header_line()] + records_lines(rs.take(0)) =~= seq![header_line()]);
        assert(out@ =~= unlines(seq![header_line()]));
    }
    let mut i: usize = 0;
    while i < examples.len()
        invariant
            rs == records_view(examples@),
            i <= examples.len(),
            out@ == unlines(seq![header_line()] + records_lines(rs.take(i as int))),
        decreases examples.len() - i,
    {
        push_record(&mut out, &examples[i]);
        proof {
            let e = examples@[i as int];
            assert(rs[i as int] == e@);
            let pre = seq![header_line()] + records_lines(rs.take(i as int));
            assert(rs.take(i + 1).drop_last() =~= rs.take(i as int));
            assert(records_lines(rs.take(i + 1)) == records_lines(rs.take(i as int)) + record_lines(e@));
            assert(seq![header_line()] + records_lines(rs.take(i + 1)) =~= pre + record_lines(e@));
            lemma_unlines_append(pre, record_lines(e@));
        }
        i += 1;
    }
    proof {
        assert(rs.take(examples.len() as int) =~= rs);
    }
    out
}

/// The value that the escaped text `v[from..to]` stands for.
fn unescape_range(v: &Vec<char>, from: usize, to: usize) -> (r: Option<String>)
    requires
        from <= to <= v.len(),
    ensures
        r is None <==> unescaped(v@.subrange(from as int, to as int)) is None,
        r matches Some(t) ==> unescaped(v@.subrange(from as int, to as int)) == Some(t@),
{
    let ghost w = v@.subrange(from as int, to as int);
    let mut out = String::new();
    let mut i: usize = from;
    assert(w.skip(0) =~= w);
    assert(out@ + Seq::<char>::empty() =~= out@);
    while i < to
        invariant
            from <= i <= to <= v.len(),
            w == v@.subrange(from as int, to as int),
            unescaped(w) == match unescaped(w.skip(i - from)) {
                Some(t) => Some(out@ + t),
                None => None,
            },
        decreases to - i,
    {
        let ghost rest = w.skip(i - from);
        assert(rest[0] == v@[i as int]);
        if v[i] == '\\' {
            if i + 1 >= to {
                return None;
            }
            assert(rest[1] == v@[i + 1]);
            assert(rest.skip(2) =~= w.skip(i + 2 - from));
            let n = v[i + 1];
            let c = if n == 'n' {
                '\n'
            } else if n == '\\' || n == '"' {
                n
            } else {
                return None;
            };
            let ghost mid = out@;
            push_char(&mut out, c);
            proof {
                match unescaped(w.skip(i + 2 - from)) {
                    Some(t) => {
                        assert(mid + (seq![c] + t) =~= out@ + t);
                    },
                    None => {},
                }
            }
            i += 2;
        } else {
            assert(rest.skip(1) =~= w.skip(i + 1 - from));
            let ghost mid = out@;
            push_char(&mut out, v[i]);
            proof {
                match unescaped(w.skip(i + 1 - from)) {
                    Some(t) => {
                        assert(mid + (seq![v@[i as int]] + t) =~= out@ + t);
                    },
                    None => {},
                }
            }
            i += 1;
        }
    }
    assert(w.skip(i - from).len() == 0);
    assert(out@ + Seq::<char>::empty() =~= out@);
    Some(out)
}

/// The value of the quoted field `key` on `line`, if it is one.
fn read_field(line: &String, key: &str) -> (r: Option<String>)
    ensures
        r is None <==> field_text(line@, key@) is None,
        r matches Some(v) ==> field_text(line@, key@) == Some(v@),
{
    let v = chars_of(line.as_str());
    let k = chars_of(key);
    if v.len() > k.len() && range_has_prefix(&v, 0, v.len(), &k) && v[v.len() - 1] == '"' {
        assert(v@.subrange(0, v.len() as int) =~= v@);
        unescape_range(&v, k.len(), v.len() - 1)
    } else {
        assert(v@.subrange(0, v.len() as int) =~= v@);
        None
    }
}

/// Whether `line` belongs to a markup block.
fn is_block_line(line: &String) -> (r: bool)
    ensures
        r == has_prefix(line@, block_indent()),
{
    let v = chars_of(line.as_str());
    let k = chars_of("      ");
    assert(v@.subrange(0, v.len() as int) =~= v@);
    range_has_prefix(&v, 0, v.len(), &k)
}

/// Whether `line` reads exactly `text`.
fn line_is(line: &String, text: &str) -> (r: bool)
    ensures
        r == (line@ == text@),
{
    let t = String::from_str(text);
    *line == t
}

/// The lines `lines[from..to]` without their block indentation.
fn dedent_lines(lines: &Vec<String>, from: usize, to: usize) -> (r: Vec<String>)
    requires
        from <= to <= lines.len(),
        forall|i: int| from <= i < to ==> has_prefix(#[trigger] lines@[i]@, block_indent()),
    ensures
        views(r@) == dedented(views(lines@).subrange(from as int, to as int)),
{
    proof {
        reveal_strlit("      ");
    }
    let mut r: Vec<String> = Vec::new();
    let mut i: usize = from;
    while i < to
        invariant
            from <= i <= to <= lines.len(),
            forall|i: int| from <= i < to ==> has_prefix(#[trigger] lines@[i]@, block_indent()),
            block_indent().len() == 6,
            views(r@) == dedented(views(lines@).subrange(from as int, i as int)),
        decreases to - i,
    {
        let v = chars_of(lines[i].as_str());
        assert(has_prefix(lines@[i as int]@, block_indent()));
        let piece = string_of(&v, 6, v.len());
        let ghost before = r@;
        r.push(piece);
        proof {
            assert(r@.drop_last() =~= before);
            assert(v@.subrange(6, v.len() as int) =~= v@.skip(6));
            let sub = views(lines@).subrange(from as int, i + 1);
            assert(sub.drop_last() =~= views(lines@).subrange(from as int, i as int));
            assert(sub.last() == lines@[i as int]@);
            assert(dedented(sub) =~= dedented(sub.drop_last()).push(sub.last().skip(6)));
            assert(views(r@) =~= views(before).push(piece@));
            assert(views(r@) =~= dedented(sub));
        }
        i += 1;
    }
    r
}

proof fn lemma_block_run_step(ls: Seq<Seq<char>>, i: int)
    ensures
        block_run(ls, i) == if 0 <= i < ls.len() && has_prefix(ls[i], block_indent()) {
            1 + block_run(ls, i + 1)
        } else {
            0
        },
{
}

/// Reads the stored form of the catalog back. Gives `None` where the text is
/// not in that form.
pub fn parse_dataset(text: &str) -> (r: Option<Vec<ExampleData>>)
    ensures
        r is None <==> decode_dataset(text@) is None,
        r matches Some(v) ==> decode_dataset(text@) == Some(records_view(v@)) && forall|i: int|
            0 <= i < v.len() ==> #[trigger] v@[i].highlighted_html@ == v@[i].html@,
{
    let lines = split_text_lines(text);
    let n = lines.len();
    proof {
        lemma_split_lines_nonempty(text@);
    }
    if n < 2 || !line_is(&lines[0], "examples:") || !lines[n - 1].as_str().is_empty() {
        return None;
    }
    let ghost body = views(lines@).subrange(1, n - 1);
    proof {
        let ls = split_lines(text@);
        assert(ls[0] == lines@[0]@);
        assert(ls.last() == lines@[n - 1]@);
        assert(decode_dataset(text@) == decode_records(body));
    }
    let mut out: Vec<ExampleData> = Vec::new();
    let mut pos: usize = 1;
    assert(body.skip(0) =~= body);
    assert(records_view(out@) + Seq::<ExampleView>::empty() =~= Seq::<ExampleView>::empty());
    while pos < n - 1
        invariant
            n == lines.len(),
            n >= 2,
            body == views(lines@).subrange(1, n - 1),
            decode_dataset(text@) == decode_records(body),
            1 <= pos <= n - 1,
            decode_records(body) == match decode_records(body.skip(pos - 1)) {
                Some(t) => Some(records_view(out@) + t),
                None => None,
            },
            forall|i: int| 0 <= i < out.len() ==> #[trigger] out@[i].highlighted_html@ == out@[i].html@,
        decreases n - pos,
    {
        let ghost m = body.skip(pos - 1);
        assert(m.len() == n - 1 - pos);
        assert(forall|t: int| 0 <= t < m.len() ==> #[trigger] m[t] == lines@[pos + t]@);
        if n - 1 - pos <= 4 {
            assert(decode_entry(m, block_run(m, 4) as int) is None);
            return None;
        }
        let mut j: usize = pos + 4;
        while j < n - 1 && is_block_line(&lines[j])
            invariant
                n == lines.len(),
                pos + 4 <= j <= n - 1,
                m == body.skip(pos - 1),
                m.len() == n - 1 - pos,
                body == views(lines@).subrange(1, n - 1),
                forall|t: int| 0 <= t < m.len() ==> #[trigger] m[t] == lines@[pos + t]@,
                forall|i: int| pos + 4 <= i < j ==> has_prefix(#[trigger] lines@[i]@, block_indent()),
                block_run(m, 4) == (j - pos - 4) + block_run(m, j - pos),
            decreases n - j,
        {
            proof {
                assert(m[j - pos] == lines@[j as int]@);
                lemma_block_run_step(m, j - pos);
            }
            j += 1;
        }
        proof {
            if j < n - 1 {
                assert(m[j - pos] == lines@[j as int]@);
            }
            lemma_block_run_step(m, j - pos);
        }
        let ghost k = j - pos - 4;
        assert(block_run(m, 4) == k);
        if j >= n - 1 {
            assert(decode_entry(m, k) is None);
            return None;
        }
        let id = read_field(&lines[pos], "  - id: \"");
        let title = read_field(&lines[pos + 1], "    title: \"");
        let description = read_field(&lines[pos + 2], "    description: \"");
        let file = read_field(&lines[j], "    backend_file: \"");
        if id.is_none() || title.is_none() || description.is_none() || !line_is(
            &lines[pos + 3],
            "    html: |",
        ) || file.is_none() {
            assert(decode_entry(m, k) is None);
            return None;
        }
        let block = dedent_lines(&lines, pos + 4, j);
        let html = join_with_newlines(&block);
        let html_copy = html.clone();
        let e = ExampleData {
            id: id.unwrap(),
            title: title.unwrap(),
            description: description.unwrap(),
            html,
            backend_file: file.unwrap(),
            highlighted_html: html_copy,
        };
        proof {
            assert(m.subrange(4, 4 + k) =~= views(lines@).subrange(pos + 4, j as int));
            assert(decode_entry(m, k) == Some(e@));
            assert(m.skip(5 + k) =~= body.skip(j as int));
        }
        let ghost before = out@;
        out.push(e);
        proof {
            assert(out@.drop_last() =~= before);
            assert(records_view(out@) =~= records_view(before).push(e@));
            match decode_records(body.skip(j as int)) {
                Some(t) => {
                    assert(records_view(before) + (seq![e@] + t) =~= records_view(out@) + t);
                },
                None => {},
            }
        }
        pos = j + 1;
    }
    proof {
        assert(body.skip(pos - 1).len() == 0);
        assert(records_view(out@) + Seq::<ExampleView>::empty() =~= records_view(out@));
    }
    Some(out)
}

proof fn lemma_concat_single_line(a: Seq<char>, b: Seq<char>)
    requires
        single_line(a),
        single_line(b),
    ensures
        single_line(a + b),
{
    assert forall|i: int| 0 <= i < (a + b).len() implies (a + b)[i] != '\n' by {
        if i < a.len() {
            assert((a + b)[i] == a[i]);
        } else {
            assert((a + b)[i] == b[i - a.len()]);
        }
    }
}

proof fn lemma_quoted_single_line(key: Seq<char>, v: Seq<char>)
    requires
        single_line(key),
        single_line(v),
    ensures
        single_line(quoted_line(key, v)),
{
    assert(single_line(seq!['"'])) by {
        assert(seq!['"'][0] != '\n');
    }
    assert(v.push('"') =~= v + seq!['"']);
    lemma_concat_single_line(v, seq!['"']);
    lemma_concat_single_line(key, v.push('"'));
}

proof fn lemma_keys_single_line()
    ensures
        single_line(header_line()),
        single_line(id_key()),
        single_line(title_key()),
        single_line(description_key()),
        single_line(html_key()),
        single_line(file_key()),
        single_line(block_indent()),
{
    reveal_strlit("examples:");
    reveal_strlit("  - id: \"");
    reveal_strlit("    title: \"");
    reveal_strlit("    description: \"");
    reveal_strlit("    html: |");
    reveal_strlit("    backend_file: \"");
    reveal_strlit("      ");
}

proof fn lemma_escaped_single_line(s: Seq<char>)
    ensures
        single_line(escaped(s)),
    decreases s.len(),
{
    if s.len() > 0 {
        lemma_escaped_single_line(s.skip(1));
        let e = escaped_char(s[0]);
        assert(single_line(e)) by {
            assert forall|i: int| 0 <= i < e.len() implies e[i] != '\n' by {}
        }
        lemma_concat_single_line(e, escaped(s.skip(1)));
    }
}

/// Escaping can be undone.
proof fn lemma_unescape_escaped(s: Seq<char>)
    ensures
        unescaped(escaped(s)) == Some(s),
    decreases s.len(),
{
    if s.len() == 0 {
    } else {
        lemma_unescape_escaped(s.skip(1));
        let e = escaped_char(s[0]);
        let t = escaped(s.skip(1));
        assert((e + t).skip(e.len() as int) =~= t);
        assert((e + t)[0] == e[0]);
        if e.len() == 2 {
            assert((e + t)[1] == e[1]);
        }
        assert(seq![s[0]] + s.skip(1) =~= s);
    }
}

proof fn lemma_record_lines_single(e: ExampleView)
    ensures
        forall|i: int| 0 <= i < record_lines(e).len() ==> single_line(#[trigger] record_lines(e)[i]),
{
    lemma_keys_single_line();
    lemma_escaped_single_line(e.id);
    lemma_escaped_single_line(e.title);
    lemma_escaped_single_line(e.description);
    lemma_escaped_single_line(e.backend_file);
    lemma_quoted_single_line(id_key(), escaped(e.id));
    lemma_quoted_single_line(title_key(), escaped(e.title));
    lemma_quoted_single_line(description_key(), escaped(e.description));
    lemma_quoted_single_line(file_key(), escaped(e.backend_file));
    let pieces = split_lines(e.html);
    assert forall|t: int| 0 <= t < pieces.len() implies single_line(#[trigger] indented(pieces)[t]) by {
        lemma_split_lines_no_newline(e.html, t);
        lemma_concat_single_line(block_indent(), pieces[t]);
    }
    let ls = record_lines(e);
    assert forall|i: int| 0 <= i < ls.len() implies single_line(#[trigger] ls[i]) by {
        if 4 <= i < 4 + pieces.len() {
            assert(ls[i] == indented(pieces)[i - 4]);
        }
    }
}

proof fn lemma_records_lines_single(rs: Seq<ExampleView>)
    ensures
        forall|i: int| 0 <= i < records_lines(rs).len() ==> single_line(
            #[trigger] records_lines(rs)[i],
        ),
    decreases rs.len(),
{
    if rs.len() > 0 {
        let init = rs.drop_last();
        lemma_records_lines_single(init);
        lemma_record_lines_single(rs.last());
        let a = records_lines(init);
        let b = record_lines(rs.last());
        assert forall|i: int| 0 <= i < (a + b).len() implies single_line(#[trigger] (a + b)[i]) by {
            if i >= a.len() {
                assert((a + b)[i] == b[i - a.len()]);
            }
        }
    }
}

proof fn lemma_records_lines_front(rs: Seq<ExampleView>)
    requires
        rs.len() > 0,
    ensures
        records_lines(rs) == record_lines(rs[0]) + records_lines(rs.skip(1)),
    decreases rs.len(),
{
    if rs.len() == 1 {
        assert(rs.drop_last() =~= Seq::<ExampleView>::empty());
        assert(rs.skip(1) =~= Seq::<ExampleView>::empty());
        assert(records_lines(rs) =~= record_lines(rs[0]) + records_lines(rs.skip(1)));
    } else {
        let init = rs.drop_last();
        lemma_records_lines_front(init);
        assert(rs.skip(1).drop_last() =~= init.skip(1));
        assert(rs.skip(1).last() == rs.last());
        assert(records_lines(rs) =~= record_lines(rs[0]) + records_lines(rs.skip(1)));
    }
}

proof fn lemma_quoted_field(key: Seq<char>, v: Seq<char>)
    ensures
        field_value(quoted_line(key, v), key) == Some(v),
{
    let l = quoted_line(key, v);
    assert(l.take(key.len() as int) =~= key);
    assert(l.subrange(key.len() as int, l.len() - 1) =~= v);
}

proof fn lemma_block_run_record(e: ExampleView, rest: Seq<Seq<char>>, i: int)
    requires
        4 <= i <= 4 + split_lines(e.html).len(),
    ensures
        block_run(record_lines(e) + rest, i) == 4 + split_lines(e.html).len() - i,
    decreases 4 + split_lines(e.html).len() - i,
{
    let ls = record_lines(e) + rest;
    let m = split_lines(e.html).len();
    reveal_strlit("      ");
    reveal_strlit("    backend_file: \"");
    if i == 4 + m {
        let f = quoted_line(file_key(), escaped(e.backend_file));
        assert(ls[i] == f);
        assert(f[4] == 'b');
        assert(!has_prefix(f, block_indent())) by {
            if has_prefix(f, block_indent()) {
                assert(f.take(6)[4] == block_indent()[4]);
            }
        }
    } else {
        lemma_block_run_record(e, rest, i + 1);
        let x = split_lines(e.html)[i - 4];
        assert(ls[i] == block_indent() + x);
        assert((block_indent() + x).take(6) =~= block_indent());
    }
}

proof fn lemma_decode_record(e: ExampleView, rest: Seq<Seq<char>>)
    ensures
        block_run(record_lines(e) + rest, 4) == split_lines(e.html).len(),
        decode_entry(record_lines(e) + rest, split_lines(e.html).len() as int) == Some(e),
        (record_lines(e) + rest).skip(5 + split_lines(e.html).len() as int) == rest,
{
    let ls = record_lines(e) + rest;
    let pieces = split_lines(e.html);
    let k = pieces.len() as int;
    lemma_block_run_record(e, rest, 4);
    lemma_quoted_field(id_key(), escaped(e.id));
    lemma_quoted_field(title_key(), escaped(e.title));
    lemma_quoted_field(description_key(), escaped(e.description));
    lemma_quoted_field(file_key(), escaped(e.backend_file));
    lemma_unescape_escaped(e.id);
    lemma_unescape_escaped(e.title);
    lemma_unescape_escaped(e.description);
    lemma_unescape_escaped(e.backend_file);
    assert(ls[0] == quoted_line(id_key(), escaped(e.id)));
    assert(ls[1] == quoted_line(title_key(), escaped(e.title)));
    assert(ls[2] == quoted_line(description_key(), escaped(e.description)));
    assert(ls[3] == html_key());
    assert(ls[4 + k] == quoted_line(file_key(), escaped(e.backend_file)));
    reveal_strlit("      ");
    assert(dedented(ls.subrange(4, 4 + k)) =~= pieces) by {
        assert forall|t: int| 0 <= t < k implies #[trigger] dedented(ls.subrange(4, 4 + k))[t]
            == pieces[t] by {
            assert(ls[4 + t] == block_indent() + pieces[t]);
            assert((block_indent() + pieces[t]).skip(6) =~= pieces[t]);
        }
    }
    lemma_join_split(e.html);
    assert(ls.skip(5 + k) =~= rest);
}

proof fn lemma_decode_records(rs: Seq<ExampleView>)
    ensures
        decode_records(records_lines(rs)) == Some(rs),
    decreases rs.len(),
{
    if rs.len() == 0 {
        assert(rs =~= Seq::<ExampleView>::empty());
    } else {
        lemma_records_lines_front(rs);
        let rest = records_lines(rs.skip(1));
        lemma_decode_record(rs[0], rest);
        lemma_decode_records(rs.skip(1));
        assert(seq![rs[0]] + rs.skip(1) =~= rs);
    }
}

/// Storing records and reading them back gives the same records, in the
/// same order, field for field.
pub proof fn lemma_dataset_round_trip(rs: Seq<ExampleView>)
    ensures
        decode_dataset(dataset_text(rs)) == Some(rs),
{
    let all = seq![header_line()] + records_lines(rs);
    lemma_keys_single_line();
    lemma_records_lines_single(rs);
    assert forall|i: int| 0 <= i < all.len() implies !(#[trigger] all[i]).contains('\n') by {
        if i > 0 {
            assert(all[i] == records_lines(rs)[i - 1]);
        }
    }
    lemma_split_unlines(all);
    let ls = all.push(Seq::<char>::empty());
    assert(ls.subrange(1, ls.len() - 1) =~= records_lines(rs));
    lemma_decode_records(rs);
}

} // verus!
