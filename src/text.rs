//! Character-level helpers shared by the parser, the dataset codec and the
//! request logic. Everything here works on the `Seq<char>` view of strings.
use vstd::prelude::*;
use vstd::string::*;

verus! {

/// What `str::to_lowercase` makes of a string.
pub uninterp spec fn lower_of(s: Seq<char>) -> Seq<char>;

/// Relies on `str::to_lowercase`: the lower-case form depends on the characters
/// alone, and the empty string stays empty.
#[verifier::external_body]
pub(crate) fn lowercase(s: &str) -> (r: String)
    ensures
        r@ == lower_of(s@),
        s@.len() == 0 ==> r@.len() == 0,
{
    s.to_lowercase()
}

/// Relies on `String::push`: the character is appended at the end.
#[verifier::external_body]
pub(crate) fn push_char(s: &mut String, c: char)
    ensures
        final(s)@ == old(s)@.push(c),
{
    s.push(c)
}

/// The characters of a string, one by one.
pub fn chars_of(s: &str) -> (r: Vec<char>)
    ensures
        r@ == s@,
{
    broadcast use vstd::string::group_string_axioms;

    let mut v: Vec<char> = Vec::new();
    for c in it: s.chars()
        invariant
            it.seq() == s@,
            v@ == it.seq().take(it.index() as int),
    {
        v.push(c);
        assert(v@ =~= it.seq().take(it.index() as int + 1));
    }
    assert(v@ =~= s@);
    v
}

/// A string made of the characters `v[from..to]`.
pub fn string_of(v: &Vec<char>, from: usize, to: usize) -> (r: String)
    requires
        from <= to <= v.len(),
    ensures
        r@ == v@.subrange(from as int, to as int),
{
    let mut r = String::new();
    let mut i: usize = from;
    while i < to
        invariant
            from <= i <= to <= v.len(),
            r@ == v@.subrange(from as int, i as int),
        decreases to - i,
    {
        push_char(&mut r, v[i]);
        assert(r@ =~= v@.subrange(from as int, i + 1));
        i += 1;
    }
    r
}

/// Whether `s` begins with `p`.
pub open spec fn has_prefix(s: Seq<char>, p: Seq<char>) -> bool {
    p.len() <= s.len() && s.take(p.len() as int) == p
}

/// Whether `v[from..to]` begins with `p`.
pub fn range_has_prefix(v: &Vec<char>, from: usize, to: usize, p: &Vec<char>) -> (r: bool)
    requires
        from <= to <= v.len(),
    ensures
        r == has_prefix(v@.subrange(from as int, to as int), p@),
{
    if p.len() > to - from {
        return false;
    }
    let mut i: usize = 0;
    while i < p.len()
        invariant
            from <= to <= v.len(),
            p.len() <= to - from,
            i <= p.len(),
            forall|k: int| 0 <= k < i ==> v@[from + k] == p@[k],
        decreases p.len() - i,
    {
        if v[from + i] != p[i] {
            assert(v@.subrange(from as int, to as int).take(p.len() as int)[i as int] != p@[i as int]);
            return false;
        }
        i += 1;
    }
    assert(v@.subrange(from as int, to as int).take(p.len() as int) =~= p@);
    true
}

/// Whether `needle` occurs in `hay` as a contiguous run.
pub open spec fn occurs_in(needle: Seq<char>, hay: Seq<char>) -> bool {
    exists|i: int|
        0 <= i && i + needle.len() <= hay.len() && #[trigger] hay.subrange(i, i + needle.len())
            == needle
}

/// Whether `needle` occurs in `hay`.
pub fn contains_text(hay: &str, needle: &str) -> (r: bool)
    ensures
        r == occurs_in(needle@, hay@),
{
    let h = chars_of(hay);
    let n = chars_of(needle);
    if n.len() > h.len() {
        return false;
    }
    if n.len() == 0 {
        assert(hay@.subrange(0, 0 + needle@.len() as int) =~= needle@);
        return true;
    }
    let last: usize = h.len() - n.len() + 1;
    let mut i: usize = 0;
    while i < last
        invariant
            h@ == hay@,
            n@ == needle@,
            0 < n.len() <= h.len(),
            last == h.len() - n.len() + 1,
            i <= last,
            forall|j: int| 0 <= j < i ==> #[trigger] h@.subrange(j, j + n.len()) != n@,
        decreases last - i,
    {
        if range_has_prefix(&h, i, i + n.len(), &n) {
            assert(h@.subrange(i as int, (i + n.len()) as int).take(n.len() as int)
                =~= h@.subrange(i as int, (i + n.len()) as int));
            return true;
        }
        assert(h@.subrange(i as int, (i + n.len()) as int).take(n.len() as int)
            =~= h@.subrange(i as int, (i + n.len()) as int));
        i += 1;
    }
    assert forall|j: int| 0 <= j && j + n.len() <= h.len() implies #[trigger] h@.subrange(
        j,
        j + n.len(),
    ) != n@ by {}
    false
}

/// Characters that carry the Unicode `White_Space` property, which is what
/// `char::is_whitespace` and `str::trim` go by.
pub open spec fn is_white_space(c: char) -> bool {
    ('\u{9}' <= c && c <= '\u{d}') || c == ' ' || c == '\u{85}' || c == '\u{a0}' || c
        == '\u{1680}' || ('\u{2000}' <= c && c <= '\u{200a}') || c == '\u{2028}' || c
        == '\u{2029}' || c == '\u{202f}' || c == '\u{205f}' || c == '\u{3000}'
}

/// Whether `c` is white space in the sense of `char::is_whitespace`.
pub fn white_space(c: char) -> (r: bool)
    ensures
        r == is_white_space(c),
{
    ('\u{9}' <= c && c <= '\u{d}') || c == ' ' || c == '\u{85}' || c == '\u{a0}' || c
        == '\u{1680}' || ('\u{2000}' <= c && c <= '\u{200a}') || c == '\u{2028}' || c
        == '\u{2029}' || c == '\u{202f}' || c == '\u{205f}' || c == '\u{3000}'
}

/// `s` without its leading white space.
pub open spec fn trim_front(s: Seq<char>) -> Seq<char>
    decreases s.len(),
{
    if s.len() > 0 && is_white_space(s[0]) {
        trim_front(s.skip(1))
    } else {
        s
    }
}

/// `s` without its trailing white space.
pub open spec fn trim_back(s: Seq<char>) -> Seq<char>
    decreases s.len(),
{
    if s.len() > 0 && is_white_space(s.last()) {
        trim_back(s.drop_last())
    } else {
        s
    }
}

/// `s` without white space at either end.
pub open spec fn trimmed(s: Seq<char>) -> Seq<char> {
    trim_back(trim_front(s))
}

/// The characters `v[from..to]` without white space at either end.
pub fn trim_range(v: &Vec<char>, from: usize, to: usize) -> (r: String)
    requires
        from <= to <= v.len(),
    ensures
        r@ == trimmed(v@.subrange(from as int, to as int)),
{
    let mut i: usize = from;
    while i < to && white_space(v[i])
        invariant
            from <= i <= to <= v.len(),
            trim_front(v@.subrange(from as int, to as int)) == trim_front(
                v@.subrange(i as int, to as int),
            ),
        decreases to - i,
    {
        assert(v@.subrange(i as int, to as int).skip(1) =~= v@.subrange(i + 1, to as int));
        i += 1;
    }
    assert(trim_front(v@.subrange(i as int, to as int)) == v@.subrange(i as int, to as int));
    let mut j: usize = to;
    while j > i && white_space(v[j - 1])
        invariant
            from <= i <= j <= to <= v.len(),
            trim_back(v@.subrange(i as int, to as int)) == trim_back(
                v@.subrange(i as int, j as int),
            ),
        decreases j,
    {
        assert(v@.subrange(i as int, j as int).drop_last() =~= v@.subrange(i as int, j - 1));
        j -= 1;
    }
    assert(trim_back(v@.subrange(i as int, j as int)) == v@.subrange(i as int, j as int));
    string_of(v, i, j)
}

/// The lines of a text joined with one newline between each two.
pub open spec fn join_lines(ls: Seq<Seq<char>>) -> Seq<char>
    decreases ls.len(),
{
    if ls.len() == 0 {
        Seq::empty()
    } else if ls.len() == 1 {
        ls[0]
    } else {
        join_lines(ls.drop_last()).push('\n') + ls.last()
    }
}

/// The pieces of `s` between newlines; there is always at least one.
pub open spec fn split_lines(s: Seq<char>) -> Seq<Seq<char>> {
    split_on(s, '\n')
}

/// Splitting gives at least one piece.
pub proof fn lemma_split_lines_nonempty(s: Seq<char>)
    ensures
        split_lines(s).len() >= 1,
    decreases s.len(),
{
    if s.len() > 0 {
        lemma_split_lines_nonempty(s.drop_last());
    }
}

/// Views of a vector of strings.
pub open spec fn views(v: Seq<String>) -> Seq<Seq<char>> {
    v.map_values(|s: String| s@)
}

/// Joins strings with one newline between each two.
pub fn join_with_newlines(ls: &Vec<String>) -> (r: String)
    ensures
        r@ == join_lines(views(ls@)),
{
    let mut r = String::new();
    let mut i: usize = 0;
    while i < ls.len()
        invariant
            i <= ls.len(),
            r@ == join_lines(views(ls@.take(i as int))),
        decreases ls.len() - i,
    {
        assert(views(ls@.take(i + 1)).drop_last() =~= views(ls@.take(i as int)));
        if i > 0 {
            push_char(&mut r, '\n');
        } else {
            assert(views(ls@.take(0)) =~= Seq::<Seq<char>>::empty());
        }
        r.append(ls[i].as_str());
        i += 1;
    }
    assert(ls@.take(ls.len() as int) =~= ls@);
    r
}

/// The pieces of `s` between newlines.
pub fn split_text_lines(s: &str) -> (r: Vec<String>)
    ensures
        views(r@) == split_lines(s@),
{
    split_text_on(s, '\n')
}

/// No piece between newlines holds a newline.
pub proof fn lemma_split_lines_no_newline(s: Seq<char>, k: int)
    requires
        0 <= k < split_lines(s).len(),
    ensures
        !split_lines(s)[k].contains('\n'),
    decreases s.len(),
{
    if s.len() > 0 {
        let p = split_lines(s.drop_last());
        lemma_split_lines_nonempty(s.drop_last());
        if s.last() == '\n' {
            if k < p.len() {
                lemma_split_lines_no_newline(s.drop_last(), k);
            }
        } else {
            if k < p.len() - 1 {
                lemma_split_lines_no_newline(s.drop_last(), k);
            } else {
                lemma_split_lines_no_newline(s.drop_last(), p.len() - 1);
                assert forall|j: int| 0 <= j < p.last().push(s.last()).len() implies p.last().push(
                    s.last(),
                )[j] != '\n' by {
                    if j < p.last().len() {
                        assert(p.last()[j] != '\n');
                    }
                }
            }
        }
    }
}

/// Rejoining the pieces between newlines gives the text back.
pub proof fn lemma_join_split(s: Seq<char>)
    ensures
        join_lines(split_lines(s)) == s,
    decreases s.len(),
{
    if s.len() == 0 {
    } else {
        let t = s.drop_last();
        let p = split_lines(t);
        lemma_join_split(t);
        lemma_split_lines_nonempty(t);
        if s.last() == '\n' {
            let q = p.push(Seq::<char>::empty());
            assert(q.drop_last() =~= p);
            assert(join_lines(q) =~= s);
        } else {
            let q = p.update(p.len() - 1, p.last().push(s.last()));
            if p.len() == 1 {
                assert(join_lines(q) =~= s);
            } else {
                assert(q.drop_last() =~= p.drop_last());
                assert(q.last() == p.last().push(s.last()));
                assert(join_lines(q) == join_lines(p.drop_last()).push('\n') + p.last().push(s.last()));
                assert(join_lines(p) == join_lines(p.drop_last()).push('\n') + p.last());
                assert(s =~= t.push(s.last()));
                assert(join_lines(q) =~= s);
            }
        }
    }
}

/// Lines each closed by a newline, one after the other.
pub open spec fn unlines(ls: Seq<Seq<char>>) -> Seq<char>
    decreases ls.len(),
{
    if ls.len() == 0 {
        Seq::empty()
    } else {
        unlines(ls.drop_last()) + ls.last().push('\n')
    }
}

/// The text of two runs of lines is the text of one run, then the other.
pub proof fn lemma_unlines_append(a: Seq<Seq<char>>, b: Seq<Seq<char>>)
    ensures
        unlines(a + b) == unlines(a) + unlines(b),
    decreases b.len(),
{
    if b.len() == 0 {
        assert(a + b =~= a);
        assert(unlines(a) + unlines(b) =~= unlines(a));
    } else {
        lemma_unlines_append(a, b.drop_last());
        assert((a + b).drop_last() =~= a + b.drop_last());
        assert(unlines(a + b) =~= unlines(a) + unlines(b));
    }
}

/// Appending characters without a newline extends the last piece.
pub proof fn lemma_split_append_line(u: Seq<char>, l: Seq<char>)
    requires
        !l.contains('\n'),
    ensures
        split_lines(u + l) == split_lines(u).drop_last().push(split_lines(u).last() + l),
    decreases l.len(),
{
    lemma_split_lines_nonempty(u);
    if l.len() == 0 {
        assert(u + l =~= u);
        assert(split_lines(u).last() + l =~= split_lines(u).last());
        assert(split_lines(u).drop_last().push(split_lines(u).last()) =~= split_lines(u));
    } else {
        let l2 = l.drop_last();
        assert(!l2.contains('\n')) by {
            assert forall|j: int| 0 <= j < l2.len() implies l2[j] != '\n' by {
                assert(l2[j] == l[j]);
            }
        }
        assert(l.last() != '\n') by {
            assert(l[l.len() - 1] == l.last());
        }
        lemma_split_append_line(u, l2);
        assert((u + l).drop_last() =~= u + l2);
        assert((u + l).last() == l.last());
        let p = split_lines(u + l2);
        assert(p.last().push(l.last()) =~= split_lines(u).last() + l);
        assert(p.update(p.len() - 1, p.last().push(l.last())) =~= split_lines(u).drop_last().push(
            split_lines(u).last() + l,
        ));
    }
}

/// Lines without newlines come back out of their text, with an empty piece
/// after the last newline.
pub proof fn lemma_split_unlines(ls: Seq<Seq<char>>)
    requires
        forall|i: int| 0 <= i < ls.len() ==> !(#[trigger] ls[i]).contains('\n'),
    ensures
        split_lines(unlines(ls)) == ls.push(Seq::empty()),
    decreases ls.len(),
{
    if ls.len() == 0 {
        assert(split_lines(Seq::<char>::empty()) =~= seq![Seq::<char>::empty()]);
        assert(ls.push(Seq::empty()) =~= seq![Seq::<char>::empty()]);
    } else {
        let init = ls.drop_last();
        assert forall|i: int| 0 <= i < init.len() implies !(#[trigger] init[i]).contains('\n') by {
            assert(init[i] == ls[i]);
        }
        lemma_split_unlines(init);
        let u = unlines(init);
        let l = ls.last();
        assert(!l.contains('\n')) by {
            assert(ls[ls.len() - 1] == l);
        }
        lemma_split_append_line(u, l);
        let w = u + l;
        assert(unlines(ls) =~= w.push('\n'));
        assert(w.push('\n').drop_last() =~= w);
        assert(split_lines(u).drop_last() =~= init);
        assert(split_lines(u).last() + l =~= l);
        assert(split_lines(w) =~= ls);
    }
}

/// The pieces of `s` between occurrences of `sep`; there is always at least
/// one.
pub open spec fn split_on(s: Seq<char>, sep: char) -> Seq<Seq<char>>
    decreases s.len(),
{
    if s.len() == 0 {
        seq![Seq::empty()]
    } else {
        let p = split_on(s.drop_last(), sep);
        if s.last() == sep {
            p.push(Seq::empty())
        } else {
            p.update(p.len() - 1, p.last().push(s.last()))
        }
    }
}

/// The pieces of `s` between occurrences of `sep`.
pub fn split_text_on(s: &str, sep: char) -> (r: Vec<String>)
    ensures
        views(r@) == split_on(s@, sep),
{
    let v = chars_of(s);
    let mut out: Vec<String> = Vec::new();
    let mut start: usize = 0;
    let mut i: usize = 0;
    assert(v@.take(0).len() == 0);
    assert(v@.subrange(0, 0) =~= Seq::<char>::empty());
    assert(split_on(v@.take(0), sep) =~= views(out@).push(v@.subrange(0, 0)));
    while i < v.len()
        invariant
            v@ == s@,
            start <= i <= v.len(),
            split_on(v@.take(i as int), sep) == views(out@).push(v@.subrange(start as int, i as int)),
        decreases v.len() - i,
    {
        assert(v@.take(i + 1).drop_last() =~= v@.take(i as int));
        if v[i] == sep {
            let piece = string_of(&v, start, i);
            let ghost before = out@;
            out.push(piece);
            assert(out@.drop_last() =~= before);
            assert(views(out@) =~= views(before).push(piece@));
            assert(v@.subrange(i + 1, i + 1) =~= Seq::<char>::empty());
            start = i + 1;
        } else {
            proof {
                let p = views(out@).push(v@.subrange(start as int, i as int));
                assert(p.last().push(v@[i as int]) =~= v@.subrange(start as int, i + 1));
                assert(p.update(p.len() - 1, p.last().push(v@[i as int])) =~= views(out@).push(
                    v@.subrange(start as int, i + 1),
                ));
            }
        }
        i += 1;
    }
    let piece = string_of(&v, start, v.len());
    let ghost before = out@;
    out.push(piece);
    assert(out@.drop_last() =~= before);
    assert(views(out@) =~= views(before).push(piece@));
    assert(v@.take(v.len() as int) =~= v@);
    out
}

/// A string with its leading and trailing white space removed.
pub fn trim_text(s: &str) -> (r: String)
    ensures
        r@ == trimmed(s@),
{
    let v = chars_of(s);
    assert(v@.subrange(0, v.len() as int) =~= v@);
    trim_range(&v, 0, v.len())
}

/// Whether `s` begins with `p`.
pub fn text_has_prefix(s: &str, p: &str) -> (r: bool)
    ensures
        r == has_prefix(s@, p@),
{
    let v = chars_of(s);
    let q = chars_of(p);
    assert(v@.subrange(0, v.len() as int) =~= v@);
    range_has_prefix(&v, 0, v.len(), &q)
}

/// `a` followed by `b`.
pub fn concat(a: &str, b: &str) -> (r: String)
    ensures
        r@ == a@ + b@,
{
    let mut r = String::from_str(a);
    r.append(b);
    r
}

/// A line without the carriage return that ends it, if any.
pub open spec fn without_cr(l: Seq<char>) -> Seq<char> {
    if l.len() > 0 && l.last() == '\r' {
        l.drop_last()
    } else {
        l
    }
}

/// The lines of a text as `str::lines` gives them: the pieces between
/// newlines, each piece that a newline ends without its carriage return,
/// and no empty piece after a final newline.
pub open spec fn text_lines(s: Seq<char>) -> Seq<Seq<char>> {
    let p = split_lines(s);
    let ended = p.drop_last().map_values(|l: Seq<char>| without_cr(l));
    if p.last().len() == 0 {
        ended
    } else {
        ended.push(p.last())
    }
}

/// The lines of a text, as `text_lines` describes them.
pub fn lines_of(s: &str) -> (r: Vec<String>)
    ensures
        views(r@) == text_lines(s@),
{
    let pieces = split_text_lines(s);
    proof {
        lemma_split_lines_nonempty(s@);
    }
    let ghost p = views(pieces@);
    let last = pieces.len() - 1;
    let mut out: Vec<String> = Vec::new();
    let mut i: usize = 0;
    while i < last
        invariant
            p == views(pieces@),
            p == split_lines(s@),
            last == pieces.len() - 1,
            i <= last,
            views(out@) == p.drop_last().take(i as int).map_values(|l: Seq<char>| without_cr(l)),
        decreases last - i,
    {
        let v = chars_of(pieces[i].as_str());
        let end: usize = if v.len() > 0 && v[v.len() - 1] == '\r' {
            v.len() - 1
        } else {
            v.len()
        };
        let line = string_of(&v, 0, end);
        proof {
            assert(p[i as int] == pieces@[i as int]@);
            assert(v@.subrange(0, end as int) =~= without_cr(p[i as int]));
        }
        let ghost before = out@;
        out.push(line);
        proof {
            assert(out@.drop_last() =~= before);
            assert(views(out@) =~= views(before).push(line@));
            assert(views(out@) =~= p.drop_last().take(i + 1).map_values(
                |l: Seq<char>| without_cr(l),
            ));
        }
        i += 1;
    }
    assert(p.drop_last().take(last as int) =~= p.drop_last());
    assert(p.last() == pieces@[last as int]@);
    if !pieces[last].as_str().is_empty() {
        let ghost before = out@;
        out.push(pieces[last].clone());
        assert(out@.drop_last() =~= before);
        assert(views(out@) =~= views(before).push(p.last()));
    }
    out
}

/// Lines without newlines or final carriage returns come back out of their
/// text as they were.
pub proof fn lemma_text_lines_unlines(ls: Seq<Seq<char>>)
    requires
        forall|i: int| 0 <= i < ls.len() ==> !(#[trigger] ls[i]).contains('\n'),
        forall|i: int| 0 <= i < ls.len() ==> without_cr(#[trigger] ls[i]) == ls[i],
    ensures
        text_lines(unlines(ls)) == ls,
{
    lemma_split_unlines(ls);
    let p = split_lines(unlines(ls));
    assert(p.drop_last() =~= ls);
    assert(p.drop_last().map_values(|l: Seq<char>| without_cr(l)) =~= ls);
}

/// What trimming leaves does not end in white space.
pub proof fn lemma_trim_back_last(s: Seq<char>)
    ensures
        trim_back(s).len() > 0 ==> !is_white_space(trim_back(s).last()),
    decreases s.len(),
{
    if s.len() > 0 && is_white_space(s.last()) {
        lemma_trim_back_last(s.drop_last());
    }
}

} // verus!
