//! The dataset builder: from the example sources to the ordered catalog, and
//! the text form in which the catalog is stored and read back.
use vstd::prelude::*;
use vstd::string::*;
use crate::example::{records_view, ExampleData, ExampleView};
use crate::parser::{base_name, extract_metadata, file_name_of, metadata_of};
use crate::text::chars_of;

verus! {

/// One candidate source file: its logical path and its text.
#[derive(Debug, Clone)]
pub struct SourceFile {
    pub path: String,
    pub content: String,
}

/// Why a dataset could not be built.
#[derive(Debug, Clone)]
pub enum BuildError {
    /// Two accepted examples derive the same id.
    DuplicateId(String),
}

/// Whether the file at `path` is looked at: an example source (`.rs`) other
/// than the module index.
pub open spec fn is_candidate(path: Seq<char>) -> bool {
    let n = base_name(path);
    n.len() > 3 && n.skip(n.len() - 3) == ".rs"@ && n != "mod.rs"@
}

/// The records that the files yield, in the order of the files.
pub open spec fn records_of(files: Seq<SourceFile>) -> Seq<ExampleView>
    decreases files.len(),
{
    if files.len() == 0 {
        Seq::empty()
    } else {
        let prev = records_of(files.drop_last());
        let f = files.last();
        if is_candidate(f.path@) && metadata_of(f.content@, f.path@) is Some {
            prev.push(metadata_of(f.content@, f.path@)->0)
        } else {
            prev
        }
    }
}

/// No two records share an id.
pub open spec fn ids_unique(rs: Seq<ExampleView>) -> bool {
    forall|i: int, j: int| 0 <= i < j < rs.len() ==> #[trigger] rs[i].id != #[trigger] rs[j].id
}

/// Whether the example at `path` is looked at.
pub fn is_example_source(path: &str) -> (r: bool)
    ensures
        r == is_candidate(path@),
{
    let n = chars_of(file_name_of(path).as_str());
    let ext = chars_of(".rs");
    let index = chars_of("mod.rs");
    if n.len() <= 3 {
        return false;
    }
    let mut k: usize = 0;
    while k < 3
        invariant
            n@ == base_name(path@),
            n.len() > 3,
            ext@ == ".rs"@,
            k <= 3,
            forall|j: int| 0 <= j < k ==> n@[n.len() - 3 + j] == ext@[j],
        decreases 3 - k,
    {
        proof {
            reveal_strlit(".rs");
        }
        if n[n.len() - 3 + k] != ext[k] {
            assert(n@.skip(n.len() - 3)[k as int] != ext@[k as int]);
            return false;
        }
        k += 1;
    }
    proof {
        reveal_strlit(".rs");
    }
    assert(n@.skip(n.len() - 3) =~= ext@);
    if n.len() == index.len() {
        let mut m: usize = 0;
        while m < n.len()
            invariant
                n@ == base_name(path@),
                index@ == "mod.rs"@,
                n@.skip(n.len() - 3) == ".rs"@,
                n.len() > 3,
                n.len() == index.len(),
                m <= n.len(),
                forall|j: int| 0 <= j < m ==> n@[j] == index@[j],
            decreases n.len() - m,
        {
            if n[m] != index[m] {
                assert(n@[m as int] != index@[m as int]);
                return true;
            }
            m += 1;
        }
        assert(n@ =~= index@);
        return false;
    }
    true
}

/// The records that `files` yield, in their order, with their ids checked
/// to be distinct.
pub fn collect_examples(files: &Vec<SourceFile>) -> (r: Result<Vec<ExampleData>, BuildError>)
    ensures
        r is Ok <==> ids_unique(records_of(files@)),
        r matches Ok(v) ==> records_view(v@) == records_of(files@) && forall|i: int|
            0 <= i < v.len() ==> #[trigger] v@[i].highlighted_html@ == v@[i].html@,
        r matches Err(BuildError::DuplicateId(id)) ==> exists|i: int, j: int|
            0 <= i < j < records_of(files@).len() && records_of(files@)[i].id == id@
                && records_of(files@)[j].id == id@,
{
    let mut out: Vec<ExampleData> = Vec::new();
    let mut i: usize = 0;
    while i < files.len()
        invariant
            i <= files.len(),
            records_view(out@) == records_of(files@.take(i as int)),
            forall|k: int| 0 <= k < out.len() ==> #[trigger] out@[k].highlighted_html@ == out@[k].html@,
        decreases files.len() - i,
    {
        assert(files@.take(i + 1).drop_last() =~= files@.take(i as int));
        if is_example_source(files[i].path.as_str()) {
            match extract_metadata(files[i].content.as_str(), files[i].path.as_str()) {
                Some(e) => {
                    out.push(e);
                    assert(records_view(out@) =~= records_of(files@.take(i as int)).push(e@));
                },
                None => {},
            }
        }
        i += 1;
    }
    assert(files@.take(files.len() as int) =~= files@);
    let mut a: usize = 0;
    while a < out.len()
        invariant
            records_view(out@) == records_of(files@),
            a <= out.len(),
            forall|x: int, y: int| 0 <= x < y < out.len() && x < a ==> #[trigger] out@[x].id@ != #[trigger] out@[y].id@,
        decreases out.len() - a,
    {
        let mut b: usize = a + 1;
        while b < out.len()
            invariant
                records_view(out@) == records_of(files@),
                a < out.len(),
                a + 1 <= b <= out.len(),
                forall|x: int, y: int| 0 <= x < y < out.len() && x < a ==> #[trigger] out@[x].id@ != #[trigger] out@[y].id@,
                forall|y: int| a < y < b ==> out@[a as int].id@ != #[trigger] out@[y].id@,
            decreases out.len() - b,
        {
            if out[a].id == out[b].id {
                assert(records_view(out@)[a as int].id == out@[a as int].id@);
                assert(records_view(out@)[b as int].id == out@[b as int].id@);
                return Err(BuildError::DuplicateId(out[a].id.clone()));
            }
            b += 1;
        }
        a += 1;
    }
    assert forall|x: int, y: int| 0 <= x < y < records_of(files@).len() implies #[trigger] records_of(files@)[x].id != #[trigger] records_of(files@)[y].id by {
        assert(records_view(out@)[x].id == out@[x].id@);
        assert(records_view(out@)[y].id == out@[y].id@);
    }
    Ok(out)
}

/// Lexicographic order on paths, character by character.
pub open spec fn path_le(a: Seq<char>, b: Seq<char>) -> bool
    decreases a.len(),
{
    if a.len() == 0 {
        true
    } else if b.len() == 0 {
        false
    } else if a[0] != b[0] {
        a[0] < b[0]
    } else {
        path_le(a.skip(1), b.skip(1))
    }
}

/// Any two paths are ordered one way or the other.
pub proof fn lemma_path_le_total(a: Seq<char>, b: Seq<char>)
    ensures
        path_le(a, b) || path_le(b, a),
    decreases a.len(),
{
    if a.len() > 0 && b.len() > 0 && a[0] == b[0] {
        lemma_path_le_total(a.skip(1), b.skip(1));
    }
}

/// The path order is transitive.
pub proof fn lemma_path_le_transitive(a: Seq<char>, b: Seq<char>, c: Seq<char>)
    requires
        path_le(a, b),
        path_le(b, c),
    ensures
        path_le(a, c),
    decreases a.len(),
{
    if a.len() > 0 && b.len() > 0 && c.len() > 0 && a[0] == b[0] && b[0] == c[0] {
        lemma_path_le_transitive(a.skip(1), b.skip(1), c.skip(1));
    }
}

/// Every path comes no later than itself.
pub proof fn lemma_path_le_reflexive(a: Seq<char>)
    ensures
        path_le(a, a),
    decreases a.len(),
{
    if a.len() > 0 {
        lemma_path_le_reflexive(a.skip(1));
    }
}

/// Files in lexicographic order of their paths.
pub open spec fn sorted_by_path(fs: Seq<SourceFile>) -> bool {
    forall|i: int, j: int| 0 <= i < j < fs.len() ==> path_le(#[trigger] fs[i].path@, #[trigger] fs[j].path@)
}

/// Whether path `a` comes no later than path `b`.
pub fn path_precedes(a: &str, b: &str) -> (r: bool)
    ensures
        r == path_le(a@, b@),
{
    let x = chars_of(a);
    let y = chars_of(b);
    let mut i: usize = 0;
    assert(x@.skip(0) =~= x@);
    assert(y@.skip(0) =~= y@);
    while i < x.len() && i < y.len() && x[i] == y[i]
        invariant
            i <= x.len(),
            i <= y.len(),
            path_le(x@, y@) == path_le(x@.skip(i as int), y@.skip(i as int)),
        decreases x.len() - i,
    {
        assert(x@.skip(i as int).skip(1) =~= x@.skip(i + 1));
        assert(y@.skip(i as int).skip(1) =~= y@.skip(i + 1));
        i += 1;
    }
    if i == x.len() {
        true
    } else if i == y.len() {
        false
    } else {
        assert(x@.skip(i as int)[0] == x@[i as int]);
        assert(y@.skip(i as int)[0] == y@[i as int]);
        x[i] < y[i]
    }
}

proof fn lemma_insert_to_multiset(s: Seq<SourceFile>, k: int, x: SourceFile)
    requires
        0 <= k <= s.len(),
    ensures
        s.insert(k, x).to_multiset() == s.to_multiset().insert(x),
{
    broadcast use vstd::seq_lib::group_to_multiset_ensures;

    let t = s.insert(k, x);
    assert(t.remove(k) =~= s);
    assert(t[k] == x);
    assert(t.to_multiset().count(x) > 0);
    assert(t.to_multiset() =~= s.to_multiset().insert(x));
}

/// The files in lexicographic order of their paths: the build reads a
/// directory in the same order on every platform.
pub fn sort_sources(files: Vec<SourceFile>) -> (r: Vec<SourceFile>)
    ensures
        sorted_by_path(r@),
        r@.to_multiset() == files@.to_multiset(),
{
    broadcast use vstd::seq_lib::group_to_multiset_ensures;

    let ghost original = files@;
    let mut rest = files;
    let mut out: Vec<SourceFile> = Vec::new();
    assert(out@.to_multiset().add(rest@.to_multiset()) =~= original.to_multiset());
    while rest.len() > 0
        invariant
            sorted_by_path(out@),
            out@.to_multiset().add(rest@.to_multiset()) == original.to_multiset(),
        decreases rest.len(),
    {
        let ghost before_rest = rest@;
        let f = rest.pop().unwrap();
        assert(before_rest =~= rest@.push(f));
        let mut k: usize = 0;
        while k < out.len() && path_precedes(out[k].path.as_str(), f.path.as_str())
            invariant
                k <= out.len(),
                before_rest == rest@.push(f),
                sorted_by_path(out@),
                out@.to_multiset().add(before_rest.to_multiset()) == original.to_multiset(),
                forall|j: int| 0 <= j < k ==> path_le((#[trigger] out@[j]).path@, f.path@),
            decreases out.len() - k,
        {
            k += 1;
        }
        let ghost before = out@;
        proof {
            if k < before.len() {
                lemma_path_le_total(before[k as int].path@, f.path@);
            }
            lemma_insert_to_multiset(before, k as int, f);
        }
        out.insert(k, f);
        proof {
            assert forall|i: int, j: int| 0 <= i < j < out@.len() implies path_le(
                #[trigger] out@[i].path@,
                #[trigger] out@[j].path@,
            ) by {
                if j < k {
                    assert(out@[i] == before[i] && out@[j] == before[j]);
                } else if j == k {
                    assert(out@[i] == before[i]);
                } else if i == k {
                    assert(out@[j] == before[j - 1]);
                    if j - 1 > k {
                        assert(path_le(before[k as int].path@, before[j - 1].path@));
                    } else {
                        lemma_path_le_reflexive(before[k as int].path@);
                    }
                    lemma_path_le_transitive(f.path@, before[k as int].path@, before[j - 1].path@);
                } else if i < k {
                    assert(out@[i] == before[i] && out@[j] == before[j - 1]);
                } else {
                    assert(out@[i] == before[i - 1] && out@[j] == before[j - 1]);
                }
            }
            assert(out@ == before.insert(k as int, f));
            assert(out@.to_multiset() == before.to_multiset().insert(f));
            rest@.to_multiset_ensures();
            assert(rest@.push(f).to_multiset() =~= rest@.to_multiset().insert(f));
            assert(before_rest.to_multiset() =~= rest@.to_multiset().insert(f));
            assert(out@.to_multiset().add(rest@.to_multiset()) =~= original.to_multiset());
        }
    }
    assert(rest@ =~= Seq::<SourceFile>::empty());
    assert(out@.to_multiset() =~= original.to_multiset());
    out
}

/// Builds the catalog from the candidate files of the examples directory:
/// they are taken in the order of their paths, the example sources among
/// them are parsed, and the build fails if two examples share an id.
pub fn build_dataset(files: Vec<SourceFile>) -> (r: Result<Vec<ExampleData>, BuildError>)
    ensures
        exists|s: Seq<SourceFile>|
            sorted_by_path(s) && s.to_multiset() == files@.to_multiset() && (r is Ok
                <==> ids_unique(records_of(s))) && (r matches Ok(v) ==> records_view(v@)
                == records_of(s)),
{
    let sorted = sort_sources(files);
    let r = collect_examples(&sorted);
    assert(sorted_by_path(sorted@) && sorted@.to_multiset() == files@.to_multiset());
    r
}

/// A file that yields no record leaves the catalog as it was.
pub proof fn lemma_skipped_file_adds_no_record(files: Seq<SourceFile>, f: SourceFile)
    requires
        metadata_of(f.content@, f.path@) is None,
    ensures
        records_of(files.push(f)) == records_of(files),
{
    assert(files.push(f).drop_last() =~= files);
}

/// Paths ordered both ways are equal.
pub proof fn lemma_path_le_antisymmetric(a: Seq<char>, b: Seq<char>)
    requires
        path_le(a, b),
        path_le(b, a),
    ensures
        a == b,
    decreases a.len(),
{
    if a.len() > 0 && b.len() > 0 {
        lemma_path_le_antisymmetric(a.skip(1), b.skip(1));
        assert(a =~= seq![a[0]] + a.skip(1));
        assert(b =~= seq![b[0]] + b.skip(1));
    }
}

/// No two files share a path, as in one directory.
pub open spec fn paths_distinct(fs: Seq<SourceFile>) -> bool {
    forall|i: int, j: int| 0 <= i < j < fs.len() ==> #[trigger] fs[i].path@ != #[trigger] fs[j].path@
}

proof fn lemma_multiset_index(s: Seq<SourceFile>, x: SourceFile) -> (k: int)
    requires
        s.to_multiset().count(x) > 0,
    ensures
        0 <= k < s.len(),
        s[k] == x,
{
    s.to_multiset_ensures();
    assert(s.contains(x));
    choose|k: int| 0 <= k < s.len() && s[k] == x
}

/// Files in the order of their distinct paths are determined by which files
/// there are.
pub proof fn lemma_sorted_sources_unique(s1: Seq<SourceFile>, s2: Seq<SourceFile>)
    requires
        sorted_by_path(s1),
        sorted_by_path(s2),
        paths_distinct(s1),
        s1.to_multiset() == s2.to_multiset(),
    ensures
        s1 == s2,
    decreases s1.len(),
{
    s1.to_multiset_ensures();
    s2.to_multiset_ensures();
    if s1.len() == 0 {
        assert(s2.len() == 0);
        assert(s1 =~= s2);
    } else {
        let a = s1[0];
        let b = s2[0];
        assert(s1.to_multiset().count(a) > 0);
        assert(s2.to_multiset().count(b) > 0);
        let j = lemma_multiset_index(s1, b);
        let k = lemma_multiset_index(s2, a);
        if j > 0 {
            assert(path_le(s1[0].path@, s1[j].path@));
        } else {
            lemma_path_le_reflexive(a.path@);
        }
        if k > 0 {
            assert(path_le(s2[0].path@, s2[k].path@));
        } else {
            lemma_path_le_reflexive(a.path@);
        }
        lemma_path_le_antisymmetric(a.path@, b.path@);
        assert(a == b) by {
            if j > 0 {
                assert(s1[0].path@ != s1[j].path@);
            }
        }
        let t1 = s1.remove(0);
        let t2 = s2.remove(0);
        assert(t1 =~= s1.skip(1));
        assert(t2 =~= s2.skip(1));
        assert(t1.to_multiset() == t2.to_multiset());
        assert(sorted_by_path(t1)) by {
            assert forall|x: int, y: int| 0 <= x < y < t1.len() implies path_le(
                #[trigger] t1[x].path@,
                #[trigger] t1[y].path@,
            ) by {
                assert(t1[x] == s1[x + 1] && t1[y] == s1[y + 1]);
            }
        }
        assert(sorted_by_path(t2)) by {
            assert forall|x: int, y: int| 0 <= x < y < t2.len() implies path_le(
                #[trigger] t2[x].path@,
                #[trigger] t2[y].path@,
            ) by {
                assert(t2[x] == s2[x + 1] && t2[y] == s2[y + 1]);
            }
        }
        assert(paths_distinct(t1)) by {
            assert forall|x: int, y: int| 0 <= x < y < t1.len() implies #[trigger] t1[x].path@
                != #[trigger] t1[y].path@ by {
                assert(t1[x] == s1[x + 1] && t1[y] == s1[y + 1]);
            }
        }
        lemma_sorted_sources_unique(t1, t2);
        assert(s1 =~= s2) by {
            assert forall|x: int| 0 <= x < s1.len() implies s1[x] == s2[x] by {
                if x > 0 {
                    assert(t1[x - 1] == s1[x] && t2[x - 1] == s2[x]);
                }
            }
        }
    }
}

/// Files with the same multiset of entries have distinct paths together.
proof fn lemma_paths_distinct_transfer(a: Seq<SourceFile>, b: Seq<SourceFile>)
    requires
        paths_distinct(a),
        a.to_multiset() == b.to_multiset(),
    ensures
        paths_distinct(b),
{
    a.to_multiset_ensures();
    b.to_multiset_ensures();
    assert forall|i: int, j: int| 0 <= i < j < b.len() implies #[trigger] b[i].path@
        != #[trigger] b[j].path@ by {
        if b[i].path@ == b[j].path@ {
            let x = b[i];
            let y = b[j];
            assert(b.to_multiset().count(x) > 0);
            let k1 = lemma_multiset_index(a, x);
            if x == y {
                let r = b.remove(j);
                b.to_multiset_ensures();
                assert(r[i] == x);
                r.to_multiset_ensures();
                assert(r.to_multiset().count(x) > 0);
                assert(b.to_multiset().count(x) >= 2);
                let t = a.remove(k1);
                assert(t.to_multiset() =~= a.to_multiset().remove(x));
                t.to_multiset_ensures();
                assert(t.to_multiset().count(x) > 0);
                assert(t.contains(x));
                let k2 = choose|k: int| 0 <= k < t.len() && t[k] == x;
                let k3 = if k2 < k1 { k2 } else { k2 + 1 };
                assert(a[k3] == x);
                if k1 < k3 {
                    assert(a[k1].path@ != a[k3].path@);
                } else {
                    assert(a[k3].path@ != a[k1].path@);
                }
            } else {
                assert(b.to_multiset().count(y) > 0);
                let k2 = lemma_multiset_index(a, y);
                assert(k1 != k2);
                if k1 < k2 {
                    assert(a[k1].path@ != a[k2].path@);
                } else {
                    assert(a[k2].path@ != a[k1].path@);
                }
            }
        }
    }
}

/// The catalog does not depend on the order in which the directory was
/// read: two listings of the same files, with distinct paths, put in path
/// order, build the same records.
pub proof fn lemma_build_is_order_independent(
    files1: Seq<SourceFile>,
    files2: Seq<SourceFile>,
    s1: Seq<SourceFile>,
    s2: Seq<SourceFile>,
)
    requires
        paths_distinct(files1),
        files1.to_multiset() == files2.to_multiset(),
        sorted_by_path(s1),
        s1.to_multiset() == files1.to_multiset(),
        sorted_by_path(s2),
        s2.to_multiset() == files2.to_multiset(),
    ensures
        records_of(s1) == records_of(s2),
{
    lemma_paths_distinct_transfer(files1, s1);
    lemma_sorted_sources_unique(s1, s2);
}

} // verus!
