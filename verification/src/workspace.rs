//! Workspace rules: which relative paths a write may name, how a reconcile
//! pass turns a file scan into index changes and events, references, event
//! provenance, and bounded context reads.

use vstd::prelude::*;
use crate::text::{
    chars_of, copy_opt_string, copy_string, decode_lossy, has_prefix, owned, str_eq, string_of,
    trim, chars_trim, starts_with, utf8_lossy,
};
use crate::decimal::{decimal, parse_u64, parses_as_u64, is_u64_text, u64_decimal};
use crate::order::{TextRanked, pair_lt, ranked, sort_ranked, text_less};
use crate::discovery::{join_path, path_join};
use crate::text::views_of;

verus! {

/// A refused workspace operation, with its reason.
#[derive(Debug, Clone, PartialEq, Eq)]
pub struct WorkspaceError(pub String);

/// Who caused a workspace change.
#[derive(Debug, Clone, Copy, PartialEq, Eq, Structural)]
pub enum WorkspaceProvenance {
    User,
    Agent,
    Tool,
    Scheduler,
    ExternalFilesystem,
    System,
}

// ---------------------------------------------------------------------------
// Relative paths
// ---------------------------------------------------------------------------

/// The pieces of `s` between `/` separators, empty pieces included.
pub open spec fn segments(s: Seq<char>) -> Seq<Seq<char>>
    decreases s.len(),
{
    if s.len() == 0 {
        seq![Seq::<char>::empty()]
    } else {
        let prev = segments(s.drop_last());
        if s.last() == '/' {
            prev.push(Seq::<char>::empty())
        } else {
            prev.update(prev.len() - 1, prev.last().push(s.last()))
        }
    }
}

proof fn lemma_segments_nonempty(s: Seq<char>)
    ensures
        segments(s).len() >= 1,
    decreases s.len(),
{
    if s.len() > 0 {
        lemma_segments_nonempty(s.drop_last());
    }
}

/// A piece that names a directory or file: neither empty nor `.`.
pub open spec fn is_named(seg: Seq<char>) -> bool {
    seg.len() > 0 && seg != seq!['.']
}

/// The named pieces of `s`, in order: what `Path::components` yields for a
/// relative path after repeated separators and inner `.` pieces drop out.
pub open spec fn named_pieces(segs: Seq<Seq<char>>) -> Seq<Seq<char>>
    decreases segs.len(),
{
    if segs.len() == 0 {
        Seq::empty()
    } else if is_named(segs.last()) {
        named_pieces(segs.drop_last()).push(segs.last())
    } else {
        named_pieces(segs.drop_last())
    }
}

/// A safe relative path: not blank, not absolute, not starting with `.`, and
/// without a `..` piece, so it cannot leave the directory it is joined to.
pub open spec fn safe_relative(s: Seq<char>) -> bool {
    &&& trim(s).len() > 0
    &&& s[0] != '/'
    &&& segments(s)[0] != seq!['.']
    &&& forall|i: int| 0 <= i < segments(s).len() ==> #[trigger] segments(s)[i] != seq!['.', '.']
}

/// The components of a safe relative path.
pub open spec fn components(s: Seq<char>) -> Seq<Seq<char>> {
    named_pieces(segments(s))
}


/// The views of a list of strings.
pub open spec fn texts(v: Seq<String>) -> Seq<Seq<char>> {
    v.map_values(|s: String| s@)
}

fn vec_eq_str(v: &Vec<char>, s: &str) -> (r: bool)
    ensures
        r == (v@ == s@),
{
    let t = string_of(v);
    str_eq(t.as_str(), s)
}

/// The message of a rejected path.
pub open spec fn path_error_text(s: Seq<char>) -> Seq<char> {
    if trim(s).len() == 0 || s[0] == '/' {
        "Expected a non-empty relative path: "@ + s
    } else {
        "Unsafe relative path: "@ + s
    }
}

/// Checks that `value` is a safe relative path and returns its components.
pub fn validate_relative_path(value: &str) -> (r: Result<Vec<String>, WorkspaceError>)
    ensures
        r is Ok <==> safe_relative(value@),
        r matches Ok(c) ==> texts(c@) == components(value@),
        r matches Err(e) ==> e.0@ == path_error_text(value@),
{
    let c = chars_of(value);
    let t = chars_trim(&c);
    if t.len() == 0 || c[0] == '/' {
        let mut m = owned("Expected a non-empty relative path: ");
        m.append(value);
        return Err(WorkspaceError(m));
    }
    let mut done: Vec<Vec<char>> = Vec::new();
    let mut cur: Vec<char> = Vec::new();
    let mut i: usize = 0;
    assert(c@.subrange(0, 0) =~= Seq::<char>::empty());
    assert(done@.map_values(|v: Vec<char>| v@).push(cur@) =~= segments(c@.subrange(0, 0)));
    while i < c.len()
        invariant
            i <= c.len(),
            c@ == value@,
            done@.map_values(|v: Vec<char>| v@).push(cur@) == segments(c@.subrange(0, i as int)),
        decreases c.len() - i,
    {
        let ghost pre = c@.subrange(0, i + 1);
        assert(pre.drop_last() =~= c@.subrange(0, i as int));
        let ghost prev = segments(c@.subrange(0, i as int));
        if c[i] == '/' {
            let finished = cur;
            done.push(finished);
            cur = Vec::new();
            assert(done@.map_values(|v: Vec<char>| v@).push(cur@) =~= prev.push(Seq::<char>::empty()));
        } else {
            let ghost old_cur = cur@;
            cur.push(c[i]);
            assert(done@.map_values(|v: Vec<char>| v@).push(cur@) =~= prev.update(
                prev.len() - 1,
                prev.last().push(c@[i as int]),
            ));
        }
        i = i + 1;
    }
    done.push(cur);
    let ghost segs = done@.map_values(|v: Vec<char>| v@);
    assert(c@.subrange(0, c.len() as int) =~= c@);
    assert(segs == segments(value@));
    let mut unsafe_path = vec_eq_str(&done[0], ".");
    proof {
        reveal_strlit(".");
        assert(seq!['.'] =~= "."@);
    }
    let mut names: Vec<String> = Vec::new();
    let mut j: usize = 0;
    while j < done.len()
        invariant
            j <= done.len(),
            segs == done@.map_values(|v: Vec<char>| v@),
            seq!['.'] == "."@,
            unsafe_path == (segs[0] == seq!['.'] || exists|k: int| 0 <= k < j && segs[k] == seq!['.', '.']),
            texts(names@) == named_pieces(segs.subrange(0, j as int)),
        decreases done.len() - j,
    {
        proof {
            reveal_strlit("..");
            assert(seq!['.', '.'] =~= ".."@);
        }
        assert(segs.subrange(0, j + 1).drop_last() =~= segs.subrange(0, j as int));
        if vec_eq_str(&done[j], "..") {
            unsafe_path = true;
        }
        let named = done[j].len() > 0 && !vec_eq_str(&done[j], ".");
        if named {
            names.push(string_of(&done[j]));
            assert(texts(names@) =~= named_pieces(segs.subrange(0, j as int)).push(segs[j as int]));
        }
        j = j + 1;
    }
    assert(segs.subrange(0, segs.len() as int) =~= segs);
    if unsafe_path {
        let mut m = owned("Unsafe relative path: ");
        m.append(value);
        return Err(WorkspaceError(m));
    }
    Ok(names)
}

/// Paths that belong to Vela itself: anything under `.vela`, and the
/// reference manifest.
pub open spec fn reserved(c: Seq<Seq<char>>) -> bool {
    (c.len() > 0 && c[0] == ".vela"@) || c == seq!["context"@, "REFERENCES.json"@]
}

/// Checks that a write or removal may name `relative_path`, and returns its
/// components.
pub fn writable_path(relative_path: &str) -> (r: Result<Vec<String>, WorkspaceError>)
    ensures
        r is Ok <==> safe_relative(relative_path@) && !reserved(components(relative_path@)),
        r matches Ok(c) ==> texts(c@) == components(relative_path@),
        r matches Err(e) ==> e.0@ == if safe_relative(relative_path@) {
            "Path is reserved by Vela: "@ + relative_path@
        } else {
            path_error_text(relative_path@)
        },
{
    let c = validate_relative_path(relative_path)?;
    let vela = owned(".vela");
    let context = owned("context");
    let manifest = owned("REFERENCES.json");
    let is_reserved = (c.len() > 0 && c[0] == vela) || (c.len() == 2 && c[0] == context && c[1]
        == manifest);
    proof {
        if c.len() == 2 {
            assert(texts(c@) =~= seq![c@[0]@, c@[1]@]);
        }
        if texts(c@) == seq!["context"@, "REFERENCES.json"@] {
            assert(texts(c@).len() == 2);
            assert(c@[0]@ == texts(c@)[0]);
            assert(c@[1]@ == texts(c@)[1]);
        }
    }
    if is_reserved {
        let mut m = owned("Path is reserved by Vela: ");
        m.append(relative_path);
        return Err(WorkspaceError(m));
    }
    Ok(c)
}


// ---------------------------------------------------------------------------
// Index reconciliation
// ---------------------------------------------------------------------------

/// Stable metadata of one scanned file: its source (`workspace` or a
/// reference ID), its path within that source, size and modification time.
#[derive(Debug, Clone, PartialEq, Eq)]
pub struct IndexedFile {
    pub source: String,
    pub path: String,
    pub size_bytes: i64,
    pub modified_at_ns: i64,
}

pub struct FileView {
    pub source: Seq<char>,
    pub path: Seq<char>,
    pub size_bytes: i64,
    pub modified_at_ns: i64,
}

impl View for IndexedFile {
    type V = FileView;

    open spec fn view(&self) -> FileView {
        FileView {
            source: self.source@,
            path: self.path@,
            size_bytes: self.size_bytes,
            modified_at_ns: self.modified_at_ns,
        }
    }
}

/// One change that a reconcile pass makes to the index.
#[derive(Debug, Clone, PartialEq, Eq)]
pub enum IndexChange {
    /// The file is new or its metadata changed.
    Upsert(IndexedFile),
    /// The file is gone.
    Remove { source: String, path: String },
}

pub enum ChangeView {
    Upsert(FileView),
    Remove(Seq<char>, Seq<char>),
}

impl View for IndexChange {
    type V = ChangeView;

    open spec fn view(&self) -> ChangeView {
        match self {
            IndexChange::Upsert(f) => ChangeView::Upsert(f@),
            IndexChange::Remove { source, path } => ChangeView::Remove(source@, path@),
        }
    }
}

/// The index key of a file.
pub open spec fn same_key(a: FileView, b: FileView) -> bool {
    a.source == b.source && a.path == b.path
}

/// The first file of `s` with the key of `f`.
pub open spec fn lookup(s: Seq<FileView>, f: FileView) -> Option<FileView>
    decreases s.len(),
{
    if s.len() == 0 {
        None
    } else if same_key(s[0], f) {
        Some(s[0])
    } else {
        lookup(s.drop_first(), f)
    }
}

/// The files of `current` that are new or changed with respect to `previous`,
/// in scan order.
pub open spec fn upserts(current: Seq<FileView>, previous: Seq<FileView>) -> Seq<ChangeView>
    decreases current.len(),
{
    if current.len() == 0 {
        Seq::empty()
    } else if lookup(previous, current.last()) == Some(current.last()) {
        upserts(current.drop_last(), previous)
    } else {
        upserts(current.drop_last(), previous).push(ChangeView::Upsert(current.last()))
    }
}

/// The indexed files of `previous` that the scan no longer finds, in index order.
pub open spec fn removals(current: Seq<FileView>, previous: Seq<FileView>) -> Seq<ChangeView>
    decreases previous.len(),
{
    if previous.len() == 0 {
        Seq::empty()
    } else if lookup(current, previous.last()) is Some {
        removals(current, previous.drop_last())
    } else {
        removals(current, previous.drop_last()).push(
            ChangeView::Remove(previous.last().source, previous.last().path),
        )
    }
}

/// The changes of a reconcile pass: additions and changes first, then removals.
pub open spec fn reconcile_plan(current: Seq<FileView>, previous: Seq<FileView>) -> Seq<ChangeView> {
    upserts(current, previous) + removals(current, previous)
}

/// The views of a list of files.
pub open spec fn file_views(s: Seq<IndexedFile>) -> Seq<FileView> {
    s.map_values(|f: IndexedFile| f@)
}

fn same_file(a: &IndexedFile, b: &IndexedFile) -> (r: bool)
    ensures
        r == (a@ == b@),
{
    a.source == b.source && a.path == b.path && a.size_bytes == b.size_bytes && a.modified_at_ns
        == b.modified_at_ns
}

fn copy_file(f: &IndexedFile) -> (c: IndexedFile)
    ensures
        c@ == f@,
{
    IndexedFile {
        source: copy_string(&f.source),
        path: copy_string(&f.path),
        size_bytes: f.size_bytes,
        modified_at_ns: f.modified_at_ns,
    }
}

fn find_file(s: &Vec<IndexedFile>, f: &IndexedFile) -> (r: Option<usize>)
    ensures
        match r {
            Some(k) => k < s.len() && lookup(file_views(s@), f@) == Some(file_views(s@)[k as int]),
            None => lookup(file_views(s@), f@) is None,
        },
{
    let ghost v = file_views(s@);
    let mut k: usize = 0;
    assert(v.subrange(0, v.len() as int) =~= v);
    while k < s.len()
        invariant
            k <= s.len(),
            v == file_views(s@),
            lookup(v, f@) == lookup(v.subrange(k as int, v.len() as int), f@),
        decreases s.len() - k,
    {
        let ghost rest = v.subrange(k as int, v.len() as int);
        assert(rest.drop_first() =~= v.subrange(k + 1, v.len() as int));
        if s[k].source == f.source && s[k].path == f.path {
            return Some(k);
        }
        k = k + 1;
    }
    None
}

impl Workspace {
/// The index changes that make `previous` (the index) match `current` (a
/// fresh scan): every new or changed file is written, every vanished file is
/// removed, and unchanged files produce nothing. Each change is logged as a
/// `workspace.file_changed` event for its display path.
pub fn reconcile(&self, current: &Vec<IndexedFile>, previous: &Vec<IndexedFile>) -> (r: Vec<
    IndexChange,
>)
    ensures
        r@.map_values(|c: IndexChange| c@) == reconcile_plan(file_views(current@), file_views(previous@)),
{
    let ghost cur = file_views(current@);
    let ghost prev = file_views(previous@);
    let mut out: Vec<IndexChange> = Vec::new();
    let mut i: usize = 0;
    while i < current.len()
        invariant
            i <= current.len(),
            cur == file_views(current@),
            prev == file_views(previous@),
            out@.map_values(|c: IndexChange| c@) == upserts(cur.subrange(0, i as int), prev),
        decreases current.len() - i,
    {
        assert(cur.subrange(0, i + 1).drop_last() =~= cur.subrange(0, i as int));
        let unchanged = match find_file(previous, &current[i]) {
            Some(k) => same_file(&previous[k], &current[i]),
            None => false,
        };
        if !unchanged {
            out.push(IndexChange::Upsert(copy_file(&current[i])));
            assert(out@.map_values(|c: IndexChange| c@) =~= upserts(cur.subrange(0, i as int), prev).push(
                ChangeView::Upsert(cur[i as int]),
            ));
        }
        i = i + 1;
    }
    assert(cur.subrange(0, cur.len() as int) =~= cur);
    let ghost ups = upserts(cur, prev);
    let mut j: usize = 0;
    while j < previous.len()
        invariant
            j <= previous.len(),
            cur == file_views(current@),
            prev == file_views(previous@),
            ups == upserts(cur, prev),
            out@.map_values(|c: IndexChange| c@) == ups + removals(cur, prev.subrange(0, j as int)),
        decreases previous.len() - j,
    {
        assert(prev.subrange(0, j + 1).drop_last() =~= prev.subrange(0, j as int));
        if find_file(current, &previous[j]).is_none() {
            let ghost before = out@.map_values(|c: IndexChange| c@);
            let change = IndexChange::Remove {
                source: copy_string(&previous[j].source),
                path: copy_string(&previous[j].path),
            };
            assert(change@ == ChangeView::Remove(prev[j as int].source, prev[j as int].path));
            out.push(change);
            assert(out@.map_values(|c: IndexChange| c@) =~= before.push(change@));
            assert(before.push(change@) =~= ups + removals(cur, prev.subrange(0, j as int)).push(
                ChangeView::Remove(prev[j as int].source, prev[j as int].path),
            ));
        }
        j = j + 1;
    }
    assert(prev.subrange(0, prev.len() as int) =~= prev);
    out
}
}


/// No two files of `s` share a key.
pub open spec fn unique_keys(s: Seq<FileView>) -> bool {
    forall|i: int, j: int| 0 <= i < j < s.len() ==> !same_key(s[i], s[j])
}

proof fn lemma_lookup_finds_member(s: Seq<FileView>, i: int)
    requires
        unique_keys(s),
        0 <= i < s.len(),
    ensures
        lookup(s, s[i]) == Some(s[i]),
    decreases s.len(),
{
    if i > 0 {
        assert(!same_key(s[0], s[i]));
        let t = s.drop_first();
        assert(t[i - 1] == s[i]);
        assert(unique_keys(t)) by {
            assert forall|a: int, b: int| 0 <= a < b < t.len() implies !same_key(t[a], t[b]) by {
                assert(t[a] == s[a + 1] && t[b] == s[b + 1]);
            }
        }
        lemma_lookup_finds_member(t, i - 1);
    }
}

/// Self writes do not loop: when the index already matches the scan, a
/// reconcile pass changes nothing and records no event.
pub proof fn law_reconcile_is_quiet_when_index_matches(s: Seq<FileView>)
    requires
        unique_keys(s),
    ensures
        reconcile_plan(s, s) == Seq::<ChangeView>::empty(),
{
    lemma_upserts_empty(s, s, s.len() as int);
    lemma_removals_empty(s, s, s.len() as int);
    assert(s.subrange(0, s.len() as int) =~= s);
}

proof fn lemma_upserts_empty(cur: Seq<FileView>, prev: Seq<FileView>, n: int)
    requires
        unique_keys(prev),
        cur == prev,
        0 <= n <= cur.len(),
    ensures
        upserts(cur.subrange(0, n), prev) == Seq::<ChangeView>::empty(),
    decreases n,
{
    if n > 0 {
        let c = cur.subrange(0, n);
        assert(c.drop_last() =~= cur.subrange(0, n - 1));
        lemma_upserts_empty(cur, prev, n - 1);
        lemma_lookup_finds_member(prev, n - 1);
    }
}

proof fn lemma_removals_empty(cur: Seq<FileView>, prev: Seq<FileView>, n: int)
    requires
        unique_keys(prev),
        cur == prev,
        0 <= n <= prev.len(),
    ensures
        removals(cur, prev.subrange(0, n)) == Seq::<ChangeView>::empty(),
    decreases n,
{
    if n > 0 {
        let p = prev.subrange(0, n);
        assert(p.drop_last() =~= prev.subrange(0, n - 1));
        lemma_removals_empty(cur, prev, n - 1);
        lemma_lookup_finds_member(cur, n - 1);
    }
}

/// A reconcile pass accounts for every difference and for nothing else: each
/// scanned file that the index lacks or holds with other metadata is written,
/// each indexed file whose key the scan lacks is removed, and every change it
/// makes is one of these.
pub proof fn law_reconcile_changes_exactly_the_differences(cur: Seq<FileView>, prev: Seq<FileView>)
    ensures
        forall|i: int|
            0 <= i < cur.len() && lookup(prev, cur[i]) != Some(cur[i]) ==> upserts(cur, prev).contains(
                ChangeView::Upsert(cur[i]),
            ),
        forall|i: int|
            0 <= i < upserts(cur, prev).len() ==> exists|j: int|
                0 <= j < cur.len() && #[trigger] upserts(cur, prev)[i] == ChangeView::Upsert(cur[j])
                    && lookup(prev, cur[j]) != Some(cur[j]),
        forall|j: int|
            0 <= j < prev.len() && lookup(cur, prev[j]) is None ==> removals(cur, prev).contains(
                ChangeView::Remove(prev[j].source, prev[j].path),
            ),
        forall|i: int|
            0 <= i < removals(cur, prev).len() ==> exists|j: int|
                0 <= j < prev.len() && #[trigger] removals(cur, prev)[i] == ChangeView::Remove(
                    prev[j].source,
                    prev[j].path,
                ) && lookup(cur, prev[j]) is None,
    decreases cur.len() + prev.len(),
{
    if cur.len() > 0 {
        law_reconcile_changes_exactly_the_differences(cur.drop_last(), prev);
        let d = cur.drop_last();
        let u = upserts(d, prev);
        assert forall|i: int| 0 <= i < cur.len() && lookup(prev, cur[i]) != Some(cur[i]) implies upserts(
            cur,
            prev,
        ).contains(ChangeView::Upsert(cur[i])) by {
            if i < cur.len() - 1 {
                assert(d[i] == cur[i]);
                let k = choose|k: int| 0 <= k < u.len() && u[k] == ChangeView::Upsert(d[i]);
                if lookup(prev, cur.last()) != Some(cur.last()) {
                    assert(upserts(cur, prev)[k] == u[k]);
                }
            } else {
                assert(upserts(cur, prev).last() == ChangeView::Upsert(cur[i]));
            }
        }
        assert forall|i: int| 0 <= i < upserts(cur, prev).len() implies exists|j: int|
            0 <= j < cur.len() && #[trigger] upserts(cur, prev)[i] == ChangeView::Upsert(cur[j])
                && lookup(prev, cur[j]) != Some(cur[j]) by {
            if i < u.len() {
                assert(upserts(cur, prev)[i] == u[i]);
                let j = choose|j: int|
                    0 <= j < d.len() && #[trigger] u[i] == ChangeView::Upsert(d[j]) && lookup(prev, d[j])
                        != Some(d[j]);
                assert(cur[j] == d[j]);
            } else {
                assert(upserts(cur, prev)[i] == ChangeView::Upsert(cur[cur.len() - 1]));
            }
        }
    } else {
        assert(upserts(cur, prev) == Seq::<ChangeView>::empty());
    }
    lemma_removals_exact(cur, prev);
}

proof fn lemma_removals_exact(cur: Seq<FileView>, prev: Seq<FileView>)
    ensures
        forall|j: int|
            0 <= j < prev.len() && lookup(cur, prev[j]) is None ==> removals(cur, prev).contains(
                ChangeView::Remove(prev[j].source, prev[j].path),
            ),
        forall|i: int|
            0 <= i < removals(cur, prev).len() ==> exists|j: int|
                0 <= j < prev.len() && #[trigger] removals(cur, prev)[i] == ChangeView::Remove(
                    prev[j].source,
                    prev[j].path,
                ) && lookup(cur, prev[j]) is None,
    decreases prev.len(),
{
    if prev.len() > 0 {
        let d = prev.drop_last();
        lemma_removals_exact(cur, d);
        let r = removals(cur, d);
        assert forall|j: int| 0 <= j < prev.len() && lookup(cur, prev[j]) is None implies removals(
            cur,
            prev,
        ).contains(ChangeView::Remove(prev[j].source, prev[j].path)) by {
            if j < prev.len() - 1 {
                assert(d[j] == prev[j]);
                let k = choose|k: int| 0 <= k < r.len() && r[k] == ChangeView::Remove(d[j].source, d[j].path);
                if lookup(cur, prev.last()) is None {
                    assert(removals(cur, prev)[k] == r[k]);
                }
            } else {
                assert(removals(cur, prev).last() == ChangeView::Remove(prev[j].source, prev[j].path));
            }
        }
        assert forall|i: int| 0 <= i < removals(cur, prev).len() implies exists|j: int|
            0 <= j < prev.len() && #[trigger] removals(cur, prev)[i] == ChangeView::Remove(
                prev[j].source,
                prev[j].path,
            ) && lookup(cur, prev[j]) is None by {
            if i < r.len() {
                assert(removals(cur, prev)[i] == r[i]);
                let j = choose|j: int|
                    0 <= j < d.len() && #[trigger] r[i] == ChangeView::Remove(d[j].source, d[j].path)
                        && lookup(cur, d[j]) is None;
                assert(prev[j] == d[j]);
            } else {
                let j = prev.len() - 1;
                assert(removals(cur, prev)[i] == ChangeView::Remove(prev[j].source, prev[j].path));
            }
        }
    }
}


// ---------------------------------------------------------------------------
// Names, provenance and paths of index entries
// ---------------------------------------------------------------------------

/// How an index entry is shown: workspace files by their path, reference
/// files as `reference:<id>/<path>`.
pub open spec fn index_path_text(source: Seq<char>, path: Seq<char>) -> Seq<char> {
    if source == "workspace"@ {
        path
    } else {
        "reference:"@ + source + "/"@ + path
    }
}

/// The display path of an index entry.
pub fn display_index_path(source: &str, path: &str) -> (r: String)
    ensures
        r@ == index_path_text(source@, path@),
{
    if str_eq(source, "workspace") {
        owned(path)
    } else {
        let mut s = owned("reference:");
        s.append(source);
        s.append("/");
        s.append(path);
        s
    }
}

/// The stored name of a provenance.
pub open spec fn provenance_text(p: WorkspaceProvenance) -> Seq<char> {
    match p {
        WorkspaceProvenance::User => "user"@,
        WorkspaceProvenance::Agent => "agent"@,
        WorkspaceProvenance::Tool => "tool"@,
        WorkspaceProvenance::Scheduler => "scheduler"@,
        WorkspaceProvenance::ExternalFilesystem => "external_filesystem"@,
        WorkspaceProvenance::System => "system"@,
    }
}

/// The stored name of a provenance.
pub fn provenance_name(provenance: WorkspaceProvenance) -> (r: &'static str)
    ensures
        r@ == provenance_text(provenance),
{
    match provenance {
        WorkspaceProvenance::User => "user",
        WorkspaceProvenance::Agent => "agent",
        WorkspaceProvenance::Tool => "tool",
        WorkspaceProvenance::Scheduler => "scheduler",
        WorkspaceProvenance::ExternalFilesystem => "external_filesystem",
        WorkspaceProvenance::System => "system",
    }
}

/// A stored provenance name read back; unknown names read as `System`.
pub open spec fn provenance_of(v: Seq<char>) -> WorkspaceProvenance {
    if v == "user"@ {
        WorkspaceProvenance::User
    } else if v == "agent"@ {
        WorkspaceProvenance::Agent
    } else if v == "tool"@ {
        WorkspaceProvenance::Tool
    } else if v == "scheduler"@ {
        WorkspaceProvenance::Scheduler
    } else if v == "external_filesystem"@ {
        WorkspaceProvenance::ExternalFilesystem
    } else {
        WorkspaceProvenance::System
    }
}

/// Reads a stored provenance name.
pub fn parse_provenance(value: &str) -> (r: WorkspaceProvenance)
    ensures
        r == provenance_of(value@),
{
    if str_eq(value, "user") {
        WorkspaceProvenance::User
    } else if str_eq(value, "agent") {
        WorkspaceProvenance::Agent
    } else if str_eq(value, "tool") {
        WorkspaceProvenance::Tool
    } else if str_eq(value, "scheduler") {
        WorkspaceProvenance::Scheduler
    } else if str_eq(value, "external_filesystem") {
        WorkspaceProvenance::ExternalFilesystem
    } else {
        WorkspaceProvenance::System
    }
}

/// Directories that scans skip: Vela's own state and common derived trees.
pub open spec fn is_excluded_directory(name: Seq<char>) -> bool {
    name == ".vela"@ || name == ".git"@ || name == ".build"@ || name == "target"@ || name
        == "node_modules"@ || name == ".DS_Store"@
}

/// Whether a scan skips a directory with this name.
pub fn excluded_directory(name: &str) -> (r: bool)
    ensures
        r == is_excluded_directory(name@),
{
    str_eq(name, ".vela") || str_eq(name, ".git") || str_eq(name, ".build") || str_eq(name, "target")
        || str_eq(name, "node_modules") || str_eq(name, ".DS_Store")
}

// ---------------------------------------------------------------------------
// Events and context
// ---------------------------------------------------------------------------

/// One entry of the workspace event log.
#[derive(Debug, Clone, PartialEq, Eq)]
pub struct WorkspaceEvent {
    pub id: u64,
    pub timestamp_ms: u64,
    pub kind: String,
    pub path: Option<String>,
    pub provenance: WorkspaceProvenance,
    pub correlation_id: Option<String>,
}

/// How many events a query may return: the request clamped to 1..=500.
pub fn event_limit(limit: u64) -> (r: u64)
    ensures
        r == if limit < 1 {
            1
        } else if limit > 500 {
            500
        } else {
            limit
        },
{
    if limit < 1 {
        1
    } else if limit > 500 {
        500
    } else {
        limit
    }
}

/// The newest events, read newest first, put back in log order.
pub fn chronological(newest_first: Vec<WorkspaceEvent>) -> (r: Vec<WorkspaceEvent>)
    ensures
        r@ == newest_first@.reverse(),
{
    let mut rest = newest_first;
    let ghost original = rest@;
    let mut out: Vec<WorkspaceEvent> = Vec::new();
    while rest.len() > 0
        invariant
            original.reverse() == out@ + rest@.reverse(),
        decreases rest.len(),
    {
        let ghost before = rest@;
        let e = rest.pop().unwrap();
        out.push(e);
        assert(before =~= rest@.push(e));
        assert(before.reverse() =~= seq![e] + rest@.reverse());
    }
    assert(rest@.reverse() =~= Seq::<WorkspaceEvent>::empty());
    assert(out@ =~= original.reverse());
    out
}

/// The most a context read returns of one file.
pub const CONTEXT_BYTE_LIMIT: usize = 32768;

/// One explicitly requested context file.
#[derive(Debug, Clone, PartialEq, Eq)]
pub struct WorkspaceContextFile {
    pub path: String,
    pub content: String,
    pub truncated: bool,
}

/// The context returned for one scope.
#[derive(Debug, Clone, PartialEq, Eq)]
pub struct WorkspaceContextSlice {
    pub scope: String,
    pub files: Vec<WorkspaceContextFile>,
}

/// `f` shows the file with `bytes` as `path`: at most the first 32 KiB,
/// decoded with replacement characters, and whether anything was cut off.
pub open spec fn bounded_file_ok(f: WorkspaceContextFile, path: Seq<char>, bytes: Seq<u8>) -> bool {
    &&& f.path@ == path
    &&& f.truncated == (bytes.len() > CONTEXT_BYTE_LIMIT)
    &&& f.content@ == utf8_lossy(
        if bytes.len() > CONTEXT_BYTE_LIMIT {
            bytes.subrange(0, CONTEXT_BYTE_LIMIT as int)
        } else {
            bytes
        },
    )
}

/// A bounded context file: at most the first 32 KiB of the file, decoded
/// with replacement characters, and whether anything was cut off.
pub fn context_file(display_path: &str, bytes: &Vec<u8>) -> (r: WorkspaceContextFile)
    ensures
        bounded_file_ok(r, display_path@, bytes@),
{
    let truncated = bytes.len() > CONTEXT_BYTE_LIMIT;
    let n = if truncated {
        CONTEXT_BYTE_LIMIT
    } else {
        bytes.len()
    };
    let mut kept: Vec<u8> = Vec::new();
    let mut i: usize = 0;
    while i < n
        invariant
            i <= n,
            n <= bytes.len(),
            kept@ == bytes@.subrange(0, i as int),
        decreases n - i,
    {
        kept.push(bytes[i]);
        assert(bytes@.subrange(0, i + 1) =~= bytes@.subrange(0, i as int).push(bytes@[i as int]));
        i = i + 1;
    }
    assert(!truncated ==> bytes@.subrange(0, n as int) =~= bytes@);
    WorkspaceContextFile {
        path: owned(display_path),
        content: decode_lossy(kept.as_slice()),
        truncated,
    }
}

/// How a reference file is shown in context: `reference:<id>/<path>`.
pub fn reference_context_path(reference_id: &str, relative_path: &str) -> (r: String)
    ensures
        r@ == "reference:"@ + reference_id@ + "/"@ + relative_path@,
{
    let mut s = owned("reference:");
    s.append(reference_id);
    s.append("/");
    s.append(relative_path);
    s
}

// ---------------------------------------------------------------------------
// References
// ---------------------------------------------------------------------------

/// An external directory that the workspace references by a stable ID.
#[derive(Debug, Clone, PartialEq, Eq)]
pub struct WorkspaceReference {
    pub id: String,
    pub path: String,
    pub added_at_ms: u64,
}

pub struct ReferenceView {
    pub id: Seq<char>,
    pub path: Seq<char>,
    pub added_at_ms: u64,
}

impl View for WorkspaceReference {
    type V = ReferenceView;

    open spec fn view(&self) -> ReferenceView {
        ReferenceView { id: self.id@, path: self.path@, added_at_ms: self.added_at_ms }
    }
}

impl TextRanked for WorkspaceReference {
    open spec fn rank(&self) -> (Seq<char>, Seq<char>) {
        (self.id@, Seq::empty())
    }

    fn ranks_before(&self, other: &Self) -> (r: bool) {
        text_less(self.id.as_str(), other.id.as_str())
    }
}

fn copy_reference(r: &WorkspaceReference) -> (c: WorkspaceReference)
    ensures
        c@ == r@,
        c == *r,
{
    WorkspaceReference { id: copy_string(&r.id), path: copy_string(&r.path), added_at_ms: r.added_at_ms }
}

/// The number in a reference ID of the form `reference-<n>`, if it has one.
pub open spec fn reference_number(id: Seq<char>) -> Option<u64> {
    let rest = id.subrange(10, id.len() as int);
    if has_prefix(id, "reference-"@) && is_u64_text(rest) {
        Some(choose|n: u64| parses_as_u64(rest, n))
    } else {
        None
    }
}

/// The largest reference number among `refs`, or 0.
pub open spec fn max_reference_number(refs: Seq<WorkspaceReference>) -> u64
    decreases refs.len(),
{
    if refs.len() == 0 {
        0
    } else {
        let m = max_reference_number(refs.drop_last());
        match reference_number(refs.last().id@) {
            Some(n) => if n > m {
                n
            } else {
                m
            },
            None => m,
        }
    }
}

proof fn lemma_parse_unique(s: Seq<char>, a: u64, b: u64)
    requires
        parses_as_u64(s, a),
        parses_as_u64(s, b),
    ensures
        a == b,
{
}

/// The largest reference number among `refs`, or 0; a new reference can be
/// numbered only while it is below `u64::MAX`.
pub fn max_number(refs: &Vec<WorkspaceReference>) -> (m: u64)
    ensures
        m == max_reference_number(refs@),
{
    let mut m: u64 = 0;
    let mut i: usize = 0;
    while i < refs.len()
        invariant
            i <= refs.len(),
            m == max_reference_number(refs@.subrange(0, i as int)),
        decreases refs.len() - i,
    {
        assert(refs@.subrange(0, i + 1).drop_last() =~= refs@.subrange(0, i as int));
        let id = chars_of(refs[i].id.as_str());
        if starts_with(&id, "reference-") {
            proof {
                reveal_strlit("reference-");
            }
            let mut rest: Vec<char> = Vec::new();
            let mut j: usize = 10;
            while j < id.len()
                invariant
                    10 <= j <= id.len(),
                    rest@ == id@.subrange(10, j as int),
                decreases id.len() - j,
            {
                rest.push(id[j]);
                assert(id@.subrange(10, j + 1) =~= id@.subrange(10, j as int).push(id@[j as int]));
                j = j + 1;
            }
            match parse_u64(&rest) {
                Some(n) => {
                    proof {
                        let c = choose|k: u64| parses_as_u64(rest@, k);
                        lemma_parse_unique(rest@, n, c);
                    }
                    if n > m {
                        m = n;
                    }
                },
                None => {},
            }
        } else {
            proof {
                reveal_strlit("reference-");
            }
        }
        i = i + 1;
    }
    assert(refs@.subrange(0, refs@.len() as int) =~= refs@);
    m
}

impl Workspace {
/// Adds a reference to the directory at canonical `path`: the workspace
/// root cannot reference itself, a directory is referenced at most once, the
/// new ID is one past the largest existing reference number, and the list
/// stays ordered by ID.
pub fn add_reference(
    &self,
    references: Vec<WorkspaceReference>,
    path: &str,
    added_at_ms: u64,
) -> (r: Result<(Vec<WorkspaceReference>, WorkspaceReference), WorkspaceError>)
    requires
        max_reference_number(references@) < u64::MAX,
    ensures
        path@ == self.root_spec() ==> (r matches Err(e) && e.0@ == "Workspace root cannot reference itself"@),
        path@ != self.root_spec() && (exists|i: int| 0 <= i < references@.len() && #[trigger] references@[i].path@ == path@)
            ==> (r matches Err(e) && e.0@ == "Reference already exists: "@ + path@),
        path@ != self.root_spec() && !(exists|i: int| 0 <= i < references@.len() && #[trigger] references@[i].path@ == path@)
            ==> (r matches Ok((all, added)) && {
            &&& added@ == (ReferenceView {
                id: "reference-"@ + decimal((max_reference_number(references@) + 1) as nat),
                path: path@,
                added_at_ms,
            })
            &&& all@.to_multiset() == references@.push(added).to_multiset()
            &&& ranked(all@)
        }),
{
    let root = self.root.as_str();
    if str_eq(path, root) {
        return Err(WorkspaceError(owned("Workspace root cannot reference itself")));
    }
    let mut i: usize = 0;
    while i < references.len()
        invariant
            i <= references.len(),
            path@ != root@,
            root@ == self.root_spec(),
            forall|j: int| 0 <= j < i ==> references@[j].path@ != path@,
        decreases references.len() - i,
    {
        if str_eq(references[i].path.as_str(), path) {
            let mut m = owned("Reference already exists: ");
            m.append(path);
            return Err(WorkspaceError(m));
        }
        i = i + 1;
    }
    let next = max_number(&references) + 1;
    let mut id = owned("reference-");
    id.append(string_of(&u64_decimal(next)).as_str());
    let added = WorkspaceReference { id, path: owned(path), added_at_ms };
    let mut all = references;
    let ghost before = all@;
    all.push(copy_reference(&added));
    let sorted = sort_ranked(all);
    Ok((sorted, added))
}

/// Removes the reference with `reference_id`, returning the remaining list and
/// the removed entry; referenced content itself is never touched.
pub fn remove_reference(&self, references: Vec<WorkspaceReference>, reference_id: &str) -> (r: Result<
    (Vec<WorkspaceReference>, WorkspaceReference),
    WorkspaceError,
>)
    ensures
        (forall|i: int| 0 <= i < references@.len() ==> #[trigger] references@[i].id@ != reference_id@)
            ==> (r matches Err(e) && e.0@ == "Unknown reference: "@ + reference_id@),
        forall|k: int|
            0 <= k < references@.len() && references@[k].id@ == reference_id@ && (forall|i: int|
                0 <= i < k ==> #[trigger] references@[i].id@ != reference_id@) ==> (r matches Ok(
                (rest, removed),
            ) && removed == references@[k] && rest@ == references@.remove(k)),
{
    let mut i: usize = 0;
    while i < references.len()
        invariant
            i <= references.len(),
            forall|j: int| 0 <= j < i ==> references@[j].id@ != reference_id@,
        decreases references.len() - i,
    {
        if str_eq(references[i].id.as_str(), reference_id) {
            let mut rest = references;
            let removed = rest.remove(i);
            return Ok((rest, removed));
        }
        i = i + 1;
    }
    let mut m = owned("Unknown reference: ");
    m.append(reference_id);
    Err(WorkspaceError(m))
}
}

/// The reference with `reference_id`.
pub fn find_reference(references: &Vec<WorkspaceReference>, reference_id: &str) -> (r: Result<
    WorkspaceReference,
    WorkspaceError,
>)
    ensures
        (forall|i: int| 0 <= i < references@.len() ==> #[trigger] references@[i].id@ != reference_id@)
            ==> (r matches Err(e) && e.0@ == "Unknown reference: "@ + reference_id@),
        forall|k: int|
            0 <= k < references@.len() && references@[k].id@ == reference_id@ && (forall|i: int|
                0 <= i < k ==> #[trigger] references@[i].id@ != reference_id@) ==> (r matches Ok(found)
                && found == references@[k]),
{
    let mut i: usize = 0;
    while i < references.len()
        invariant
            i <= references.len(),
            forall|j: int| 0 <= j < i ==> references@[j].id@ != reference_id@,
        decreases references.len() - i,
    {
        if str_eq(references[i].id.as_str(), reference_id) {
            return Ok(copy_reference(&references[i]));
        }
        i = i + 1;
    }
    let mut m = owned("Unknown reference: ");
    m.append(reference_id);
    Err(WorkspaceError(m))
}


// ---------------------------------------------------------------------------
// The workspace
// ---------------------------------------------------------------------------

/// Where the index lives, relative to the workspace root.
pub open spec fn database_relative_path() -> Seq<char> {
    ".vela/index.sqlite3"@
}

/// An open workspace: its canonical root, the path of its index database,
/// and when it was created.
#[derive(Debug)]
pub struct Workspace {
    root: String,
    database_path: String,
    created_at_ms: u64,
}

impl Workspace {
    /// The canonical root.
    pub closed spec fn root_spec(&self) -> Seq<char> {
        self.root@
    }

    /// The index database path.
    pub closed spec fn database_spec(&self) -> Seq<char> {
        self.database_path@
    }

    /// When the workspace was created.
    pub closed spec fn created_spec(&self) -> u64 {
        self.created_at_ms
    }

    /// The workspace at canonical `root`, created at `created_at_ms`; its
    /// index is `.vela/index.sqlite3` under the root.
    pub fn new(root: &str, created_at_ms: u64) -> (r: Self)
        ensures
            r.root_spec() == root@,
            r.database_spec() == path_join(root@, database_relative_path()),
            r.created_spec() == created_at_ms,
    {
        Workspace {
            root: owned(root),
            database_path: join_path(root, ".vela/index.sqlite3"),
            created_at_ms,
        }
    }

    /// The canonical root.
    pub fn root(&self) -> (r: &str)
        ensures
            r@ == self.root_spec(),
    {
        self.root.as_str()
    }

    /// The index database path.
    pub fn database_path(&self) -> (r: &str)
        ensures
            r@ == self.database_spec(),
    {
        self.database_path.as_str()
    }

    /// When the workspace was created.
    pub fn created_at_ms(&self) -> (r: u64)
        ensures
            r == self.created_spec(),
    {
        self.created_at_ms
    }

    /// The log entry for an event that the index stored as row `id` at
    /// `timestamp_ms`.
    pub fn record_event(
        &self,
        id: u64,
        timestamp_ms: u64,
        kind: &str,
        path: Option<&str>,
        provenance: WorkspaceProvenance,
        correlation_id: Option<&str>,
    ) -> (r: WorkspaceEvent)
        ensures
            r.id == id,
            r.timestamp_ms == timestamp_ms,
            r.kind@ == kind@,
            opt_str(r.path) == opt_ref(path),
            r.provenance == provenance,
            opt_str(r.correlation_id) == opt_ref(correlation_id),
    {
        WorkspaceEvent {
            id,
            timestamp_ms,
            kind: owned(kind),
            path: match path {
                Some(p) => Some(owned(p)),
                None => None,
            },
            provenance,
            correlation_id: match correlation_id {
                Some(c) => Some(owned(c)),
                None => None,
            },
        }
    }

    /// The latest events, read from the log newest first, in log order.
    pub fn events(&self, newest_first: Vec<WorkspaceEvent>) -> (r: Vec<WorkspaceEvent>)
        ensures
            r@ == newest_first@.reverse(),
    {
        chronological(newest_first)
    }

    /// The rows a rebuilt index holds: every scanned file ordered by source
    /// and path, and every reference ordered by ID.
    pub fn rebuild_index(&self, files: Vec<IndexedFile>, references: Vec<WorkspaceReference>) -> (r: (
        Vec<IndexedFile>,
        Vec<WorkspaceReference>,
    ))
        ensures
            r.0@.to_multiset() == files@.to_multiset(),
            ranked(r.0@),
            r.1@.to_multiset() == references@.to_multiset(),
            ranked(r.1@),
    {
        (sort_ranked(files), sort_ranked(references))
    }

    /// The `status` context: `STATUS.md` then `INBOX.md`, each bounded.
    pub fn context_status(&self, status: &Vec<u8>, inbox: &Vec<u8>) -> (r: WorkspaceContextSlice)
        ensures
            r.scope@ == "status"@,
            r.files@.len() == 2,
            bounded_file_ok(r.files@[0], "STATUS.md"@, status@),
            bounded_file_ok(r.files@[1], "INBOX.md"@, inbox@),
    {
        let mut files: Vec<WorkspaceContextFile> = Vec::new();
        files.push(context_file("STATUS.md", status));
        files.push(context_file("INBOX.md", inbox));
        WorkspaceContextSlice { scope: owned("status"), files }
    }

    /// The `workspace_path` context: the bounded file at `relative_path`.
    pub fn context_workspace_path(&self, relative_path: &str, bytes: &Vec<u8>) -> (r:
        WorkspaceContextSlice)
        ensures
            r.scope@ == "workspace_path"@,
            r.files@.len() == 1,
            bounded_file_ok(r.files@[0], relative_path@, bytes@),
    {
        let mut files: Vec<WorkspaceContextFile> = Vec::new();
        files.push(context_file(relative_path, bytes));
        WorkspaceContextSlice { scope: owned("workspace_path"), files }
    }

    /// The `reference_path` context: the bounded file at `relative_path`
    /// under reference `reference_id`, shown as `reference:<id>/<path>`.
    pub fn context_reference_path(&self, reference_id: &str, relative_path: &str, bytes: &Vec<u8>) -> (r:
        WorkspaceContextSlice)
        ensures
            r.scope@ == "reference_path"@,
            r.files@.len() == 1,
            bounded_file_ok(
                r.files@[0],
                "reference:"@ + reference_id@ + "/"@ + relative_path@,
                bytes@,
            ),
    {
        let display = reference_context_path(reference_id, relative_path);
        let mut files: Vec<WorkspaceContextFile> = Vec::new();
        files.push(context_file(display.as_str(), bytes));
        WorkspaceContextSlice { scope: owned("reference_path"), files }
    }
}

/// The text of an optional string.
pub open spec fn opt_str(o: Option<String>) -> Option<Seq<char>> {
    match o {
        Some(s) => Some(s@),
        None => None,
    }
}

/// The text of an optional string slice.
pub open spec fn opt_ref(o: Option<&str>) -> Option<Seq<char>> {
    match o {
        Some(s) => Some(s@),
        None => None,
    }
}

impl TextRanked for IndexedFile {
    open spec fn rank(&self) -> (Seq<char>, Seq<char>) {
        (self.source@, self.path@)
    }

    fn ranks_before(&self, other: &Self) -> (r: bool) {
        text_less(self.source.as_str(), other.source.as_str()) || (str_eq(
            self.source.as_str(),
            other.source.as_str(),
        ) && text_less(self.path.as_str(), other.path.as_str()))
    }
}

/// The directories every workspace has.
pub fn workspace_directories() -> (r: Vec<String>)
    ensures
        views_of(r@) == seq![
            "projects"@,
            "tasks"@,
            "notes"@,
            "context"@,
            "decisions"@,
            "evidence"@,
        ],
{
    let mut v: Vec<String> = Vec::new();
    v.push(owned("projects"));
    v.push(owned("tasks"));
    v.push(owned("notes"));
    v.push(owned("context"));
    v.push(owned("decisions"));
    v.push(owned("evidence"));
    assert(views_of(v@) =~= seq![
        "projects"@,
        "tasks"@,
        "notes"@,
        "context"@,
        "decisions"@,
        "evidence"@,
    ]);
    v
}

/// What a new `STATUS.md` holds.
pub fn status_template() -> (r: String)
    ensures
        r@ == "# Status\n\n## Active focus\n\n- None\n\n## Blockers\n\n- None\n\n## Next actions\n\n- Define the next useful action.\n"@,
{
    owned("# Status\n\n## Active focus\n\n- None\n\n## Blockers\n\n- None\n\n## Next actions\n\n- Define the next useful action.\n")
}

/// What a new `INBOX.md` holds.
pub fn inbox_template() -> (r: String)
    ensures
        r@ == "# Inbox\n\nCapture unprocessed notes and requests here.\n"@,
{
    owned("# Inbox\n\nCapture unprocessed notes and requests here.\n")
}

/// Accepts workspace metadata of version 1 only.
pub fn check_metadata_version(version: u16) -> (r: Result<(), WorkspaceError>)
    ensures
        version == 1 ==> r is Ok,
        version != 1 ==> (r matches Err(e) && e.0@ == "Unsupported workspace metadata version: "@
            + decimal(version as nat)),
{
    if version == 1 {
        Ok(())
    } else {
        let mut m = owned("Unsupported workspace metadata version: ");
        m.append(string_of(&u64_decimal(version as u64)).as_str());
        Err(WorkspaceError(m))
    }
}

/// What opening a workspace does to its index.
#[derive(Debug, Clone, PartialEq, Eq)]
pub enum IndexAction {
    /// Build the index from scratch and log `kind`, as the system.
    Rebuild { kind: String },
    /// Bring the existing index up to date with what changed on disk.
    Reconcile,
}

/// Opening a workspace without an index builds one, logged as
/// `workspace.created` for a new workspace and `workspace.index_rebuilt`
/// otherwise; an existing index is reconciled with the files on disk.
pub fn open_index_action(new_workspace: bool, new_index: bool) -> (r: IndexAction)
    ensures
        !new_index ==> r is Reconcile,
        new_index && new_workspace ==> (r matches IndexAction::Rebuild { kind } && kind@
            == "workspace.created"@),
        new_index && !new_workspace ==> (r matches IndexAction::Rebuild { kind } && kind@
            == "workspace.index_rebuilt"@),
{
    if new_index {
        IndexAction::Rebuild {
            kind: owned(
                if new_workspace {
                    "workspace.created"
                } else {
                    "workspace.index_rebuilt"
                },
            ),
        }
    } else {
        IndexAction::Reconcile
    }
}


/// What a client sees of an open workspace.
#[derive(Debug, Clone, PartialEq, Eq)]
pub struct WorkspaceSnapshot {
    pub root: String,
    pub created_at_ms: u64,
    pub status_markdown: String,
    pub inbox_markdown: String,
    pub references: Vec<WorkspaceReference>,
    pub indexed_file_count: u64,
    pub last_event_id: Option<u64>,
}

impl Workspace {
    /// The snapshot of this workspace, given its status and inbox text, its
    /// references (listed ordered by ID), and what the index counts.
    pub fn snapshot(
        &self,
        status_markdown: String,
        inbox_markdown: String,
        references: Vec<WorkspaceReference>,
        indexed_file_count: u64,
        last_event_id: Option<u64>,
    ) -> (r: WorkspaceSnapshot)
        ensures
            r.root@ == self.root_spec(),
            r.created_at_ms == self.created_spec(),
            r.status_markdown == status_markdown,
            r.inbox_markdown == inbox_markdown,
            r.references@.to_multiset() == references@.to_multiset(),
            ranked(r.references@),
            r.indexed_file_count == indexed_file_count,
            r.last_event_id == last_event_id,
    {
        WorkspaceSnapshot {
            root: copy_string(&self.root),
            created_at_ms: self.created_at_ms,
            status_markdown,
            inbox_markdown,
            references: sort_ranked(references),
            indexed_file_count,
            last_event_id,
        }
    }
}

} // verus!
