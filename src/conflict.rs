//! The file-conflict tracker: which tabs are registered on which files, the
//! overlaps between them, and changes made to tracked files from outside.
use vstd::prelude::*;
use crate::types::{ConflictType, FileConflict, TabId};

verus! {

/// A tracked file and the tabs registered on it, in registration order.
pub struct FileEntry {
    pub path: String,
    pub tabs: Vec<TabId>,
}

/// The views of a list of strings.
pub open spec fn strs(v: Seq<String>) -> Seq<Seq<char>> {
    v.map_values(|s: String| s@)
}

impl View for FileEntry {
    type V = (Seq<char>, Seq<Seq<char>>);

    open spec fn view(&self) -> (Seq<char>, Seq<Seq<char>>) {
        (self.path@, strs(self.tabs@))
    }
}

/// A conflict as plain values.
pub struct ConflictModel {
    pub path: Seq<char>,
    pub tabs: Seq<Seq<char>>,
    pub kind: ConflictType,
    pub at: u64,
}

impl View for FileConflict {
    type V = ConflictModel;

    open spec fn view(&self) -> ConflictModel {
        ConflictModel {
            path: self.file_path@,
            tabs: strs(self.tabs_involved@),
            kind: self.conflict_type,
            at: self.detected_at,
        }
    }
}

/// Registration map as plain values: (path, tabs) pairs.
pub type Entries = Seq<(Seq<char>, Seq<Seq<char>>)>;

/// The views of a list of entries.
pub open spec fn entries_of(v: Seq<FileEntry>) -> Entries {
    v.map_values(|e: FileEntry| e@)
}

/// The views of a list of conflicts.
pub open spec fn conflicts_of(v: Seq<FileConflict>) -> Seq<ConflictModel> {
    v.map_values(|c: FileConflict| c@)
}

/// `tabs` without `t`.
pub open spec fn without(tabs: Seq<Seq<char>>, t: Seq<char>) -> Seq<Seq<char>>
    decreases tabs.len(),
{
    if tabs.len() == 0 {
        tabs
    } else if tabs.last() == t {
        without(tabs.drop_last(), t)
    } else {
        without(tabs.drop_last(), t).push(tabs.last())
    }
}

/// The registration map once tab `t` is removed from every file; files left
/// with no tab are dropped.
pub open spec fn drop_tab(es: Entries, t: Seq<char>) -> Entries
    decreases es.len(),
{
    if es.len() == 0 {
        es
    } else {
        let rest = drop_tab(es.drop_last(), t);
        let left = without(es.last().1, t);
        if left.len() == 0 { rest } else { rest.push((es.last().0, left)) }
    }
}

/// Index of the entry for `f`, or -1.
pub open spec fn find(es: Entries, f: Seq<char>) -> int
    decreases es.len(),
{
    if es.len() == 0 {
        -1
    } else if es.last().0 == f {
        es.len() - 1
    } else {
        find(es.drop_last(), f)
    }
}

/// The registration map once tab `t` is registered on `f`.
pub open spec fn add_file(es: Entries, t: Seq<char>, f: Seq<char>) -> Entries {
    let i = find(es, f);
    if i < 0 {
        es.push((f, seq![t]))
    } else if es[i].1.contains(t) {
        es
    } else {
        es.update(i, (f, es[i].1.push(t)))
    }
}

/// The registration map once tab `t` is registered on each of `fs` in turn.
pub open spec fn add_files(es: Entries, t: Seq<char>, fs: Seq<Seq<char>>) -> Entries
    decreases fs.len(),
{
    if fs.len() == 0 {
        es
    } else {
        add_file(add_files(es, t, fs.drop_last()), t, fs.last())
    }
}

/// One ConcurrentEdit conflict, detected at `now`, for each file with two or more tabs.
pub open spec fn concurrent(es: Entries, now: u64) -> Seq<ConflictModel>
    decreases es.len(),
{
    if es.len() == 0 {
        Seq::empty()
    } else if es.last().1.len() >= 2 {
        concurrent(es.drop_last(), now).push(
            ConflictModel { path: es.last().0, tabs: es.last().1, kind: ConflictType::ConcurrentEdit, at: now },
        )
    } else {
        concurrent(es.drop_last(), now)
    }
}

/// The conflicts of `cs` that are not ConcurrentEdit.
pub open spec fn others(cs: Seq<ConflictModel>) -> Seq<ConflictModel>
    decreases cs.len(),
{
    if cs.len() == 0 {
        cs
    } else if cs.last().kind == ConflictType::ConcurrentEdit {
        others(cs.drop_last())
    } else {
        others(cs.drop_last()).push(cs.last())
    }
}

/// The conflicts of `cs` that do not list `t`.
pub open spec fn not_listing(cs: Seq<ConflictModel>, t: Seq<char>) -> Seq<ConflictModel>
    decreases cs.len(),
{
    if cs.len() == 0 {
        cs
    } else if cs.last().tabs.contains(t) {
        not_listing(cs.drop_last(), t)
    } else {
        not_listing(cs.drop_last(), t).push(cs.last())
    }
}

/// The conflicts of `cs` about files other than `f`.
pub open spec fn not_about(cs: Seq<ConflictModel>, f: Seq<char>) -> Seq<ConflictModel>
    decreases cs.len(),
{
    if cs.len() == 0 {
        cs
    } else if cs.last().path == f {
        not_about(cs.drop_last(), f)
    } else {
        not_about(cs.drop_last(), f).push(cs.last())
    }
}

/// The conflicts of `cs` that list `t`.
pub open spec fn listing(cs: Seq<ConflictModel>, t: Seq<char>) -> Seq<ConflictModel>
    decreases cs.len(),
{
    if cs.len() == 0 {
        cs
    } else if cs.last().tabs.contains(t) {
        listing(cs.drop_last(), t).push(cs.last())
    } else {
        listing(cs.drop_last(), t)
    }
}

/// `c` is an ASCII letter.
pub open spec fn is_letter(c: char) -> bool {
    ('a' <= c && c <= 'z') || ('A' <= c && c <= 'Z')
}

/// `p` is absolute: it starts with a slash, or with a drive letter, a colon
/// and a separator.
pub open spec fn is_absolute(p: Seq<char>) -> bool {
    (p.len() > 0 && p[0] == '/') || (p.len() > 2 && is_letter(p[0]) && p[1] == ':' && (p[2] == '/' || p[2] == '\\'))
}

/// `c` with a backslash turned into a slash.
pub open spec fn canon_char(c: char) -> char {
    if c == '\\' { '/' } else { c }
}

/// `p` joined to `base` unless it is absolute, every backslash turned into a slash.
pub open spec fn joined(base: Seq<char>, p: Seq<char>) -> Seq<char> {
    let j = if is_absolute(p) { p } else { base + seq!['/'] + p };
    j.map_values(|c: char| canon_char(c))
}

/// Length of the root of a slash-separated path: 1 for "/", 3 for a drive
/// such as "C:/", 0 for a relative path.
pub open spec fn root_len(s: Seq<char>) -> nat {
    if s.len() > 0 && s[0] == '/' {
        1
    } else if s.len() > 2 && is_letter(s[0]) && s[1] == ':' && s[2] == '/' {
        3
    } else {
        0
    }
}

/// The segments of `s` between slashes (empty ones included).
pub open spec fn split(s: Seq<char>) -> Seq<Seq<char>>
    decreases s.len(),
{
    if s.len() == 0 {
        seq![Seq::<char>::empty()]
    } else if s.last() == '/' {
        split(s.drop_last()).push(Seq::<char>::empty())
    } else {
        let t = split(s.drop_last());
        t.update(t.len() - 1, t.last().push(s.last()))
    }
}

/// The segment stack `r` after reading segment `seg`: empty and "." segments
/// are skipped, ".." drops the last kept segment.
pub open spec fn step(r: Seq<Seq<char>>, seg: Seq<char>) -> Seq<Seq<char>> {
    if seg.len() == 0 || seg == seq!['.'] {
        r
    } else if seg == seq!['.', '.'] {
        if r.len() > 0 { r.drop_last() } else { r }
    } else {
        r.push(seg)
    }
}

/// The segments kept after reading all of `segs`.
pub open spec fn resolve(segs: Seq<Seq<char>>) -> Seq<Seq<char>>
    decreases segs.len(),
{
    if segs.len() == 0 {
        segs
    } else {
        step(resolve(segs.drop_last()), segs.last())
    }
}

/// `segs` joined with slashes.
pub open spec fn join(segs: Seq<Seq<char>>) -> Seq<char>
    decreases segs.len(),
{
    if segs.len() == 0 {
        Seq::empty()
    } else if segs.len() == 1 {
        segs[0]
    } else {
        join(segs.drop_last()) + seq!['/'] + segs.last()
    }
}

/// The key a path is tracked under: made absolute against `base`, separators
/// turned into slashes, and ".", ".." and empty segments resolved.
pub open spec fn normalized(base: Seq<char>, p: Seq<char>) -> Seq<char> {
    let s = joined(base, p);
    let k = root_len(s) as int;
    s.subrange(0, k) + join(resolve(split(s.subrange(k, s.len() as int))))
}

/// The views of a list of character lists.
pub open spec fn char_lists(v: Seq<Vec<char>>) -> Seq<Seq<char>> {
    v.map_values(|c: Vec<char>| c@)
}

/// Whether `c` is an ASCII letter.
fn is_letter_exec(c: char) -> (r: bool)
    ensures
        r == is_letter(c),
{
    ('a' <= c && c <= 'z') || ('A' <= c && c <= 'Z')
}

/// Applies `step` to an executable segment stack.
fn apply_step(stack: &mut Vec<Vec<char>>, seg: Vec<char>)
    ensures
        char_lists(final(stack)@) == step(char_lists(old(stack)@), seg@),
{
    let n = seg.len();
    let dot = n == 1 && seg[0] == '.';
    let dots = n == 2 && seg[0] == '.' && seg[1] == '.';
    proof {
        if n == 1 {
            assert(dot == (seg@ =~= seq!['.']));
        } else {
            assert(seg@.len() != seq!['.'].len());
        }
        if n == 2 {
            assert(dots == (seg@ =~= seq!['.', '.']));
        } else {
            assert(seg@.len() != seq!['.', '.'].len());
        }
    }
    if n == 0 || dot {
    } else if dots {
        if stack.len() > 0 {
            stack.pop();
            assert(char_lists(stack@) =~= char_lists(old(stack)@).drop_last());
        }
    } else {
        let ghost s0 = stack@;
        stack.push(seg);
        assert(char_lists(stack@) =~= char_lists(s0).push(seg@));
    }
}

/// Keys of a list of paths.
pub open spec fn normalized_all(base: Seq<char>, ps: Seq<Seq<char>>) -> Seq<Seq<char>> {
    ps.map_values(|p: Seq<char>| normalized(base, p))
}

/// Paths of `es` are pairwise distinct and every tab list is non-empty and duplicate-free.
pub open spec fn entries_wf(es: Entries) -> bool {
    &&& forall|i: int, j: int| 0 <= i < es.len() && 0 <= j < es.len() && i != j ==> es[i].0 != es[j].0
    &&& forall|i: int| 0 <= i < es.len() ==> (#[trigger] es[i]).1.len() > 0 && es[i].1.no_duplicates()
}

/// Tab `t` is registered on `f`.
pub open spec fn registered(es: Entries, f: Seq<char>, t: Seq<char>) -> bool {
    exists|i: int| 0 <= i < es.len() && (#[trigger] es[i]).0 == f && es[i].1.contains(t)
}

/// The other tabs of `es` registered on `f`.
pub open spec fn others_on(es: Entries, f: Seq<char>, t: Seq<char>) -> Seq<Seq<char>> {
    let i = find(es, f);
    if i < 0 { Seq::empty() } else { without(es[i].1, t) }
}

/// Advisory conflicts for tab `t` about to work on `fs`: for each file on which
/// other tabs are registered, a ConcurrentEdit conflict listing them, at `now`.
pub open spec fn advisory(es: Entries, t: Seq<char>, fs: Seq<Seq<char>>, now: u64) -> Seq<ConflictModel>
    decreases fs.len(),
{
    if fs.len() == 0 {
        Seq::empty()
    } else {
        let rest = advisory(es, t, fs.drop_last(), now);
        let o = others_on(es, fs.last(), t);
        if o.len() == 0 {
            rest
        } else {
            rest.push(ConflictModel { path: fs.last(), tabs: o, kind: ConflictType::ConcurrentEdit, at: now })
        }
    }
}

/// The baseline modification time recorded for `f`, if any.
pub open spec fn baseline(ts: Seq<(Seq<char>, u64)>, f: Seq<char>) -> Option<u64>
    decreases ts.len(),
{
    if ts.len() == 0 {
        None
    } else if ts.last().0 == f {
        Some(ts.last().1)
    } else {
        baseline(ts.drop_last(), f)
    }
}

/// What `without` keeps.
pub proof fn lemma_without(s: Seq<Seq<char>>, t: Seq<char>)
    ensures
        forall|x: Seq<char>| without(s, t).contains(x) <==> s.contains(x) && x != t,
        s.no_duplicates() ==> without(s, t).no_duplicates(),
        without(s, t).len() <= s.len(),
    decreases s.len(),
{
    if s.len() > 0 {
        lemma_without(s.drop_last(), t);
        let w = without(s.drop_last(), t);
        assert forall|x: Seq<char>| s.contains(x) <==> s.drop_last().contains(x) || x == s.last() by {
            if s.contains(x) {
                let i = choose|i: int| 0 <= i < s.len() && s[i] == x;
                if i < s.len() - 1 {
                    assert(s.drop_last()[i] == x);
                }
            }
            if s.drop_last().contains(x) {
                let i = choose|i: int| 0 <= i < s.len() - 1 && s.drop_last()[i] == x;
                assert(s[i] == x);
            }
            if x == s.last() {
                assert(s[s.len() - 1] == x);
            }
        }
        if s.last() != t {
            assert forall|x: Seq<char>| w.push(s.last()).contains(x) <==> w.contains(x) || x == s.last() by {
                if w.push(s.last()).contains(x) {
                    let i = choose|i: int| 0 <= i < w.len() + 1 && w.push(s.last())[i] == x;
                    if i < w.len() {
                        assert(w[i] == x);
                    }
                }
                if w.contains(x) {
                    let i = choose|i: int| 0 <= i < w.len() && w[i] == x;
                    assert(w.push(s.last())[i] == x);
                }
                if x == s.last() {
                    assert(w.push(s.last())[w.len() as int] == x);
                }
            }
            if s.no_duplicates() {
                assert(!s.drop_last().contains(s.last())) by {
                    if s.drop_last().contains(s.last()) {
                        let i = choose|i: int| 0 <= i < s.len() - 1 && s.drop_last()[i] == s.last();
                        assert(s[i] == s[s.len() - 1]);
                    }
                }
                assert(s.drop_last().no_duplicates()) by {
                    assert forall|i: int, j: int| 0 <= i < s.len() - 1 && 0 <= j < s.len() - 1 && i != j
                        implies s.drop_last()[i] != s.drop_last()[j] by {
                        assert(s[i] != s[j]);
                    }
                }
                assert forall|i: int, j: int| 0 <= i < w.len() + 1 && 0 <= j < w.len() + 1 && i != j
                    implies w.push(s.last())[i] != w.push(s.last())[j] by {
                    if i == w.len() {
                        assert(w.contains(w.push(s.last())[j]));
                    } else if j == w.len() {
                        assert(w.contains(w.push(s.last())[i]));
                    }
                }
            }
        }
    }
}

/// `find` locates the entry of a path when there is one.
pub proof fn lemma_find(es: Entries, f: Seq<char>)
    ensures
        -1 <= find(es, f) < es.len(),
        find(es, f) >= 0 ==> es[find(es, f)].0 == f,
        find(es, f) < 0 ==> forall|i: int| 0 <= i < es.len() ==> (#[trigger] es[i]).0 != f,
    decreases es.len(),
{
    if es.len() > 0 {
        lemma_find(es.drop_last(), f);
        assert forall|i: int| 0 <= i < es.len() - 1 implies es.drop_last()[i] == es[i] by {}
    }
}

/// Removing a tab keeps the registration map well formed and unregisters
/// exactly that tab.
pub proof fn lemma_drop_tab(es: Entries, t: Seq<char>)
    requires
        entries_wf(es),
    ensures
        entries_wf(drop_tab(es, t)),
        forall|k: int| 0 <= k < drop_tab(es, t).len() ==> exists|j: int| 0 <= j < es.len()
            && (#[trigger] drop_tab(es, t)[k]).0 == es[j].0,
        forall|f: Seq<char>, u: Seq<char>| #[trigger] registered(drop_tab(es, t), f, u) <==> registered(es, f, u) && u != t,
    decreases es.len(),
{
    if es.len() > 0 {
        let e0 = es.drop_last();
        assert forall|i: int| 0 <= i < e0.len() implies e0[i] == es[i] by {}
        assert(entries_wf(e0));
        lemma_drop_tab(e0, t);
        let rest = drop_tab(e0, t);
        let left = without(es.last().1, t);
        lemma_without(es.last().1, t);
        let d = drop_tab(es, t);
        assert forall|f: Seq<char>, u: Seq<char>| registered(es, f, u) <==> registered(e0, f, u)
            || (es.last().0 == f && es.last().1.contains(u)) by {
            if registered(es, f, u) {
                let i = choose|i: int| 0 <= i < es.len() && (#[trigger] es[i]).0 == f && es[i].1.contains(u);
                if i < es.len() - 1 {
                    assert(e0[i] == es[i]);
                }
            }
            if registered(e0, f, u) {
                let i = choose|i: int| 0 <= i < e0.len() && (#[trigger] e0[i]).0 == f && e0[i].1.contains(u);
                assert(es[i] == e0[i]);
            }
            if es.last().0 == f && es.last().1.contains(u) {
                assert(es[es.len() - 1] == es.last());
            }
        }
        if left.len() > 0 {
            assert forall|k: int| 0 <= k < d.len() implies exists|j: int| 0 <= j < es.len()
                && (#[trigger] d[k]).0 == es[j].0 by {
                if k < rest.len() {
                    assert(d[k] == rest[k]);
                    let j = choose|j: int| 0 <= j < e0.len() && (#[trigger] rest[k]).0 == e0[j].0;
                    assert(es[j] == e0[j]);
                } else {
                    assert(d[k].0 == es[es.len() - 1].0);
                }
            }
            assert forall|k: int| 0 <= k < rest.len() implies (#[trigger] rest[k]).0 != es.last().0 by {
                let j = choose|j: int| 0 <= j < e0.len() && (#[trigger] rest[k]).0 == e0[j].0;
                assert(es[j] == e0[j]);
                assert(j != es.len() - 1);
            }
            assert forall|i: int, j: int| 0 <= i < d.len() && 0 <= j < d.len() && i != j implies d[i].0 != d[j].0 by {
                if i < rest.len() && j < rest.len() {
                    assert(d[i] == rest[i] && d[j] == rest[j]);
                } else if i < rest.len() {
                    assert(d[i] == rest[i]);
                } else {
                    assert(d[j] == rest[j]);
                }
            }
            assert(es[es.len() - 1] == es.last());
            assert forall|i: int| 0 <= i < d.len() implies (#[trigger] d[i]).1.len() > 0 && d[i].1.no_duplicates() by {
                if i < rest.len() {
                    assert(d[i] == rest[i]);
                }
            }
            assert forall|f: Seq<char>, u: Seq<char>| registered(d, f, u) <==> registered(es, f, u) && u != t by {
                if registered(d, f, u) {
                    let i = choose|i: int| 0 <= i < d.len() && (#[trigger] d[i]).0 == f && d[i].1.contains(u);
                    if i < rest.len() {
                        assert(d[i] == rest[i]);
                        assert(registered(rest, f, u));
                    } else {
                        assert(d[i] == (es.last().0, left));
                        assert(left.contains(u));
                    }
                }
                if registered(e0, f, u) && u != t {
                    assert(registered(rest, f, u));
                }
                if registered(rest, f, u) {
                    let i = choose|i: int| 0 <= i < rest.len() && (#[trigger] rest[i]).0 == f && rest[i].1.contains(u);
                    assert(d[i] == rest[i]);
                }
                if es.last().0 == f && es.last().1.contains(u) && u != t {
                    assert(d[d.len() - 1] == (f, left));
                }
            }
        } else {
            assert forall|k: int| 0 <= k < d.len() implies exists|j: int| 0 <= j < es.len()
                && (#[trigger] d[k]).0 == es[j].0 by {
                let j = choose|j: int| 0 <= j < e0.len() && (#[trigger] rest[k]).0 == e0[j].0;
                assert(es[j] == e0[j]);
            }
            assert forall|u: Seq<char>| #[trigger] es.last().1.contains(u) implies u == t by {
                if u != t {
                    assert(left.contains(u));
                }
            }
        }
    }
}

/// Registering a tab on one file keeps the map well formed and adds exactly that pair.
pub proof fn lemma_add_file(es: Entries, t: Seq<char>, f: Seq<char>)
    requires
        entries_wf(es),
    ensures
        entries_wf(add_file(es, t, f)),
        forall|g: Seq<char>, u: Seq<char>| #[trigger] registered(add_file(es, t, f), g, u)
            <==> registered(es, g, u) || (u == t && g == f),
{
    lemma_find(es, f);
    let i = find(es, f);
    let a = add_file(es, t, f);
    if i < 0 {
        assert forall|x: int| 0 <= x < es.len() implies a[x] == es[x] by {}
        assert(seq![t].contains(t)) by {
            assert(seq![t][0] == t);
        }
        assert forall|g: Seq<char>, u: Seq<char>| registered(a, g, u) <==> registered(es, g, u) || (u == t && g == f) by {
            if registered(a, g, u) {
                let x = choose|x: int| 0 <= x < a.len() && (#[trigger] a[x]).0 == g && a[x].1.contains(u);
                if x == es.len() {
                    let y = choose|y: int| 0 <= y < 1 && seq![t][y] == u;
                }
            }
            if registered(es, g, u) {
                let x = choose|x: int| 0 <= x < es.len() && (#[trigger] es[x]).0 == g && es[x].1.contains(u);
                assert(a[x] == es[x]);
            }
            if u == t && g == f {
                assert(a[es.len() as int] == (f, seq![t]));
            }
        }
    } else if es[i].1.contains(t) {
    } else {
        let tabs = es[i].1;
        assert forall|u: Seq<char>| tabs.push(t).contains(u) <==> tabs.contains(u) || u == t by {
            if tabs.push(t).contains(u) {
                let x = choose|x: int| 0 <= x < tabs.len() + 1 && tabs.push(t)[x] == u;
                if x < tabs.len() {
                    assert(tabs[x] == u);
                }
            }
            if tabs.contains(u) {
                let x = choose|x: int| 0 <= x < tabs.len() && tabs[x] == u;
                assert(tabs.push(t)[x] == u);
            }
            if u == t {
                assert(tabs.push(t)[tabs.len() as int] == u);
            }
        }
        assert(tabs.push(t).no_duplicates()) by {
            assert forall|x: int, y: int| 0 <= x < tabs.len() + 1 && 0 <= y < tabs.len() + 1 && x != y
                implies tabs.push(t)[x] != tabs.push(t)[y] by {
                if x == tabs.len() {
                    assert(tabs.contains(tabs[y]));
                } else if y == tabs.len() {
                    assert(tabs.contains(tabs[x]));
                }
            }
        }
        assert forall|g: Seq<char>, u: Seq<char>| registered(a, g, u) <==> registered(es, g, u) || (u == t && g == f) by {
            if registered(a, g, u) {
                let x = choose|x: int| 0 <= x < a.len() && (#[trigger] a[x]).0 == g && a[x].1.contains(u);
                if x != i {
                    assert(a[x] == es[x]);
                }
            }
            if registered(es, g, u) {
                let x = choose|x: int| 0 <= x < es.len() && (#[trigger] es[x]).0 == g && es[x].1.contains(u);
                if x != i {
                    assert(a[x] == es[x]);
                } else {
                    assert(a[x].1.contains(u));
                }
            }
            if u == t && g == f {
                assert(a[i].1.contains(u));
            }
        }
    }
}

/// Registering a tab on a list of files keeps the map well formed and adds
/// exactly those pairs.
pub proof fn lemma_add_files(es: Entries, t: Seq<char>, fs: Seq<Seq<char>>)
    requires
        entries_wf(es),
    ensures
        entries_wf(add_files(es, t, fs)),
        forall|g: Seq<char>, u: Seq<char>| #[trigger] registered(add_files(es, t, fs), g, u)
            <==> registered(es, g, u) || (u == t && fs.contains(g)),
    decreases fs.len(),
{
    if fs.len() > 0 {
        let f0 = fs.drop_last();
        lemma_add_files(es, t, f0);
        lemma_add_file(add_files(es, t, f0), t, fs.last());
        assert forall|g: Seq<char>| fs.contains(g) <==> f0.contains(g) || g == fs.last() by {
            if fs.contains(g) {
                let x = choose|x: int| 0 <= x < fs.len() && fs[x] == g;
                if x < f0.len() {
                    assert(f0[x] == g);
                }
            }
            if f0.contains(g) {
                let x = choose|x: int| 0 <= x < f0.len() && f0[x] == g;
                assert(fs[x] == g);
            }
            if g == fs.last() {
                assert(fs[fs.len() - 1] == g);
            }
        }
    }
}

/// Does `v` hold a string equal to `t`?
pub fn contains_string(v: &Vec<String>, t: &String) -> (r: bool)
    ensures
        r == strs(v@).contains(t@),
{
    let mut k: usize = 0;
    while k < v.len()
        invariant
            k <= v@.len(),
            forall|j: int| 0 <= j < k ==> v@[j]@ != t@,
        decreases v.len() - k,
    {
        if v[k] == *t {
            assert(strs(v@)[k as int] == t@);
            return true;
        }
        k = k + 1;
    }
    proof {
        if strs(v@).contains(t@) {
            let j = choose|j: int| 0 <= j < strs(v@).len() && strs(v@)[j] == t@;
            assert(v@[j]@ == t@);
        }
    }
    false
}

/// Copies of the strings of `tabs` other than `t`.
fn without_exec(tabs: &Vec<String>, t: &String) -> (r: Vec<String>)
    ensures
        strs(r@) == without(strs(tabs@), t@),
{
    let mut out: Vec<String> = Vec::new();
    let mut k: usize = 0;
    while k < tabs.len()
        invariant
            k <= tabs@.len(),
            strs(out@) == without(strs(tabs@.subrange(0, k as int)), t@),
        decreases tabs.len() - k,
    {
        assert(strs(tabs@.subrange(0, k + 1)).drop_last() =~= strs(tabs@.subrange(0, k as int)));
        if tabs[k] != *t {
            out.push(tabs[k].clone());
        }
        assert(strs(out@) =~= without(strs(tabs@.subrange(0, k + 1)), t@));
        k = k + 1;
    }
    assert(tabs@.subrange(0, tabs@.len() as int) =~= tabs@);
    out
}

/// Appends the characters of `s` to `out`, each backslash turned into a slash.
fn push_canon(out: &mut Vec<char>, s: &str)
    ensures
        final(out)@ == old(out)@ + s@.map_values(|c: char| canon_char(c)),
{
    let n = s.unicode_len();
    let mut k: usize = 0;
    while k < n
        invariant
            n == s@.len(),
            k <= n,
            out@ == old(out)@ + s@.subrange(0, k as int).map_values(|c: char| canon_char(c)),
        decreases n - k,
    {
        let c = s.get_char(k);
        out.push(if c == '\\' { '/' } else { c });
        assert(s@.subrange(0, k + 1).map_values(|c: char| canon_char(c))
            =~= s@.subrange(0, k as int).map_values(|c: char| canon_char(c)).push(canon_char(c)));
        k = k + 1;
    }
    assert(s@.subrange(0, n as int) =~= s@);
}

/// A copy of a conflict.
fn clone_conflict(c: &FileConflict) -> (r: FileConflict)
    ensures
        r@ == c@,
{
    FileConflict {
        file_path: c.file_path.clone(),
        tabs_involved: crate::types::clone_strings(&c.tabs_involved),
        conflict_type: c.conflict_type,
        detected_at: c.detected_at,
    }
}

/// Keys of the files tab `t` is registered on, in map order.
pub open spec fn files_of(es: Entries, t: Seq<char>) -> Seq<Seq<char>>
    decreases es.len(),
{
    if es.len() == 0 {
        Seq::empty()
    } else if es.last().1.contains(t) {
        files_of(es.drop_last(), t).push(es.last().0)
    } else {
        files_of(es.drop_last(), t)
    }
}

/// Once a prefix of `cs` holds a conflict listing `t`, so does `cs`.
pub proof fn lemma_listing_grows(cs: Seq<ConflictModel>, t: Seq<char>, k: int)
    requires
        0 < k <= cs.len(),
        cs[k - 1].tabs.contains(t),
    ensures
        listing(cs, t).len() > 0,
    decreases cs.len(),
{
    if cs.len() > k {
        lemma_listing_grows(cs.drop_last(), t, k);
    }
}

/// What `concurrent` holds: one ConcurrentEdit conflict per entry with two or
/// more tabs, with distinct paths when the entries have distinct paths.
pub proof fn lemma_concurrent(es: Entries, now: u64)
    requires
        entries_wf(es),
    ensures
        forall|k: int| 0 <= k < concurrent(es, now).len() ==> (#[trigger] concurrent(es, now)[k]).kind
            == ConflictType::ConcurrentEdit && exists|j: int| 0 <= j < es.len()
            && concurrent(es, now)[k].path == (#[trigger] es[j]).0,
        forall|a: int, b: int| 0 <= a < concurrent(es, now).len() && 0 <= b < concurrent(es, now).len() && a != b
            ==> concurrent(es, now)[a].path != concurrent(es, now)[b].path,
        forall|j: int| 0 <= j < es.len() && (#[trigger] es[j]).1.len() >= 2 ==> concurrent(es, now).contains(
            ConflictModel { path: es[j].0, tabs: es[j].1, kind: ConflictType::ConcurrentEdit, at: now }),
    decreases es.len(),
{
    if es.len() > 0 {
        let e0 = es.drop_last();
        assert forall|i: int| 0 <= i < e0.len() implies e0[i] == es[i] by {}
        assert(entries_wf(e0));
        lemma_concurrent(e0, now);
        let c0 = concurrent(e0, now);
        let c = concurrent(es, now);
        let last = es[es.len() - 1];
        assert(last == es.last());
        if last.1.len() >= 2 {
            let m = ConflictModel { path: last.0, tabs: last.1, kind: ConflictType::ConcurrentEdit, at: now };
            assert(c == c0.push(m));
            assert forall|k: int| 0 <= k < c.len() implies (#[trigger] c[k]).kind == ConflictType::ConcurrentEdit
                && exists|j: int| 0 <= j < es.len() && c[k].path == (#[trigger] es[j]).0 by {
                if k < c0.len() {
                    assert(c[k] == c0[k]);
                    let j = choose|j: int| 0 <= j < e0.len() && c0[k].path == (#[trigger] e0[j]).0;
                    assert(es[j] == e0[j]);
                } else {
                    assert(c[k].path == es[es.len() - 1].0);
                }
            }
            assert forall|k: int| 0 <= k < c0.len() implies (#[trigger] c0[k]).path != last.0 by {
                let j = choose|j: int| 0 <= j < e0.len() && c0[k].path == (#[trigger] e0[j]).0;
                assert(es[j] == e0[j]);
                assert(j != es.len() - 1);
            }
            assert forall|a: int, b: int| 0 <= a < c.len() && 0 <= b < c.len() && a != b
                implies c[a].path != c[b].path by {
                if a < c0.len() && b < c0.len() {
                    assert(c[a] == c0[a] && c[b] == c0[b]);
                } else if a < c0.len() {
                    assert(c[a] == c0[a]);
                } else {
                    assert(c[b] == c0[b]);
                }
            }
            assert forall|j: int| 0 <= j < es.len() && (#[trigger] es[j]).1.len() >= 2 implies c.contains(
                ConflictModel { path: es[j].0, tabs: es[j].1, kind: ConflictType::ConcurrentEdit, at: now }) by {
                if j < e0.len() {
                    assert(e0[j] == es[j]);
                    let mj = ConflictModel { path: es[j].0, tabs: es[j].1, kind: ConflictType::ConcurrentEdit, at: now };
                    assert(c0.contains(mj));
                    let x = choose|x: int| 0 <= x < c0.len() && c0[x] == mj;
                    assert(c[x] == mj);
                } else {
                    assert(c[c0.len() as int] == m);
                }
            }
        } else {
            assert forall|k: int| 0 <= k < c.len() implies (#[trigger] c[k]).kind == ConflictType::ConcurrentEdit
                && exists|j: int| 0 <= j < es.len() && c[k].path == (#[trigger] es[j]).0 by {
                let j = choose|j: int| 0 <= j < e0.len() && c0[k].path == (#[trigger] e0[j]).0;
                assert(es[j] == e0[j]);
            }
            assert forall|j: int| 0 <= j < es.len() && (#[trigger] es[j]).1.len() >= 2 implies c.contains(
                ConflictModel { path: es[j].0, tabs: es[j].1, kind: ConflictType::ConcurrentEdit, at: now }) by {
                assert(j < e0.len());
                assert(e0[j] == es[j]);
            }
        }
    }
}

/// `others` keeps no ConcurrentEdit conflict.
pub proof fn lemma_others(cs: Seq<ConflictModel>)
    ensures
        forall|k: int| 0 <= k < others(cs).len() ==> (#[trigger] others(cs)[k]).kind != ConflictType::ConcurrentEdit,
    decreases cs.len(),
{
    if cs.len() > 0 {
        lemma_others(cs.drop_last());
        let o0 = others(cs.drop_last());
        assert forall|k: int| 0 <= k < others(cs).len() implies (#[trigger] others(cs)[k]).kind != ConflictType::ConcurrentEdit by {
            if k < o0.len() {
                assert(others(cs)[k] == o0[k]);
            }
        }
    }
}

/// A conflict survives `not_listing` exactly when it does not list `t`.
pub proof fn lemma_not_listing(cs: Seq<ConflictModel>, t: Seq<char>)
    ensures
        forall|c: ConflictModel| not_listing(cs, t).contains(c) <==> cs.contains(c) && !c.tabs.contains(t),
    decreases cs.len(),
{
    if cs.len() > 0 {
        let c0 = cs.drop_last();
        lemma_not_listing(c0, t);
        let n0 = not_listing(c0, t);
        let n = not_listing(cs, t);
        let last = cs[cs.len() - 1];
        assert(last == cs.last());
        assert forall|c: ConflictModel| n.contains(c) <==> cs.contains(c) && !c.tabs.contains(t) by {
            assert forall|y: int| 0 <= y < c0.len() implies c0[y] == cs[y] by {}
            if last.tabs.contains(t) {
                assert(n == n0);
                if n.contains(c) {
                    assert(n0.contains(c));
                    assert(c0.contains(c));
                    let y = choose|y: int| 0 <= y < c0.len() && c0[y] == c;
                    assert(cs[y] == c);
                }
                if cs.contains(c) && !c.tabs.contains(t) {
                    let y = choose|y: int| 0 <= y < cs.len() && cs[y] == c;
                    assert(y != cs.len() - 1);
                    assert(c0[y] == c);
                    assert(c0.contains(c));
                    assert(n0.contains(c));
                }
            } else {
                assert(n == n0.push(last));
                if n.contains(c) {
                    let x = choose|x: int| 0 <= x < n.len() && n[x] == c;
                    if x < n0.len() {
                        assert(n[x] == n0[x]);
                        assert(n0.contains(c));
                        assert(c0.contains(c));
                        let y = choose|y: int| 0 <= y < c0.len() && c0[y] == c;
                        assert(cs[y] == c);
                    } else {
                        assert(cs[cs.len() - 1] == c);
                    }
                }
                if cs.contains(c) && !c.tabs.contains(t) {
                    let y = choose|y: int| 0 <= y < cs.len() && cs[y] == c;
                    if y < cs.len() - 1 {
                        assert(c0[y] == c);
                        assert(c0.contains(c));
                        assert(n0.contains(c));
                        let x = choose|x: int| 0 <= x < n0.len() && n0[x] == c;
                        assert(n[x] == c);
                    } else {
                        assert(n[n.len() - 1] == c);
                    }
                }
            }
        }
    }
}

/// Unregistering a tab removes every conflict that lists it and no other.
pub proof fn lemma_unregister_removes_exactly(before: ConflictDetector, after: ConflictDetector, t: Seq<char>)
    requires
        after.conflicts() == not_listing(before.conflicts(), t),
    ensures
        forall|c: ConflictModel| #[trigger] after.conflicts().contains(c)
            <==> before.conflicts().contains(c) && !c.tabs.contains(t),
{
    lemma_not_listing(before.conflicts(), t);
    assert forall|c: ConflictModel| #[trigger] after.conflicts().contains(c)
        <==> before.conflicts().contains(c) && !c.tabs.contains(t) by {
        assert(not_listing(before.conflicts(), t).contains(c) <==> before.conflicts().contains(c) && !c.tabs.contains(t));
    }
}

/// `would_conflict` reads only the registrations and the base directory (it
/// takes the tracker by shared reference, so it changes nothing): asked at two
/// times between which no registration changed, it gives the same answer.
pub proof fn lemma_would_conflict_stable(
    d1: ConflictDetector,
    d2: ConflictDetector,
    t: Seq<char>,
    files: Seq<Seq<char>>,
    now: u64,
    r1: Seq<ConflictModel>,
    r2: Seq<ConflictModel>,
)
    requires
        d1.entries() == d2.entries(),
        d1.base() == d2.base(),
        r1 == advisory(d1.entries(), t, normalized_all(d1.base(), files), now),
        r2 == advisory(d2.entries(), t, normalized_all(d2.base(), files), now),
    ensures
        r1 == r2,
{
}

/// After tab `a` and then tab `b` register file lists that both hold key `f`,
/// there is exactly one ConcurrentEdit conflict about `f`, and it lists both tabs.
pub proof fn lemma_shared_file_one_conflict(
    d0: ConflictDetector,
    d1: ConflictDetector,
    d2: ConflictDetector,
    a: Seq<char>,
    b: Seq<char>,
    fa: Seq<Seq<char>>,
    fb: Seq<Seq<char>>,
    f: Seq<char>,
    now1: u64,
    now2: u64,
)
    requires
        d0.wf(),
        a != b,
        d1.entries() == add_files(drop_tab(d0.entries(), a), a, fa),
        d1.conflicts() == others(d0.conflicts()) + concurrent(d1.entries(), now1),
        d2.entries() == add_files(drop_tab(d1.entries(), b), b, fb),
        d2.conflicts() == others(d1.conflicts()) + concurrent(d2.entries(), now2),
        fa.contains(f),
        fb.contains(f),
    ensures
        exists|k: int| 0 <= k < d2.conflicts().len() && (#[trigger] d2.conflicts()[k]).kind == ConflictType::ConcurrentEdit
            && d2.conflicts()[k].path == f && d2.conflicts()[k].tabs.contains(a) && d2.conflicts()[k].tabs.contains(b),
        forall|k1: int, k2: int| 0 <= k1 < d2.conflicts().len() && 0 <= k2 < d2.conflicts().len()
            && (#[trigger] d2.conflicts()[k1]).kind == ConflictType::ConcurrentEdit && d2.conflicts()[k1].path == f
            && (#[trigger] d2.conflicts()[k2]).kind == ConflictType::ConcurrentEdit && d2.conflicts()[k2].path == f
            ==> k1 == k2,
{
    lemma_drop_tab(d0.entries(), a);
    lemma_add_files(drop_tab(d0.entries(), a), a, fa);
    lemma_drop_tab(d1.entries(), b);
    lemma_add_files(drop_tab(d1.entries(), b), b, fb);
    let es = d2.entries();
    assert(registered(d1.entries(), f, a));
    assert(registered(drop_tab(d1.entries(), b), f, a));
    assert(registered(es, f, a));
    assert(registered(es, f, b));
    let ja = choose|j: int| 0 <= j < es.len() && (#[trigger] es[j]).0 == f && es[j].1.contains(a);
    let jb = choose|j: int| 0 <= j < es.len() && (#[trigger] es[j]).0 == f && es[j].1.contains(b);
    assert(ja == jb);
    let tabs = es[ja].1;
    let xa = choose|x: int| 0 <= x < tabs.len() && tabs[x] == a;
    let xb = choose|x: int| 0 <= x < tabs.len() && tabs[x] == b;
    assert(xa != xb);
    assert(tabs.len() >= 2);
    lemma_concurrent(es, now2);
    lemma_others(d1.conflicts());
    let o = others(d1.conflicts());
    let c = concurrent(es, now2);
    let m = ConflictModel { path: f, tabs, kind: ConflictType::ConcurrentEdit, at: now2 };
    assert(c.contains(m));
    let x = choose|x: int| 0 <= x < c.len() && c[x] == m;
    assert(d2.conflicts()[o.len() + x] == m);
    assert forall|k1: int, k2: int| 0 <= k1 < d2.conflicts().len() && 0 <= k2 < d2.conflicts().len()
        && (#[trigger] d2.conflicts()[k1]).kind == ConflictType::ConcurrentEdit && d2.conflicts()[k1].path == f
        && (#[trigger] d2.conflicts()[k2]).kind == ConflictType::ConcurrentEdit && d2.conflicts()[k2].path == f
        implies k1 == k2 by {
        if k1 < o.len() {
            assert(d2.conflicts()[k1] == o[k1]);
        }
        if k2 < o.len() {
            assert(d2.conflicts()[k2] == o[k2]);
        }
        if k1 >= o.len() && k2 >= o.len() {
            assert(d2.conflicts()[k1] == c[k1 - o.len()]);
            assert(d2.conflicts()[k2] == c[k2 - o.len()]);
        }
    }
}

/// Tracks file registrations per tab and the conflicts among them.
pub struct ConflictDetector {
    base_dir: String,
    entries: Vec<FileEntry>,
    conflicts: Vec<FileConflict>,
    file_timestamps: Vec<(String, u64)>,
}

impl ConflictDetector {
    /// The registration map.
    pub closed spec fn entries(&self) -> Entries {
        entries_of(self.entries@)
    }

    /// The current conflicts, in detection order.
    pub closed spec fn conflicts(&self) -> Seq<ConflictModel> {
        conflicts_of(self.conflicts@)
    }

    /// The directory relative paths are joined to.
    pub closed spec fn base(&self) -> Seq<char> {
        self.base_dir@
    }

    /// Recorded modification times, by key.
    pub closed spec fn stamps(&self) -> Seq<(Seq<char>, u64)> {
        self.file_timestamps@.map_values(|e: (String, u64)| (e.0@, e.1))
    }

    /// The tracker's invariant.
    pub open spec fn wf(&self) -> bool {
        entries_wf(self.entries())
    }

    /// A tracker with nothing registered that resolves relative paths against
    /// the root directory "/"; `with_base_dir` takes another directory.
    pub fn new() -> (r: ConflictDetector)
        ensures
            r.wf(),
            r.entries().len() == 0,
            r.conflicts().len() == 0,
            r.stamps().len() == 0,
            r.base() == seq!['/'],
    {
        proof {
            reveal_strlit("/");
        }
        let r = ConflictDetector::with_base_dir(String::from_str("/"));
        assert(r.base() =~= seq!['/']);
        r
    }

    /// A tracker with nothing registered that joins relative paths to `base_dir`.
    pub fn with_base_dir(base_dir: String) -> (r: ConflictDetector)
        ensures
            r.wf(),
            r.entries().len() == 0,
            r.conflicts().len() == 0,
            r.stamps().len() == 0,
            r.base() == base_dir@,
    {
        let r = ConflictDetector { base_dir, entries: Vec::new(), conflicts: Vec::new(), file_timestamps: Vec::new() };
        assert(entries_of(r.entries@) =~= Seq::empty());
        assert(conflicts_of(r.conflicts@) =~= Seq::empty());
        assert(r.stamps() =~= Seq::empty());
        r
    }

    /// The key `path` is tracked under.
    pub fn normalize_path(&self, path: &str) -> (r: String)
        ensures
            r@ == normalized(self.base(), path@),
    {
        let n = path.unicode_len();
        let absolute = (n > 0 && path.get_char(0) == '/') || (n > 2 && is_letter_exec(path.get_char(0))
            && path.get_char(1) == ':' && (path.get_char(2) == '/' || path.get_char(2) == '\\'));
        let mut chars: Vec<char> = Vec::new();
        if absolute {
            push_canon(&mut chars, path);
            assert(chars@ =~= path@.map_values(|c: char| canon_char(c)));
        } else {
            push_canon(&mut chars, self.base_dir.as_str());
            chars.push('/');
            push_canon(&mut chars, path);
            assert(chars@ =~= (self.base_dir@ + seq!['/'] + path@).map_values(|c: char| canon_char(c)));
        }
        let ghost s = chars@;
        let m = chars.len();
        let root: usize = if m > 0 && chars[0] == '/' {
            1
        } else if m > 2 && is_letter_exec(chars[0]) && chars[1] == ':' && chars[2] == '/' {
            3
        } else {
            0
        };
        let ghost rest = s.subrange(root as int, m as int);
        let mut stack: Vec<Vec<char>> = Vec::new();
        let mut cur: Vec<char> = Vec::new();
        let mut k: usize = root;
        assert(rest.subrange(0, 0) =~= Seq::<char>::empty());
        assert(char_lists(stack@) =~= Seq::<Seq<char>>::empty());
        while k < m
            invariant
                s == chars@,
                m == s.len(),
                root <= k <= m,
                rest == s.subrange(root as int, m as int),
                char_lists(stack@) == resolve(split(rest.subrange(0, k - root)).drop_last()),
                cur@ == split(rest.subrange(0, k - root)).last(),
                split(rest.subrange(0, k - root)).len() > 0,
            decreases m - k,
        {
            let ghost pre = rest.subrange(0, k - root);
            let ghost pre1 = rest.subrange(0, k + 1 - root);
            assert(pre1.drop_last() =~= pre);
            assert(pre1.last() == chars@[k as int]);
            let c = chars[k];
            if c == '/' {
                let seg = cur;
                cur = Vec::new();
                apply_step(&mut stack, seg);
                assert(split(pre1).drop_last() =~= split(pre));
                assert(split(pre).drop_last().push(split(pre).last()) =~= split(pre));
                assert(cur@ =~= split(pre1).last());
            } else {
                cur.push(c);
                assert(split(pre1).drop_last() =~= split(pre).drop_last());
            }
            k = k + 1;
        }
        let ghost all = split(rest);
        assert(rest.subrange(0, m - root) =~= rest);
        apply_step(&mut stack, cur);
        assert(all.drop_last().push(all.last()) =~= all);
        let ghost segs = char_lists(stack@);
        assert(segs == resolve(all));
        let mut out: Vec<char> = Vec::new();
        let mut i: usize = 0;
        while i < root
            invariant
                i <= root <= m,
                m == s.len(),
                s == chars@,
                out@ == s.subrange(0, i as int),
            decreases root - i,
        {
            out.push(chars[i]);
            assert(out@ =~= s.subrange(0, i + 1));
            i = i + 1;
        }
        let mut j: usize = 0;
        while j < stack.len()
            invariant
                j <= stack@.len(),
                segs == char_lists(stack@),
                out@ == s.subrange(0, root as int) + join(segs.subrange(0, j as int)),
            decreases stack.len() - j,
        {
            let ghost before = out@;
            if j > 0 {
                out.push('/');
            }
            let seg = &stack[j];
            let mut t: usize = 0;
            while t < seg.len()
                invariant
                    t <= seg@.len(),
                    out@ == before + (if j > 0 { seq!['/'] } else { Seq::<char>::empty() }) + seg@.subrange(0, t as int),
                decreases seg.len() - t,
            {
                out.push(seg[t]);
                assert(seg@.subrange(0, t + 1) =~= seg@.subrange(0, t as int).push(seg@[t as int]));
                assert(out@ =~= before + (if j > 0 { seq!['/'] } else { Seq::<char>::empty() }) + seg@.subrange(0, t + 1));
                t = t + 1;
            }
            assert(seg@.subrange(0, seg@.len() as int) =~= seg@);
            let ghost sj = segs.subrange(0, j + 1);
            assert(sj.drop_last() =~= segs.subrange(0, j as int));
            assert(sj.last() == seg@);
            if j == 0 {
                assert(join(sj) == sj[0]);
                assert(out@ =~= s.subrange(0, root as int) + join(sj));
            } else {
                assert(out@ =~= s.subrange(0, root as int) + join(sj));
            }
            j = j + 1;
        }
        assert(segs.subrange(0, segs.len() as int) =~= segs);
        let mut result = String::new();
        crate::text::push_chars(&mut result, &out);
        assert(result@ =~= out@);
        result
    }

    /// Index of the entry for `f`, as `find` gives it.
    fn find_entry(&self, f: &String) -> (r: Option<usize>)
        ensures
            r.is_some() == (find(self.entries(), f@) >= 0),
            r.is_some() ==> r.unwrap() as int == find(self.entries(), f@),
            r.is_some() ==> r.unwrap() < self.entries@.len(),
    {
        let ghost es = self.entries();
        proof {
            lemma_find(es, f@);
        }
        let mut i: usize = self.entries.len();
        assert(es.subrange(0, i as int) =~= es);
        while i > 0
            invariant
                es == entries_of(self.entries@),
                i <= self.entries@.len(),
                find(es, f@) == find(es.subrange(0, i as int), f@),
            decreases i,
        {
            assert(es.subrange(0, i as int).drop_last() =~= es.subrange(0, i - 1));
            if self.entries[i - 1].path == *f {
                return Some(i - 1);
            }
            i = i - 1;
        }
        None
    }

    /// Removes tab `t` from every entry and drops entries left with no tab.
    fn drop_tab_exec(&mut self, t: &String)
        ensures
            final(self).entries() == drop_tab(old(self).entries(), t@),
            final(self).conflicts() == old(self).conflicts(),
            final(self).base() == old(self).base(),
            final(self).stamps() == old(self).stamps(),
    {
        let mut out: Vec<FileEntry> = Vec::new();
        let ghost es = self.entries();
        let mut k: usize = 0;
        while k < self.entries.len()
            invariant
                es == entries_of(self.entries@),
                k <= self.entries@.len(),
                entries_of(out@) == drop_tab(es.subrange(0, k as int), t@),
            decreases self.entries.len() - k,
        {
            assert(es.subrange(0, k + 1).drop_last() =~= es.subrange(0, k as int));
            let left = without_exec(&self.entries[k].tabs, t);
            if left.len() > 0 {
                out.push(FileEntry { path: self.entries[k].path.clone(), tabs: left });
            }
            assert(entries_of(out@) =~= drop_tab(es.subrange(0, k + 1), t@));
            k = k + 1;
        }
        assert(es.subrange(0, es.len() as int) =~= es);
        self.entries = out;
    }

    /// Registers tab `t` on key `f`.
    fn add_file_exec(&mut self, t: &String, f: String)
        ensures
            final(self).entries() == add_file(old(self).entries(), t@, f@),
            final(self).conflicts() == old(self).conflicts(),
            final(self).base() == old(self).base(),
            final(self).stamps() == old(self).stamps(),
    {
        match self.find_entry(&f) {
            None => {
                let mut tabs: Vec<String> = Vec::new();
                tabs.push(t.clone());
                self.entries.push(FileEntry { path: f, tabs });
                assert(strs(tabs@) =~= seq![t@]);
                assert(self.entries() =~= old(self).entries().push((f@, seq![t@])));
            },
            Some(i) => {
                proof {
                    lemma_find(self.entries(), f@);
                    assert(self.entries()[i as int] == self.entries@[i as int]@);
                }
                if !contains_string(&self.entries[i].tabs, t) {
                    let ghost v0 = self.entries@;
                    let mut e = self.entries.remove(i);
                    let ghost before = e@;
                    e.tabs.push(t.clone());
                    assert(strs(e.tabs@) =~= before.1.push(t@));
                    self.entries.insert(i, e);
                    assert(self.entries@ =~= v0.update(i as int, e));
                    assert(self.entries() =~= old(self).entries().update(i as int, (f@, before.1.push(t@))));
                }
            },
        }
    }

    /// Replaces the ConcurrentEdit conflicts by one per file that two or more
    /// tabs are registered on, detected at `now`; other conflicts stay.
    fn detect_conflicts(&mut self, now: u64)
        ensures
            final(self).conflicts() == others(old(self).conflicts()) + concurrent(old(self).entries(), now),
            final(self).entries() == old(self).entries(),
            final(self).base() == old(self).base(),
            final(self).stamps() == old(self).stamps(),
    {
        let mut out: Vec<FileConflict> = Vec::new();
        let ghost cs = self.conflicts();
        let ghost es = self.entries();
        let mut k: usize = 0;
        while k < self.conflicts.len()
            invariant
                cs == conflicts_of(self.conflicts@),
                k <= self.conflicts@.len(),
                conflicts_of(out@) == others(cs.subrange(0, k as int)),
            decreases self.conflicts.len() - k,
        {
            assert(cs.subrange(0, k + 1).drop_last() =~= cs.subrange(0, k as int));
            if self.conflicts[k].conflict_type != ConflictType::ConcurrentEdit {
                out.push(clone_conflict(&self.conflicts[k]));
            }
            assert(conflicts_of(out@) =~= others(cs.subrange(0, k + 1)));
            k = k + 1;
        }
        assert(cs.subrange(0, cs.len() as int) =~= cs);
        let ghost kept = conflicts_of(out@);
        let mut k: usize = 0;
        while k < self.entries.len()
            invariant
                es == entries_of(self.entries@),
                k <= self.entries@.len(),
                conflicts_of(out@) == kept + concurrent(es.subrange(0, k as int), now),
            decreases self.entries.len() - k,
        {
            assert(es.subrange(0, k + 1).drop_last() =~= es.subrange(0, k as int));
            assert(es.subrange(0, k + 1).last() == self.entries@[k as int]@);
            let ghost prev = conflicts_of(out@);
            if self.entries[k].tabs.len() >= 2 {
                out.push(FileConflict {
                    file_path: self.entries[k].path.clone(),
                    tabs_involved: crate::types::clone_strings(&self.entries[k].tabs),
                    conflict_type: ConflictType::ConcurrentEdit,
                    detected_at: now,
                });
            }
            assert(conflicts_of(out@) =~= kept + concurrent(es.subrange(0, k + 1), now)) by {
                if self.entries@[k as int].tabs@.len() >= 2 {
                    assert(conflicts_of(out@) =~= prev.push(out@.last()@));
                }
            }
            k = k + 1;
        }
        assert(es.subrange(0, es.len() as int) =~= es);
        self.conflicts = out;
    }

    /// Makes `files` the set of files tab `t` works on: its previous files are
    /// released, each of `files` is registered under its key, and the
    /// ConcurrentEdit conflicts are recomputed at `now`.
    pub fn register_files(&mut self, t: &String, files: Vec<String>, now: u64)
        requires
            old(self).wf(),
        ensures
            final(self).wf(),
            final(self).entries() == add_files(drop_tab(old(self).entries(), t@), t@,
                normalized_all(old(self).base(), strs(files@))),
            final(self).conflicts() == others(old(self).conflicts()) + concurrent(final(self).entries(), now),
            final(self).base() == old(self).base(),
            final(self).stamps() == old(self).stamps(),
    {
        self.drop_tab_exec(t);
        let ghost dropped = self.entries();
        let ghost keys = normalized_all(self.base(), strs(files@));
        let mut k: usize = 0;
        while k < files.len()
            invariant
                k <= files@.len(),
                keys == normalized_all(self.base(), strs(files@)),
                self.base() == old(self).base(),
                self.stamps() == old(self).stamps(),
                self.conflicts() == old(self).conflicts(),
                self.entries() == add_files(dropped, t@, keys.subrange(0, k as int)),
            decreases files.len() - k,
        {
            assert(keys.subrange(0, k + 1).drop_last() =~= keys.subrange(0, k as int));
            let key = self.normalize_path(files[k].as_str());
            self.add_file_exec(t, key);
            k = k + 1;
        }
        assert(keys.subrange(0, keys.len() as int) =~= keys);
        proof {
            lemma_drop_tab(old(self).entries(), t@);
            lemma_add_files(dropped, t@, keys);
        }
        self.detect_conflicts(now);
    }

    /// Releases every file of tab `t` and removes every conflict that lists it.
    pub fn unregister_tab(&mut self, t: &String)
        requires
            old(self).wf(),
        ensures
            final(self).wf(),
            final(self).entries() == drop_tab(old(self).entries(), t@),
            final(self).conflicts() == not_listing(old(self).conflicts(), t@),
            final(self).base() == old(self).base(),
            final(self).stamps() == old(self).stamps(),
    {
        self.drop_tab_exec(t);
        proof {
            lemma_drop_tab(old(self).entries(), t@);
        }
        let mut out: Vec<FileConflict> = Vec::new();
        let ghost cs = self.conflicts();
        let mut k: usize = 0;
        while k < self.conflicts.len()
            invariant
                cs == conflicts_of(self.conflicts@),
                k <= self.conflicts@.len(),
                conflicts_of(out@) == not_listing(cs.subrange(0, k as int), t@),
            decreases self.conflicts.len() - k,
        {
            assert(cs.subrange(0, k + 1).drop_last() =~= cs.subrange(0, k as int));
            if !contains_string(&self.conflicts[k].tabs_involved, t) {
                out.push(clone_conflict(&self.conflicts[k]));
            }
            assert(conflicts_of(out@) =~= not_listing(cs.subrange(0, k + 1), t@));
            k = k + 1;
        }
        assert(cs.subrange(0, cs.len() as int) =~= cs);
        self.conflicts = out;
    }

    /// For each of `files` on which tabs other than `t` are registered, a
    /// ConcurrentEdit conflict at `now` listing those tabs. Changes nothing.
    pub fn would_conflict(&self, t: &String, files: &Vec<String>, now: u64) -> (r: Vec<FileConflict>)
        ensures
            conflicts_of(r@) == advisory(self.entries(), t@, normalized_all(self.base(), strs(files@)), now),
    {
        let ghost keys = normalized_all(self.base(), strs(files@));
        let ghost es = self.entries();
        let mut out: Vec<FileConflict> = Vec::new();
        let mut k: usize = 0;
        while k < files.len()
            invariant
                k <= files@.len(),
                keys == normalized_all(self.base(), strs(files@)),
                es == self.entries(),
                conflicts_of(out@) == advisory(es, t@, keys.subrange(0, k as int), now),
            decreases files.len() - k,
        {
            assert(keys.subrange(0, k + 1).drop_last() =~= keys.subrange(0, k as int));
            let key = self.normalize_path(files[k].as_str());
            let ghost prev = conflicts_of(out@);
            match self.find_entry(&key) {
                None => {},
                Some(i) => {
                    assert(es[i as int] == self.entries@[i as int]@);
                    let others = without_exec(&self.entries[i].tabs, t);
                    if others.len() > 0 {
                        out.push(FileConflict {
                            file_path: key,
                            tabs_involved: others,
                            conflict_type: ConflictType::ConcurrentEdit,
                            detected_at: now,
                        });
                        assert(conflicts_of(out@) =~= prev.push(out@.last()@));
                    }
                },
            }
            k = k + 1;
        }
        assert(keys.subrange(0, keys.len() as int) =~= keys);
        out
    }

    /// All current conflicts.
    pub fn get_conflicts(&self) -> (r: &Vec<FileConflict>)
        ensures
            conflicts_of(r@) == self.conflicts(),
    {
        &self.conflicts
    }

    /// Copies of the conflicts that list tab `t`.
    pub fn get_tab_conflicts(&self, t: &String) -> (r: Vec<FileConflict>)
        ensures
            conflicts_of(r@) == listing(self.conflicts(), t@),
    {
        let ghost cs = self.conflicts();
        let mut out: Vec<FileConflict> = Vec::new();
        let mut k: usize = 0;
        while k < self.conflicts.len()
            invariant
                cs == conflicts_of(self.conflicts@),
                k <= self.conflicts@.len(),
                conflicts_of(out@) == listing(cs.subrange(0, k as int), t@),
            decreases self.conflicts.len() - k,
        {
            assert(cs.subrange(0, k + 1).drop_last() =~= cs.subrange(0, k as int));
            if contains_string(&self.conflicts[k].tabs_involved, t) {
                out.push(clone_conflict(&self.conflicts[k]));
            }
            assert(conflicts_of(out@) =~= listing(cs.subrange(0, k + 1), t@));
            k = k + 1;
        }
        assert(cs.subrange(0, cs.len() as int) =~= cs);
        out
    }

    /// Whether some conflict lists tab `t`.
    pub fn has_conflicts(&self, t: &String) -> (r: bool)
        ensures
            r == (listing(self.conflicts(), t@).len() > 0),
    {
        let ghost cs = self.conflicts();
        let mut k: usize = 0;
        while k < self.conflicts.len()
            invariant
                cs == conflicts_of(self.conflicts@),
                k <= self.conflicts@.len(),
                listing(cs.subrange(0, k as int), t@).len() == 0,
            decreases self.conflicts.len() - k,
        {
            assert(cs.subrange(0, k + 1).drop_last() =~= cs.subrange(0, k as int));
            if contains_string(&self.conflicts[k].tabs_involved, t) {
                proof {
                    lemma_listing_grows(cs, t@, k as int + 1);
                }
                return true;
            }
            k = k + 1;
        }
        assert(cs.subrange(0, cs.len() as int) =~= cs);
        false
    }

    /// Removes every conflict about `path`.
    pub fn resolve_conflict(&mut self, path: &str)
        ensures
            final(self).conflicts() == not_about(old(self).conflicts(), normalized(old(self).base(), path@)),
            final(self).entries() == old(self).entries(),
            final(self).base() == old(self).base(),
            final(self).stamps() == old(self).stamps(),
    {
        let key = self.normalize_path(path);
        let ghost cs = self.conflicts();
        let mut out: Vec<FileConflict> = Vec::new();
        let mut k: usize = 0;
        while k < self.conflicts.len()
            invariant
                cs == conflicts_of(self.conflicts@),
                k <= self.conflicts@.len(),
                conflicts_of(out@) == not_about(cs.subrange(0, k as int), key@),
            decreases self.conflicts.len() - k,
        {
            assert(cs.subrange(0, k + 1).drop_last() =~= cs.subrange(0, k as int));
            if self.conflicts[k].file_path != key {
                out.push(clone_conflict(&self.conflicts[k]));
            }
            assert(conflicts_of(out@) =~= not_about(cs.subrange(0, k + 1), key@));
            k = k + 1;
        }
        assert(cs.subrange(0, cs.len() as int) =~= cs);
        self.conflicts = out;
    }

    /// Keys of the files tab `t` is registered on.
    pub fn get_tab_files(&self, t: &String) -> (r: Vec<String>)
        ensures
            strs(r@) == files_of(self.entries(), t@),
    {
        let ghost es = self.entries();
        let mut out: Vec<String> = Vec::new();
        let mut k: usize = 0;
        while k < self.entries.len()
            invariant
                es == entries_of(self.entries@),
                k <= self.entries@.len(),
                strs(out@) == files_of(es.subrange(0, k as int), t@),
            decreases self.entries.len() - k,
        {
            assert(es.subrange(0, k + 1).drop_last() =~= es.subrange(0, k as int));
            assert(es.subrange(0, k + 1).last() == self.entries@[k as int]@);
            if contains_string(&self.entries[k].tabs, t) {
                out.push(self.entries[k].path.clone());
            }
            assert(strs(out@) =~= files_of(es.subrange(0, k + 1), t@));
            k = k + 1;
        }
        assert(es.subrange(0, es.len() as int) =~= es);
        out
    }

    /// The recorded modification time of key `key`.
    fn baseline_of(&self, key: &String) -> (r: Option<u64>)
        ensures
            r == baseline(self.stamps(), key@),
    {
        let ghost ts = self.stamps();
        let mut i: usize = self.file_timestamps.len();
        assert(ts.subrange(0, i as int) =~= ts);
        while i > 0
            invariant
                ts == self.stamps(),
                i <= self.file_timestamps@.len(),
                baseline(ts, key@) == baseline(ts.subrange(0, i as int), key@),
            decreases i,
        {
            assert(ts.subrange(0, i as int).drop_last() =~= ts.subrange(0, i - 1));
            if self.file_timestamps[i - 1].0 == *key {
                return Some(self.file_timestamps[i - 1].1);
            }
            i = i - 1;
        }
        None
    }

    /// Records `ts` as the modification time of `path` (after the library's own write).
    pub fn update_file_timestamp(&mut self, path: &str, ts: u64)
        ensures
            final(self).stamps() == old(self).stamps().push((normalized(old(self).base(), path@), ts)),
            final(self).entries() == old(self).entries(),
            final(self).conflicts() == old(self).conflicts(),
            final(self).base() == old(self).base(),
    {
        let key = self.normalize_path(path);
        self.file_timestamps.push((key, ts));
        assert(self.stamps() =~= old(self).stamps().push((key@, ts)));
    }

    /// Records `mtime` as the baseline modification time of `path` unless one is
    /// recorded already.
    pub fn record_baseline(&mut self, path: &str, mtime: u64)
        ensures
            baseline(old(self).stamps(), normalized(old(self).base(), path@)).is_some()
                ==> final(self).stamps() == old(self).stamps(),
            baseline(old(self).stamps(), normalized(old(self).base(), path@)).is_none()
                ==> final(self).stamps() == old(self).stamps().push((normalized(old(self).base(), path@), mtime)),
            final(self).entries() == old(self).entries(),
            final(self).conflicts() == old(self).conflicts(),
            final(self).base() == old(self).base(),
    {
        let key = self.normalize_path(path);
        if self.baseline_of(&key).is_none() {
            self.file_timestamps.push((key, mtime));
            assert(self.stamps() =~= old(self).stamps().push((key@, mtime)));
        }
    }

    /// Compares `current`, the modification time of `path` on disk, with the
    /// recorded one. When it is newer, it becomes the recorded one, a conflict
    /// of kind ExternalChange listing the tabs registered on the file is added
    /// at `now` if there are any, and the result is true.
    pub fn check_external_change(&mut self, path: &str, current: Option<u64>, now: u64) -> (r: bool)
        requires
            old(self).wf(),
        ensures
            final(self).wf(),
            ({
                let key = normalized(old(self).base(), path@);
                let b = baseline(old(self).stamps(), key);
                let i = find(old(self).entries(), key);
                &&& r == (b.is_some() && current.is_some() && current.unwrap() > b.unwrap())
                &&& !r ==> final(self).stamps() == old(self).stamps() && final(self).conflicts() == old(self).conflicts()
                &&& r ==> final(self).stamps() == old(self).stamps().push((key, current.unwrap()))
                &&& r && i >= 0 ==> final(self).conflicts() == old(self).conflicts().push(
                        ConflictModel { path: key, tabs: old(self).entries()[i].1, kind: ConflictType::ExternalChange, at: now })
                &&& r && i < 0 ==> final(self).conflicts() == old(self).conflicts()
            }),
            final(self).entries() == old(self).entries(),
            final(self).base() == old(self).base(),
    {
        let key = self.normalize_path(path);
        let b = self.baseline_of(&key);
        match (b, current) {
            (Some(old_ts), Some(cur)) => {
                if cur > old_ts {
                    self.file_timestamps.push((key.clone(), cur));
                    assert(self.stamps() =~= old(self).stamps().push((key@, cur)));
                    match self.find_entry(&key) {
                        None => {},
                        Some(i) => {
                            proof {
                                lemma_find(self.entries(), key@);
                            }
                            assert(self.entries()[i as int] == self.entries@[i as int]@);
                            let tabs = crate::types::clone_strings(&self.entries[i].tabs);
                            self.conflicts.push(FileConflict {
                                file_path: key,
                                tabs_involved: tabs,
                                conflict_type: ConflictType::ExternalChange,
                                detected_at: now,
                            });
                            assert(self.conflicts() =~= old(self).conflicts().push(self.conflicts@.last()@));
                        },
                    }
                    true
                } else {
                    false
                }
            },
            _ => false,
        }
    }
}

impl Default for ConflictDetector {
    /// A tracker with nothing registered, relative to "/".
    fn default() -> (r: ConflictDetector)
        ensures
            r.wf(),
            r.entries().len() == 0,
            r.conflicts().len() == 0,
            r.stamps().len() == 0,
            r.base() == seq!['/'],
    {
        ConflictDetector::new()
    }
}

} // verus!
