//! The list of folders offered when moving a note: every folder reachable
//! from the top level, depth first, siblings ordered by sort order then name.

use vstd::prelude::*;
use crate::model::{Folder, FolderView};
use crate::text::chars_of;

verus! {

/// One entry of the folder list: the folder and its nesting depth.
#[derive(Debug, Clone)]
pub struct MoveFolderOption {
    pub id: String,
    pub name: String,
    pub depth: usize,
}

/// Mathematical view of an entry.
pub struct MoveFolderOptionView {
    pub id: Seq<char>,
    pub name: Seq<char>,
    pub depth: int,
}

impl View for MoveFolderOption {
    type V = MoveFolderOptionView;

    open spec fn view(&self) -> MoveFolderOptionView {
        MoveFolderOptionView { id: self.id@, name: self.name@, depth: self.depth as int }
    }
}

/// Lexicographic order on character sequences by code point (which is the
/// byte order of their UTF-8 encodings).
pub open spec fn text_lt(a: Seq<char>, b: Seq<char>) -> bool
    decreases a.len(),
{
    if a.len() == 0 {
        b.len() > 0
    } else if b.len() == 0 {
        false
    } else if (a[0] as u32) < (b[0] as u32) {
        true
    } else if (a[0] as u32) > (b[0] as u32) {
        false
    } else {
        text_lt(a.drop_first(), b.drop_first())
    }
}

/// Whether folder `i` sorts strictly before folder `j`: by sort order,
/// then by name.
pub open spec fn key_lt(fs: Seq<FolderView>, i: int, j: int) -> bool {
    ||| fs[i].sort_order < fs[j].sort_order
    ||| fs[i].sort_order == fs[j].sort_order && text_lt(fs[i].name, fs[j].name)
}

/// Indices below `upto` of the folders whose parent is `parent`, in order.
pub open spec fn child_indices(fs: Seq<FolderView>, parent: Option<Seq<char>>, upto: int) -> Seq<
    int,
>
    decreases upto,
{
    if upto <= 0 {
        Seq::empty()
    } else {
        let r = child_indices(fs, parent, upto - 1);
        if fs[upto - 1].parent_id == parent {
            r.push(upto - 1)
        } else {
            r
        }
    }
}

/// Inserts `x` before the first element that sorts strictly after it.
pub open spec fn insert_by_key(fs: Seq<FolderView>, s: Seq<int>, x: int) -> Seq<int>
    decreases s.len(),
{
    if s.len() == 0 {
        seq![x]
    } else if key_lt(fs, x, s[0]) {
        seq![x] + s
    } else {
        seq![s[0]] + insert_by_key(fs, s.drop_first(), x)
    }
}

/// Stable sort of indices by the folders' keys.
pub open spec fn sort_by_key(fs: Seq<FolderView>, s: Seq<int>) -> Seq<int>
    decreases s.len(),
{
    if s.len() == 0 {
        Seq::empty()
    } else {
        insert_by_key(fs, sort_by_key(fs, s.drop_last()), s.last())
    }
}

/// The children of `parent`, in display order.
pub open spec fn sorted_children(fs: Seq<FolderView>, parent: Option<Seq<char>>) -> Seq<int> {
    sort_by_key(fs, child_indices(fs, parent, fs.len() as int))
}

/// The entries for the folders `kids` (at `depth`) and all their
/// descendants, depth first.
pub open spec fn options_from(fs: Seq<FolderView>, kids: Seq<int>, depth: int) -> Seq<
    MoveFolderOptionView,
>
    decreases fs.len() - depth, kids.len(),
{
    if kids.len() == 0 || depth < 0 || depth >= fs.len() {
        Seq::empty()
    } else {
        let k = kids[0];
        seq![MoveFolderOptionView { id: fs[k].id, name: fs[k].name, depth }] + options_from(
            fs,
            sorted_children(fs, Some(fs[k].id)),
            depth + 1,
        ) + options_from(fs, kids.drop_first(), depth)
    }
}

/// The full list: all folders reachable from the top level.
pub open spec fn move_options_spec(fs: Seq<FolderView>) -> Seq<MoveFolderOptionView> {
    options_from(fs, sorted_children(fs, None), 0)
}

pub open spec fn folders_view(v: Seq<Folder>) -> Seq<FolderView> {
    v.map_values(|f: Folder| f@)
}

fn text_less(a: &Vec<char>, b: &Vec<char>) -> (r: bool)
    ensures
        r == text_lt(a@, b@),
{
    let mut i: usize = 0;
    assert(a@.skip(0) =~= a@);
    assert(b@.skip(0) =~= b@);
    while i < a.len() && i < b.len()
        invariant
            0 <= i <= a@.len(),
            i <= b@.len(),
            text_lt(a@, b@) == text_lt(a@.skip(i as int), b@.skip(i as int)),
        decreases a@.len() - i,
    {
        let ghost sa = a@.skip(i as int);
        let ghost sb = b@.skip(i as int);
        assert(sa[0] == a@[i as int]);
        assert(sb[0] == b@[i as int]);
        if (a[i] as u32) < (b[i] as u32) {
            return true;
        }
        if (a[i] as u32) > (b[i] as u32) {
            return false;
        }
        assert(sa.drop_first() =~= a@.skip(i + 1));
        assert(sb.drop_first() =~= b@.skip(i + 1));
        i = i + 1;
    }
    i >= a.len() && i < b.len()
}

/// Decides `key_lt(fs, i, j)`.
fn key_less(folders: &Vec<Folder>, i: usize, j: usize) -> (r: bool)
    requires
        i < folders@.len(),
        j < folders@.len(),
    ensures
        r == key_lt(folders_view(folders@), i as int, j as int),
{
    let a = &folders[i];
    let b = &folders[j];
    if a.sort_order < b.sort_order {
        return true;
    }
    if a.sort_order > b.sort_order {
        return false;
    }
    text_less(&chars_of(a.name.as_str()), &chars_of(b.name.as_str()))
}

/// `s` with `x` inserted at `p`.
proof fn lemma_insert_by_key_at(fs: Seq<FolderView>, s: Seq<int>, x: int, p: int)
    requires
        0 <= p <= s.len(),
        forall|k: int| 0 <= k < p ==> !key_lt(fs, x, #[trigger] s[k]),
        p < s.len() ==> key_lt(fs, x, s[p]),
    ensures
        insert_by_key(fs, s, x) == s.take(p) + seq![x] + s.skip(p),
    decreases s.len(),
{
    if s.len() == 0 {
        assert(s.take(p) + seq![x] + s.skip(p) =~= seq![x]);
    } else if p == 0 {
        assert(s.take(p) + seq![x] + s.skip(p) =~= seq![x] + s);
    } else {
        assert forall|k: int| 0 <= k < p - 1 implies !key_lt(fs, x, #[trigger] s.drop_first()[k]) by {
            assert(s.drop_first()[k] == s[k + 1]);
        }
        lemma_insert_by_key_at(fs, s.drop_first(), x, p - 1);
        assert(s.take(p) + seq![x] + s.skip(p) =~= seq![s[0]] + (s.drop_first().take(p - 1)
            + seq![x] + s.drop_first().skip(p - 1)));
    }
}

/// The children of `parent` (or of the top level), in display order.
fn sorted_children_exec(folders: &Vec<Folder>, parent: Option<&String>) -> (r: Vec<usize>)
    ensures
        r@.len() == sorted_children(folders_view(folders@), opt_ref_view(parent)).len(),
        forall|i: int|
            0 <= i < r@.len() ==> #[trigger] r@[i] as int == sorted_children(
                folders_view(folders@),
                opt_ref_view(parent),
            )[i],
{
    let ghost fs = folders_view(folders@);
    let ghost pv = opt_ref_view(parent);
    let mut found: Vec<usize> = Vec::new();
    let mut i: usize = 0;
    while i < folders.len()
        invariant
            0 <= i <= folders@.len(),
            fs == folders_view(folders@),
            fs.len() == folders@.len(),
            pv == opt_ref_view(parent),
            found@.len() == child_indices(fs, pv, i as int).len(),
            forall|k: int|
                0 <= k < found@.len() ==> #[trigger] found@[k] as int == child_indices(
                    fs,
                    pv,
                    i as int,
                )[k],
            forall|k: int| 0 <= k < found@.len() ==> #[trigger] found@[k] < i,
        decreases folders@.len() - i,
    {
        let same = match (&folders[i].parent_id, parent) {
            (Some(a), Some(b)) => *a == *b,
            (None, None) => true,
            _ => false,
        };
        assert(fs[i as int] == folders@[i as int]@);
        if same {
            found.push(i);
        }
        i = i + 1;
    }
    // insertion sort, stable
    let mut sorted: Vec<usize> = Vec::new();
    let ghost ci = child_indices(fs, pv, fs.len() as int);
    let mut j: usize = 0;
    assert(ci.take(0) =~= Seq::<int>::empty());
    while j < found.len()
        invariant
            0 <= j <= found@.len(),
            fs == folders_view(folders@),
            fs.len() == folders@.len(),
            ci == child_indices(fs, pv, fs.len() as int),
            found@.len() == ci.len(),
            forall|k: int| 0 <= k < found@.len() ==> #[trigger] found@[k] as int == ci[k],
            forall|k: int| 0 <= k < found@.len() ==> #[trigger] found@[k] < folders@.len(),
            sorted@.len() == sort_by_key(fs, ci.take(j as int)).len(),
            forall|k: int|
                0 <= k < sorted@.len() ==> #[trigger] sorted@[k] as int == sort_by_key(
                    fs,
                    ci.take(j as int),
                )[k],
            forall|k: int| 0 <= k < sorted@.len() ==> #[trigger] sorted@[k] < folders@.len(),
        decreases found@.len() - j,
    {
        let x = found[j];
        let mut p: usize = 0;
        let ghost sv = sort_by_key(fs, ci.take(j as int));
        while p < sorted.len() && !key_less(folders, x, sorted[p])
            invariant
                0 <= p <= sorted@.len(),
                x < folders@.len(),
                fs == folders_view(folders@),
                sorted@.len() == sv.len(),
                forall|k: int| 0 <= k < sorted@.len() ==> #[trigger] sorted@[k] as int == sv[k],
                forall|k: int| 0 <= k < sorted@.len() ==> #[trigger] sorted@[k] < folders@.len(),
                forall|k: int| 0 <= k < p ==> !key_lt(fs, x as int, #[trigger] sv[k]),
            decreases sorted@.len() - p,
        {
            p = p + 1;
        }
        proof {
            lemma_insert_by_key_at(fs, sv, x as int, p as int);
            assert(ci.take(j + 1).drop_last() =~= ci.take(j as int));
            assert(ci.take(j + 1).last() == x as int);
        }
        sorted.insert(p, x);
        j = j + 1;
        proof {
            let want = sort_by_key(fs, ci.take(j as int));
            assert(want == sv.take(p as int) + seq![x as int] + sv.skip(p as int));
            assert forall|k: int| 0 <= k < sorted@.len() implies #[trigger] sorted@[k] as int
                == want[k] by {
                if k < p {
                } else if k == p {
                } else {
                    assert(want[k] == sv[k - 1]);
                }
            }
        }
    }
    assert(ci.take(j as int) =~= ci);
    sorted
}

pub open spec fn opt_ref_view(o: Option<&String>) -> Option<Seq<char>> {
    match o {
        Some(s) => Some(s@),
        None => None,
    }
}

pub open spec fn as_ints(v: Seq<usize>) -> Seq<int> {
    v.map_values(|x: usize| x as int)
}

pub open spec fn options_view(v: Seq<MoveFolderOption>) -> Seq<MoveFolderOptionView> {
    v.map_values(|o: MoveFolderOption| o@)
}


/// Appends the entries for `kids` (at `depth`) and their descendants.
fn visit(
    folders: &Vec<Folder>,
    kids: &Vec<usize>,
    depth: usize,
    output: &mut Vec<MoveFolderOption>,
)
    requires
        forall|i: int| 0 <= i < kids@.len() ==> #[trigger] kids@[i] < folders@.len(),
    ensures
        options_view(final(output)@) == options_view(old(output)@) + options_from(
            folders_view(folders@),
            as_ints(kids@),
            depth as int,
        ),
    decreases folders@.len() - depth,
{
    if depth >= folders.len() {
        assert(options_view(output@) =~= options_view(old(output)@) + Seq::empty());
        return;
    }
    let ghost fs = folders_view(folders@);
    let ghost ks = as_ints(kids@);
    let nf = folders.len();
    let mut i: usize = 0;
    assert(ks.skip(0) =~= ks);
    assert(options_view(output@) =~= options_view(old(output)@) + Seq::empty());
    while i < kids.len()
        invariant
            0 <= i <= kids@.len(),
            fs == folders_view(folders@),
            fs.len() == folders@.len(),
            nf == folders@.len(),
            ks == as_ints(kids@),
            depth < fs.len(),
            forall|j: int| 0 <= j < kids@.len() ==> #[trigger] kids@[j] < folders@.len(),
            options_view(old(output)@) + options_from(fs, ks, depth as int) == options_view(
                output@,
            ) + options_from(fs, ks.skip(i as int), depth as int),
        decreases kids@.len() - i,
    {
        let k = kids[i];
        proof {
            lemma_options_step(fs, ks, i as int, depth as int);
        }
        let f = &folders[k];
        let ghost entry = MoveFolderOptionView {
            id: fs[k as int].id,
            name: fs[k as int].name,
            depth: depth as int,
        };
        let ghost before = output@;
        output.push(MoveFolderOption { id: f.id.clone(), name: f.name.clone(), depth });
        proof {
            assert(fs[k as int] == f@);
            lemma_options_view_push(before, output@[before.len() as int]);
            assert(output@ =~= before.push(output@[before.len() as int]));
        }
        let sub = sorted_children_exec(folders, Some(&f.id));
        proof {
            lemma_children_of_next(fs, k as int, sub@);
        }
        visit(folders, &sub, depth + 1, output);
        proof {
            let a = options_view(old(output)@);
            let b = options_view(before);
            let c = options_from(fs, as_ints(sub@), depth + 1);
            let d = options_from(fs, ks.skip(i + 1), depth as int);
            assert(a + options_from(fs, ks, depth as int) == b + (seq![entry] + c + d));
            assert(options_view(output@) == b.push(entry) + c);
            assert(b + (seq![entry] + c + d) =~= b.push(entry) + c + d);
        }
        i = i + 1;
    }
    proof {
        assert(ks.skip(i as int) =~= Seq::<int>::empty());
        assert(options_view(output@) + Seq::<MoveFolderOptionView>::empty() =~= options_view(
            output@,
        ));
    }
}

proof fn lemma_options_view_push(v: Seq<MoveFolderOption>, x: MoveFolderOption)
    ensures
        options_view(v.push(x)) == options_view(v).push(x@),
{
    assert(options_view(v.push(x)) =~= options_view(v).push(x@));
}

proof fn lemma_options_step(fs: Seq<FolderView>, ks: Seq<int>, i: int, depth: int)
    requires
        0 <= i < ks.len(),
        0 <= depth < fs.len(),
        0 <= ks[i] < fs.len(),
    ensures
        options_from(fs, ks.skip(i), depth) == seq![
            MoveFolderOptionView { id: fs[ks[i]].id, name: fs[ks[i]].name, depth },
        ] + options_from(fs, sorted_children(fs, Some(fs[ks[i]].id)), depth + 1) + options_from(
            fs,
            ks.skip(i + 1),
            depth,
        ),
{
    let rest = ks.skip(i);
    assert(rest[0] == ks[i]);
    assert(rest.drop_first() =~= ks.skip(i + 1));
}

proof fn lemma_children_of_next(fs: Seq<FolderView>, k: int, sub: Seq<usize>)
    requires
        0 <= k < fs.len(),
        sub.len() == sorted_children(fs, Some(fs[k].id)).len(),
        forall|i: int| 0 <= i < sub.len() ==> #[trigger] sub[i] as int == sorted_children(fs, Some(fs[k].id))[i],
    ensures
        as_ints(sub) == sorted_children(fs, Some(fs[k].id)),
        forall|j: int| 0 <= j < sub.len() ==> #[trigger] sub[j] < fs.len(),
{
    assert(as_ints(sub) =~= sorted_children(fs, Some(fs[k].id)));
    assert forall|j: int| 0 <= j < sub.len() implies #[trigger] sub[j] < fs.len() by {
        lemma_sorted_children_are_children(fs, Some(fs[k].id), j);
    }
}

proof fn lemma_child_indices_props(fs: Seq<FolderView>, parent: Option<Seq<char>>, upto: int, j: int)
    requires
        0 <= upto <= fs.len(),
        0 <= j < child_indices(fs, parent, upto).len(),
    ensures
        0 <= child_indices(fs, parent, upto)[j] < upto,
        fs[child_indices(fs, parent, upto)[j]].parent_id == parent,
    decreases upto,
{
    if upto > 0 {
        let r = child_indices(fs, parent, upto - 1);
        if j < r.len() {
            lemma_child_indices_props(fs, parent, upto - 1, j);
        }
    }
}

proof fn lemma_insert_by_key_members(fs: Seq<FolderView>, s: Seq<int>, x: int, j: int)
    requires
        0 <= j < insert_by_key(fs, s, x).len(),
    ensures
        insert_by_key(fs, s, x).len() == s.len() + 1,
        insert_by_key(fs, s, x)[j] == x || exists|m: int| 0 <= m < s.len() && s[m] == insert_by_key(fs, s, x)[j],
    decreases s.len(),
{
    if s.len() > 0 && !key_lt(fs, x, s[0]) {
        let t = insert_by_key(fs, s.drop_first(), x);
        lemma_insert_by_key_len(fs, s.drop_first(), x);
        if j > 0 {
            lemma_insert_by_key_members(fs, s.drop_first(), x, j - 1);
            if t[j - 1] != x {
                let m = choose|m: int| 0 <= m < s.drop_first().len() && s.drop_first()[m] == t[j - 1];
                assert(s[m + 1] == t[j - 1]);
            }
        } else {
            assert(s[0] == insert_by_key(fs, s, x)[j]);
        }
    } else if s.len() > 0 {
        if j > 0 {
            assert(s[j - 1] == insert_by_key(fs, s, x)[j]);
        }
    }
}

proof fn lemma_insert_by_key_len(fs: Seq<FolderView>, s: Seq<int>, x: int)
    ensures
        insert_by_key(fs, s, x).len() == s.len() + 1,
    decreases s.len(),
{
    if s.len() > 0 && !key_lt(fs, x, s[0]) {
        lemma_insert_by_key_len(fs, s.drop_first(), x);
    }
}

proof fn lemma_sort_members(fs: Seq<FolderView>, s: Seq<int>, j: int)
    requires
        0 <= j < sort_by_key(fs, s).len(),
    ensures
        exists|m: int| 0 <= m < s.len() && s[m] == sort_by_key(fs, s)[j],
    decreases s.len(),
{
    let pre = sort_by_key(fs, s.drop_last());
    lemma_insert_by_key_members(fs, pre, s.last(), j);
    let v = sort_by_key(fs, s)[j];
    if v != s.last() {
        let m = choose|m: int| 0 <= m < pre.len() && pre[m] == v;
        lemma_sort_members(fs, s.drop_last(), m);
        let m2 = choose|m2: int| 0 <= m2 < s.drop_last().len() && s.drop_last()[m2] == pre[m];
        assert(s[m2] == v);
    } else {
        assert(s[s.len() - 1] == v);
    }
}

proof fn lemma_sorted_children_are_children(fs: Seq<FolderView>, parent: Option<Seq<char>>, j: int)
    requires
        0 <= j < sorted_children(fs, parent).len(),
    ensures
        0 <= sorted_children(fs, parent)[j] < fs.len(),
        fs[sorted_children(fs, parent)[j]].parent_id == parent,
{
    let ci = child_indices(fs, parent, fs.len() as int);
    lemma_sort_members(fs, ci, j);
    let m = choose|m: int| 0 <= m < ci.len() && ci[m] == sorted_children(fs, parent)[j];
    lemma_child_indices_props(fs, parent, fs.len() as int, m);
}

proof fn lemma_text_lt_asym(a: Seq<char>, b: Seq<char>)
    requires
        text_lt(a, b),
    ensures
        !text_lt(b, a),
    decreases a.len(),
{
    if a.len() > 0 && b.len() > 0 && (a[0] as u32) == (b[0] as u32) {
        lemma_text_lt_asym(a.drop_first(), b.drop_first());
    }
}

proof fn lemma_text_lt_trans(a: Seq<char>, b: Seq<char>, c: Seq<char>)
    requires
        text_lt(a, b),
        text_lt(b, c),
    ensures
        text_lt(a, c),
    decreases a.len(),
{
    if a.len() > 0 && b.len() > 0 && c.len() > 0 && (a[0] as u32) == (b[0] as u32) && (b[0] as u32)
        == (c[0] as u32) {
        lemma_text_lt_trans(a.drop_first(), b.drop_first(), c.drop_first());
    }
}

proof fn lemma_key_lt_asym(fs: Seq<FolderView>, i: int, j: int)
    requires
        key_lt(fs, i, j),
    ensures
        !key_lt(fs, j, i),
{
    if fs[i].sort_order == fs[j].sort_order {
        lemma_text_lt_asym(fs[i].name, fs[j].name);
    }
}

proof fn lemma_key_lt_trans(fs: Seq<FolderView>, i: int, j: int, k: int)
    requires
        key_lt(fs, i, j),
        key_lt(fs, j, k),
    ensures
        key_lt(fs, i, k),
{
    if fs[i].sort_order == fs[j].sort_order && fs[j].sort_order == fs[k].sort_order {
        lemma_text_lt_trans(fs[i].name, fs[j].name, fs[k].name);
    }
}

/// No element of `s` sorts strictly before one that precedes it.
pub open spec fn keys_sorted(fs: Seq<FolderView>, s: Seq<int>) -> bool {
    forall|a: int, b: int| 0 <= a < b < s.len() ==> !key_lt(fs, #[trigger] s[b], #[trigger] s[a])
}

proof fn lemma_insert_keeps_sorted(fs: Seq<FolderView>, s: Seq<int>, x: int)
    requires
        keys_sorted(fs, s),
    ensures
        keys_sorted(fs, insert_by_key(fs, s, x)),
    decreases s.len(),
{
    let r = insert_by_key(fs, s, x);
    if s.len() == 0 {
    } else if key_lt(fs, x, s[0]) {
        assert forall|a: int, b: int| 0 <= a < b < r.len() implies !key_lt(
            fs,
            #[trigger] r[b],
            #[trigger] r[a],
        ) by {
            if a == 0 {
                assert(r[b] == s[b - 1]);
                if b == 1 {
                    lemma_key_lt_asym(fs, x, s[0]);
                } else if key_lt(fs, s[b - 1], x) {
                    lemma_key_lt_trans(fs, s[b - 1], x, s[0]);
                }
            } else {
                assert(r[a] == s[a - 1]);
                assert(r[b] == s[b - 1]);
            }
        }
    } else {
        let rest = s.drop_first();
        let t = insert_by_key(fs, rest, x);
        assert forall|a: int, b: int| 0 <= a < b < rest.len() implies !key_lt(
            fs,
            #[trigger] rest[b],
            #[trigger] rest[a],
        ) by {
            assert(rest[a] == s[a + 1]);
            assert(rest[b] == s[b + 1]);
        }
        lemma_insert_keeps_sorted(fs, rest, x);
        lemma_insert_by_key_len(fs, rest, x);
        assert forall|a: int, b: int| 0 <= a < b < r.len() implies !key_lt(
            fs,
            #[trigger] r[b],
            #[trigger] r[a],
        ) by {
            assert(r[b] == t[b - 1]);
            if a == 0 {
                assert(r[0] == s[0]);
                lemma_insert_by_key_members(fs, rest, x, b - 1);
                if t[b - 1] != x {
                    let m = choose|m: int| 0 <= m < rest.len() && rest[m] == t[b - 1];
                    assert(rest[m] == s[m + 1]);
                }
            } else {
                assert(r[a] == t[a - 1]);
            }
        }
    }
}

proof fn lemma_sort_by_key_sorted(fs: Seq<FolderView>, s: Seq<int>)
    ensures
        keys_sorted(fs, sort_by_key(fs, s)),
    decreases s.len(),
{
    if s.len() > 0 {
        lemma_sort_by_key_sorted(fs, s.drop_last());
        lemma_insert_keeps_sorted(fs, sort_by_key(fs, s.drop_last()), s.last());
    }
}

/// Siblings come in order of their sort order: a folder listed before a
/// sibling never has a larger sort order, and between siblings of equal sort
/// order the earlier one's name is not after the later one's.
pub proof fn law_siblings_in_order(fs: Seq<FolderView>, parent: Option<Seq<char>>)
    ensures
        forall|a: int, b: int|
            0 <= a < b < sorted_children(fs, parent).len() ==> {
                &&& fs[#[trigger] sorted_children(fs, parent)[a]].sort_order <= fs[#[trigger] sorted_children(
                    fs,
                    parent,
                )[b]].sort_order
                &&& fs[sorted_children(fs, parent)[a]].sort_order == fs[sorted_children(
                    fs,
                    parent,
                )[b]].sort_order ==> !text_lt(
                    fs[sorted_children(fs, parent)[b]].name,
                    fs[sorted_children(fs, parent)[a]].name,
                )
            },
{
    lemma_sort_by_key_sorted(fs, child_indices(fs, parent, fs.len() as int));
    let s = sorted_children(fs, parent);
    assert forall|a: int, b: int| 0 <= a < b < s.len() implies {
        &&& fs[#[trigger] s[a]].sort_order <= fs[#[trigger] s[b]].sort_order
        &&& fs[s[a]].sort_order == fs[s[b]].sort_order ==> !text_lt(fs[s[b]].name, fs[s[a]].name)
    } by {
        assert(!key_lt(fs, s[b], s[a]));
    }
}

/// The folders a note can be moved to, depth first from the top level,
/// siblings ordered by sort order and then by name, each with its depth.
pub fn build_move_folder_options(folders: Vec<Folder>) -> (r: Vec<MoveFolderOption>)
    ensures
        options_view(r@) == move_options_spec(folders_view(folders@)),
{
    let ghost fs = folders_view(folders@);
    let top = sorted_children_exec(&folders, None);
    proof {
        assert(as_ints(top@) =~= sorted_children(fs, None));
        assert forall|j: int| 0 <= j < top@.len() implies #[trigger] top@[j] < folders@.len() by {
            lemma_sorted_children_are_children(fs, None, j);
        }
    }
    let mut output: Vec<MoveFolderOption> = Vec::new();
    visit(&folders, &top, 0, &mut output);
    assert(options_view(output@) =~= move_options_spec(fs));
    output
}

} // verus!
