//! Preparing note text for the Markdown preview.

use vstd::prelude::*;
use crate::text::{is_white_space, char_is_whitespace, chars_of, string_from_chars, push_all};

verus! {

/// The pieces of `s` between line breaks (`str::split('\n')`): one more
/// piece than there are line breaks.
pub open spec fn split_lines(s: Seq<char>) -> Seq<Seq<char>>
    decreases s.len(),
{
    if s.len() == 0 {
        seq![Seq::empty()]
    } else {
        let ls = split_lines(s.drop_last());
        if s.last() == '\n' {
            ls.push(Seq::empty())
        } else {
            ls.update(ls.len() - 1, ls.last().push(s.last()))
        }
    }
}

pub(crate) proof fn lemma_split_lines_nonempty(s: Seq<char>)
    ensures
        split_lines(s).len() >= 1,
    decreases s.len(),
{
    if s.len() > 0 {
        lemma_split_lines_nonempty(s.drop_last());
    }
}

/// Lines joined back with line breaks.
pub open spec fn join_lines(ls: Seq<Seq<char>>) -> Seq<char>
    decreases ls.len(),
{
    if ls.len() == 0 {
        Seq::empty()
    } else if ls.len() == 1 {
        ls[0]
    } else {
        join_lines(ls.drop_last()) + seq!['\n'] + ls.last()
    }
}

/// The number of leading whitespace characters of `l`.
pub open spec fn lead_ws(l: Seq<char>) -> int
    decreases l.len(),
{
    if l.len() == 0 {
        0
    } else if is_white_space(l[0]) {
        1 + lead_ws(l.drop_first())
    } else {
        0
    }
}

/// The length of `l` without its trailing whitespace.
pub open spec fn trail_end(l: Seq<char>) -> int
    decreases l.len(),
{
    if l.len() == 0 {
        0
    } else if is_white_space(l.last()) {
        trail_end(l.drop_last())
    } else {
        l.len() as int
    }
}

/// `l` without leading and trailing whitespace (`str::trim`).
pub open spec fn trimmed(l: Seq<char>) -> Seq<char> {
    if lead_ws(l) >= trail_end(l) {
        Seq::empty()
    } else {
        l.subrange(lead_ws(l), trail_end(l))
    }
}

/// Whether the trimmed line opens or closes a fenced code block.
pub open spec fn is_fence(l: Seq<char>) -> bool {
    let t = trimmed(l);
    t.len() >= 3 && t[0] == '`' && t[1] == '`' && t[2] == '`'
}

/// Whether `l` already ends with two spaces.
pub open spec fn ends_with_two_spaces(l: Seq<char>) -> bool {
    l.len() >= 2 && l[l.len() - 2] == ' ' && l[l.len() - 1] == ' '
}

/// Lines as the preview shows them: outside code blocks, every non-blank
/// line that does not end in two spaces gets two spaces appended (a hard
/// line break in Markdown); fence lines toggle the code-block state.
pub open spec fn render_lines(ls: Seq<Seq<char>>, in_code: bool) -> Seq<Seq<char>>
    decreases ls.len(),
{
    if ls.len() == 0 {
        Seq::empty()
    } else {
        let l = ls[0];
        if is_fence(l) {
            seq![l] + render_lines(ls.drop_first(), !in_code)
        } else {
            let out = if !in_code && trimmed(l).len() > 0 && !ends_with_two_spaces(l) {
                l + seq![' ', ' ']
            } else {
                l
            };
            seq![out] + render_lines(ls.drop_first(), in_code)
        }
    }
}

/// The text shown by the preview for `content`.
pub open spec fn preview_spec(content: Seq<char>) -> Seq<char> {
    join_lines(render_lines(split_lines(content), false))
}

pub(crate) fn lead_ws_exec(l: &Vec<char>) -> (r: usize)
    ensures
        r == lead_ws(l@),
        r <= l@.len(),
{
    let mut i: usize = 0;
    assert(l@.subrange(0, l@.len() as int) =~= l@);
    while i < l.len() && char_is_whitespace(l[i])
        invariant
            0 <= i <= l@.len(),
            lead_ws(l@) == i + lead_ws(l@.subrange(i as int, l@.len() as int)),
        decreases l@.len() - i,
    {
        assert(l@.subrange(i as int, l@.len() as int).drop_first() =~= l@.subrange(
            i + 1,
            l@.len() as int,
        ));
        i = i + 1;
    }
    if i < l.len() {
        assert(l@.subrange(i as int, l@.len() as int)[0] == l@[i as int]);
    } else {
        assert(l@.subrange(i as int, l@.len() as int).len() == 0);
    }
    i
}

pub(crate) fn trail_end_exec(l: &Vec<char>) -> (r: usize)
    ensures
        r == trail_end(l@),
        r <= l@.len(),
{
    let mut e: usize = l.len();
    assert(l@.take(e as int) =~= l@);
    while e > 0 && char_is_whitespace(l[e - 1])
        invariant
            0 <= e <= l@.len(),
            trail_end(l@) == trail_end(l@.take(e as int)),
        decreases e,
    {
        assert(l@.take(e as int).drop_last() =~= l@.take(e - 1));
        assert(l@.take(e as int).last() == l@[e - 1]);
        e = e - 1;
    }
    if e > 0 {
        assert(l@.take(e as int).last() == l@[e - 1]);
    }
    e
}

/// Decides `is_fence` and whether the trimmed line is empty.
fn classify(l: &Vec<char>) -> (r: (bool, bool))
    ensures
        r.0 == is_fence(l@),
        r.1 == (trimmed(l@).len() == 0),
{
    let a = lead_ws_exec(l);
    let b = trail_end_exec(l);
    if a >= b {
        return (false, true);
    }
    let fence = b - a >= 3 && l[a] == '`' && l[a + 1] == '`' && l[a + 2] == '`';
    (fence, false)
}

/// Splits `h` at line breaks.
pub(crate) fn split_exec(h: &Vec<char>) -> (r: Vec<Vec<char>>)
    ensures
        r@.len() == split_lines(h@).len(),
        forall|i: int| 0 <= i < r@.len() ==> (#[trigger] r@[i])@ == split_lines(h@)[i],
{
    let mut out: Vec<Vec<char>> = Vec::new();
    let mut cur: Vec<char> = Vec::new();
    let mut i: usize = 0;
    assert(h@.take(0) =~= Seq::<char>::empty());
    while i < h.len()
        invariant
            0 <= i <= h@.len(),
            split_lines(h@.take(i as int)).len() == out@.len() + 1,
            forall|k: int|
                0 <= k < out@.len() ==> (#[trigger] out@[k])@ == split_lines(h@.take(i as int))[k],
            cur@ == split_lines(h@.take(i as int)).last(),
        decreases h@.len() - i,
    {
        let ghost prev = h@.take(i as int);
        proof {
            assert(h@.take(i + 1).drop_last() =~= prev);
            assert(h@.take(i + 1).last() == h@[i as int]);
            lemma_split_lines_nonempty(prev);
        }
        let c = h[i];
        if c == '\n' {
            let mut done: Vec<char> = Vec::new();
            std::mem::swap(&mut cur, &mut done);
            out.push(done);
        } else {
            cur.push(c);
        }
        i = i + 1;
    }
    assert(h@.take(h@.len() as int) =~= h@);
    let ghost before = out@;
    out.push(cur);
    assert(forall|k: int| 0 <= k < before.len() ==> out@[k] == before[k]);
    out
}

/// Prepares note text for the preview: outside fenced code blocks, every
/// non-blank line not already ending in two spaces gets two trailing spaces,
/// so that single line breaks render as line breaks.
pub fn preprocess_for_preview(content: &str) -> (r: String)
    ensures
        r@ == preview_spec(content@),
{
    let h = chars_of(content);
    let lines = split_exec(&h);
    let ghost ls = split_lines(h@);
    let mut out: Vec<char> = Vec::new();
    let mut in_code = false;
    let mut i: usize = 0;
    let ghost mut done: Seq<Seq<char>> = Seq::empty();
    proof {
        lemma_split_lines_nonempty(h@);
        assert(ls.skip(0) =~= ls);
        assert(render_lines(ls, false) =~= done + render_lines(ls.skip(0), in_code));
    }
    while i < lines.len()
        invariant
            0 <= i <= lines@.len(),
            lines@.len() == ls.len(),
            ls == split_lines(h@),
            forall|k: int| 0 <= k < lines@.len() ==> (#[trigger] lines@[k])@ == ls[k],
            render_lines(ls, false) == done + render_lines(ls.skip(i as int), in_code),
            done.len() == i,
            out@ == join_lines(done),
        decreases lines@.len() - i,
    {
        let line = &lines[i];
        let (fence, blank) = classify(line);
        let ghost rest = ls.skip(i as int);
        let ghost old_code = in_code;
        proof {
            assert(rest[0] == ls[i as int]);
            assert(rest.drop_first() =~= ls.skip(i + 1));
        }
        let mut piece: Vec<char> = Vec::new();
        push_all(&mut piece, line);
        if fence {
            in_code = !in_code;
        } else {
            let n = line.len();
            let two = n >= 2 && line[n - 2] == ' ' && line[n - 1] == ' ';
            if !in_code && !blank && !two {
                piece.push(' ');
                piece.push(' ');
            }
        }
        proof {
            assert(piece@ =~= render_lines(rest, old_code)[0]);
            assert(render_lines(rest, old_code) =~= seq![piece@] + render_lines(
                ls.skip(i + 1),
                in_code,
            ));
        }
        if i > 0 {
            out.push('\n');
        }
        push_all(&mut out, &piece);
        proof {
            let nd = done.push(piece@);
            assert(nd.drop_last() =~= done);
            assert(render_lines(ls, false) =~= nd + render_lines(ls.skip(i + 1), in_code));
            if i == 0 {
                assert(out@ =~= join_lines(nd));
            } else {
                assert(out@ =~= join_lines(nd));
            }
            done = nd;
        }
        i = i + 1;
    }
    proof {
        assert(ls.skip(i as int) =~= Seq::<Seq<char>>::empty());
        assert(render_lines(ls, false) =~= done);
    }
    string_from_chars(out.as_slice())
}

/// The characters of `h` without leading and trailing whitespace.
pub fn trim_chars(h: &Vec<char>) -> (r: Vec<char>)
    ensures
        r@ == trimmed(h@),
{
    let a = lead_ws_exec(h);
    let b = trail_end_exec(h);
    let mut out: Vec<char> = Vec::new();
    if a >= b {
        return out;
    }
    let mut i = a;
    while i < b
        invariant
            a <= i <= b <= h@.len(),
            out@ == h@.subrange(a as int, i as int),
        decreases b - i,
    {
        out.push(h[i]);
        i = i + 1;
        assert(out@ =~= h@.subrange(a as int, i as int));
    }
    out
}

/// The preview changes nothing but line ends: it keeps the number of lines
/// and each line either stays as it is or gets two spaces appended, and
/// fence lines always stay as they are.
pub proof fn law_preview_only_appends_spaces(ls: Seq<Seq<char>>, in_code: bool)
    ensures
        render_lines(ls, in_code).len() == ls.len(),
        forall|i: int|
            0 <= i < ls.len() ==> {
                ||| #[trigger] render_lines(ls, in_code)[i] == ls[i]
                ||| render_lines(ls, in_code)[i] == ls[i] + seq![' ', ' ']
            },
        forall|i: int|
            0 <= i < ls.len() && is_fence(ls[i]) ==> #[trigger] render_lines(ls, in_code)[i]
                == ls[i],
    decreases ls.len(),
{
    if ls.len() > 0 {
        let l = ls[0];
        let next = if is_fence(l) {
            !in_code
        } else {
            in_code
        };
        law_preview_only_appends_spaces(ls.drop_first(), next);
        let r = render_lines(ls, in_code);
        let rest = render_lines(ls.drop_first(), next);
        assert forall|i: int| 1 <= i < ls.len() implies r[i] == rest[i - 1] by {}
        assert forall|i: int| 1 <= i < ls.len() implies ls[i] == ls.drop_first()[i - 1] by {}
    }
}

/// Splitting at a line feed splits the two sides apart.
pub(crate) proof fn lemma_split_at_newline(a: Seq<char>, b: Seq<char>)
    ensures
        split_lines(a + seq!['\n'] + b) == split_lines(a) + split_lines(b),
    decreases b.len(),
{
    let s = a + seq!['\n'] + b;
    if b.len() == 0 {
        assert(s.drop_last() =~= a);
        assert(split_lines(b) =~= seq![Seq::<char>::empty()]);
        assert(split_lines(a).push(Seq::empty()) =~= split_lines(a) + split_lines(b));
    } else {
        let b1 = b.drop_last();
        lemma_split_at_newline(a, b1);
        lemma_split_lines_nonempty(b1);
        assert(s.drop_last() =~= a + seq!['\n'] + b1);
        assert(s.last() == b.last());
        let la = split_lines(a);
        let lb1 = split_lines(b1);
        if b.last() == '\n' {
            assert(split_lines(s) =~= la + lb1.push(Seq::empty()));
        } else {
            let whole = la + lb1;
            assert(whole.update(whole.len() - 1, whole.last().push(b.last())) =~= la + lb1.update(
                lb1.len() - 1,
                lb1.last().push(b.last()),
            ));
        }
    }
}

/// Text without a line feed is a single line.
pub(crate) proof fn lemma_split_single(x: Seq<char>)
    requires
        !x.contains('\n'),
    ensures
        split_lines(x) == seq![x],
    decreases x.len(),
{
    if x.len() > 0 {
        let x1 = x.drop_last();
        assert forall|i: int| 0 <= i < x1.len() implies x1[i] != '\n' by {
            assert(x[i] == x1[i]);
        }
        lemma_split_single(x1);
        assert(x[x.len() - 1] == x.last());
        assert(x.last() != '\n');
        assert(x1.push(x.last()) =~= x);
        assert(seq![x1].update(0, x1.push(x.last())) =~= seq![x]);
    } else {
        assert(x =~= Seq::<char>::empty());
    }
}


/// No piece of `split_lines` holds a line feed.
proof fn lemma_split_pieces_plain(s: Seq<char>)
    ensures
        forall|i: int|
            0 <= i < split_lines(s).len() ==> !(#[trigger] split_lines(s)[i]).contains('\n'),
    decreases s.len(),
{
    if s.len() > 0 {
        let s1 = s.drop_last();
        lemma_split_pieces_plain(s1);
        lemma_split_lines_nonempty(s1);
        let ls = split_lines(s1);
        if s.last() != '\n' {
            let l = ls.last().push(s.last());
            assert forall|k: int| 0 <= k < l.len() implies l[k] != '\n' by {
                if k < l.len() - 1 {
                    assert(l[k] == ls.last()[k]);
                    assert(ls[ls.len() - 1] == ls.last());
                    if ls.last()[k] == '\n' {
                        assert(ls[ls.len() - 1].contains('\n'));
                    }
                }
            }
            assert forall|i: int|
                0 <= i < split_lines(s).len() implies !(#[trigger] split_lines(s)[i]).contains('\n') by {
                if i < ls.len() - 1 {
                    assert(split_lines(s)[i] == ls[i]);
                } else {
                    assert(split_lines(s)[i] == l);
                }
            }
        } else {
            assert forall|i: int|
                0 <= i < split_lines(s).len() implies !(#[trigger] split_lines(s)[i]).contains('\n') by {
                if i < ls.len() {
                    assert(split_lines(s)[i] == ls[i]);
                } else {
                    assert(split_lines(s)[i] =~= Seq::<char>::empty());
                }
            }
        }
    }
}

/// Joining lines without line feeds and splitting again gives them back.
proof fn lemma_split_join(ls: Seq<Seq<char>>)
    requires
        ls.len() >= 1,
        forall|i: int| 0 <= i < ls.len() ==> !(#[trigger] ls[i]).contains('\n'),
    ensures
        split_lines(join_lines(ls)) == ls,
    decreases ls.len(),
{
    if ls.len() == 1 {
        lemma_split_single(ls[0]);
        assert(seq![ls[0]] =~= ls);
    } else {
        let init = ls.drop_last();
        assert forall|i: int| 0 <= i < init.len() implies !(#[trigger] init[i]).contains('\n') by {
            assert(init[i] == ls[i]);
        }
        lemma_split_join(init);
        assert(ls[ls.len() - 1] == ls.last());
        lemma_split_single(ls.last());
        lemma_split_at_newline(join_lines(init), ls.last());
        assert(init + seq![ls.last()] =~= ls);
    }
}

proof fn lemma_lead_ws_bound(l: Seq<char>)
    ensures
        0 <= lead_ws(l) <= l.len(),
    decreases l.len(),
{
    if l.len() > 0 {
        lemma_lead_ws_bound(l.drop_first());
    }
}

proof fn lemma_trail_end_bound(l: Seq<char>)
    ensures
        0 <= trail_end(l) <= l.len(),
    decreases l.len(),
{
    if l.len() > 0 {
        lemma_trail_end_bound(l.drop_last());
    }
}

/// Appending text after a line's first visible character leaves its
/// leading whitespace alone; after an all-blank line it only grows.
proof fn lemma_lead_ws_append(l: Seq<char>, x: Seq<char>)
    ensures
        lead_ws(l) < l.len() ==> lead_ws(l + x) == lead_ws(l),
        lead_ws(l) >= l.len() ==> lead_ws(l + x) >= l.len(),
    decreases l.len(),
{
    lemma_lead_ws_bound(l + x);
    if l.len() > 0 {
        assert((l + x)[0] == l[0]);
        assert((l + x).drop_first() =~= l.drop_first() + x);
        lemma_lead_ws_append(l.drop_first(), x);
        lemma_lead_ws_bound(l.drop_first());
        if is_white_space(l[0]) {
            assert(lead_ws(l) == 1 + lead_ws(l.drop_first()));
            assert(lead_ws(l + x) == 1 + lead_ws(l.drop_first() + x));
        } else {
            assert(lead_ws(l) == 0);
        }
    }
}

/// Two appended spaces change nothing of what the line trims to.
proof fn lemma_trim_two_spaces(l: Seq<char>)
    ensures
        trimmed(l + seq![' ', ' ']) == trimmed(l),
{
    let x = seq![' ', ' '];
    let l2 = l + x;
    assert(l2.drop_last() =~= l.push(' '));
    assert(l.push(' ').drop_last() =~= l);
    assert(l2.last() == ' ');
    assert(l.push(' ').last() == ' ');
    assert(is_white_space(' '));
    assert(trail_end(l2) == trail_end(l.push(' ')));
    assert(trail_end(l.push(' ')) == trail_end(l));
    lemma_lead_ws_bound(l);
    lemma_trail_end_bound(l);
    lemma_lead_ws_append(l, x);
    if lead_ws(l) < l.len() && lead_ws(l) < trail_end(l) {
        assert(l2.subrange(lead_ws(l), trail_end(l)) =~= l.subrange(lead_ws(l), trail_end(l)));
    }
}

/// Rendering rendered lines again changes nothing.
proof fn lemma_render_twice(ls: Seq<Seq<char>>, in_code: bool)
    ensures
        render_lines(render_lines(ls, in_code), in_code) == render_lines(ls, in_code),
    decreases ls.len(),
{
    if ls.len() > 0 {
        let l = ls[0];
        let r = render_lines(ls, in_code);
        let next = if is_fence(l) {
            !in_code
        } else {
            in_code
        };
        lemma_render_twice(ls.drop_first(), next);
        let rest = render_lines(ls.drop_first(), next);
        let out = if is_fence(l) {
            l
        } else if !in_code && trimmed(l).len() > 0 && !ends_with_two_spaces(l) {
            l + seq![' ', ' ']
        } else {
            l
        };
        assert(r == seq![out] + rest);
        assert(r[0] == out);
        assert(r.drop_first() =~= rest);
        lemma_trim_two_spaces(l);
        if out != l {
            let o = l + seq![' ', ' '];
            assert(o[o.len() - 2] == ' ' && o[o.len() - 1] == ' ');
        }
        assert(is_fence(out) == is_fence(l));
        assert(render_lines(r, in_code) =~= seq![out] + render_lines(rest, next));
    }
}

/// Preparing the preview twice gives the same text as preparing it once.
pub proof fn law_preview_idempotent(content: Seq<char>)
    ensures
        preview_spec(preview_spec(content)) == preview_spec(content),
{
    let ls = split_lines(content);
    let r = render_lines(ls, false);
    lemma_split_lines_nonempty(content);
    lemma_split_pieces_plain(content);
    law_preview_only_appends_spaces(ls, false);
    assert forall|i: int| 0 <= i < r.len() implies !(#[trigger] r[i]).contains('\n') by {
        assert(!ls[i].contains('\n'));
        if r[i] != ls[i] {
            let y = ls[i] + seq![' ', ' '];
            assert(r[i] == y);
            if y.contains('\n') {
                let k = choose|k: int| 0 <= k < y.len() && y[k] == '\n';
                if k < ls[i].len() {
                    assert(ls[i][k] == '\n');
                }
            }
        }
    }
    lemma_split_join(r);
    lemma_render_twice(ls, false);
}

/// Whether line `i` lies inside a fenced code block, when the text starts
/// with `in_code`: each fence line before it opens or closes a block.
pub open spec fn in_code_at(ls: Seq<Seq<char>>, in_code: bool, i: int) -> bool
    decreases i,
{
    if i <= 0 {
        in_code
    } else {
        let before = in_code_at(ls, in_code, i - 1);
        if is_fence(ls[i - 1]) {
            !before
        } else {
            before
        }
    }
}

proof fn lemma_in_code_shift(ls: Seq<Seq<char>>, in_code: bool, i: int)
    requires
        1 <= i <= ls.len(),
    ensures
        in_code_at(ls, in_code, i) == in_code_at(
            ls.drop_first(),
            if is_fence(ls[0]) {
                !in_code
            } else {
                in_code
            },
            i - 1,
        ),
    decreases i,
{
    let next = if is_fence(ls[0]) {
        !in_code
    } else {
        in_code
    };
    if i == 1 {
        assert(in_code_at(ls, in_code, 0) == in_code);
        assert(in_code_at(ls, in_code, 1) == next);
        assert(in_code_at(ls.drop_first(), next, 0) == next);
    } else {
        lemma_in_code_shift(ls, in_code, i - 1);
        assert(ls.drop_first()[i - 2] == ls[i - 1]);
        assert(in_code_at(ls, in_code, i) == (if is_fence(ls[i - 1]) {
            !in_code_at(ls, in_code, i - 1)
        } else {
            in_code_at(ls, in_code, i - 1)
        }));
        assert(in_code_at(ls.drop_first(), next, i - 1) == (if is_fence(ls.drop_first()[i - 2]) {
            !in_code_at(ls.drop_first(), next, i - 2)
        } else {
            in_code_at(ls.drop_first(), next, i - 2)
        }));
    }
}

/// Which lines get a hard break: every line outside code blocks that is
/// neither blank nor a fence comes out ending in two spaces (two appended
/// unless it already ended so); every other line, and every line already
/// ending in two spaces, comes out unchanged.
pub proof fn law_preview_hard_breaks(ls: Seq<Seq<char>>, in_code: bool)
    ensures
        forall|i: int|
            0 <= i < ls.len() ==> {
                let l = ls[i];
                let o = #[trigger] render_lines(ls, in_code)[i];
                &&& (is_fence(l) || in_code_at(ls, in_code, i) || trimmed(l).len() == 0) ==> o == l
                &&& (!is_fence(l) && !in_code_at(ls, in_code, i) && trimmed(l).len() > 0) ==> {
                    &&& o.len() >= 2
                    &&& o[o.len() - 2] == ' '
                    &&& o[o.len() - 1] == ' '
                    &&& (o == l || o == l + seq![' ', ' '])
                }
                &&& (l.len() >= 2 && l[l.len() - 2] == ' ' && l[l.len() - 1] == ' ') ==> o == l
            },
    decreases ls.len(),
{
    if ls.len() > 0 {
        let l0 = ls[0];
        let next = if is_fence(l0) {
            !in_code
        } else {
            in_code
        };
        let rest = ls.drop_first();
        law_preview_hard_breaks(rest, next);
        let r = render_lines(ls, in_code);
        let rr = render_lines(rest, next);
        law_preview_only_appends_spaces(rest, next);
        let out = if is_fence(l0) {
            l0
        } else if !in_code && trimmed(l0).len() > 0 && !ends_with_two_spaces(l0) {
            l0 + seq![' ', ' ']
        } else {
            l0
        };
        assert(r == seq![out] + rr);
        assert(r.len() == ls.len());
        assert forall|i: int| 1 <= i < ls.len() implies r[i] == rr[i - 1] && ls[i] == rest[i - 1]
            && in_code_at(ls, in_code, i) == in_code_at(rest, next, i - 1) by {
            lemma_in_code_shift(ls, in_code, i);
        }
        let o = r[0];
        if !is_fence(l0) && !in_code && trimmed(l0).len() > 0 && !ends_with_two_spaces(l0) {
            let y = l0 + seq![' ', ' '];
            assert(o == y);
            assert(y[y.len() - 2] == ' ' && y[y.len() - 1] == ' ');
        }
        assert forall|i: int| 0 <= i < ls.len() implies {
            let l = ls[i];
            let o = #[trigger] render_lines(ls, in_code)[i];
            &&& (is_fence(l) || in_code_at(ls, in_code, i) || trimmed(l).len() == 0) ==> o == l
            &&& (!is_fence(l) && !in_code_at(ls, in_code, i) && trimmed(l).len() > 0) ==> {
                &&& o.len() >= 2
                &&& o[o.len() - 2] == ' '
                &&& o[o.len() - 1] == ' '
                &&& (o == l || o == l + seq![' ', ' '])
            }
            &&& (l.len() >= 2 && l[l.len() - 2] == ' ' && l[l.len() - 1] == ' ') ==> o == l
        } by {
            if i > 0 {
                assert(render_lines(rest, next)[i - 1] == rr[i - 1]);
            }
        }
    }
}

} // verus!
