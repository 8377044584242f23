//! Case-insensitive full-text search inside note contents.

use vstd::prelude::*;
use crate::model::{SearchResult, SearchResultView};
use crate::highlight::NoteSearchMatch;
use crate::text::{
    char_lowercase, str_lowercase, lowercase_char, lowercase_str, chars_of, chars_equal,
    is_prefix_of, push_all, utf8_len, char_width, lemma_utf8_len_push, is_white_space,
    char_is_whitespace, string_from_chars, str_eq,
};

verus! {

broadcast use vstd::string::group_string_axioms;

/// The characters of `s` lowercased one by one and concatenated.
pub open spec fn lower_all(s: Seq<char>) -> Seq<char>
    decreases s.len(),
{
    if s.len() == 0 {
        Seq::empty()
    } else {
        lower_all(s.drop_last()) + char_lowercase(s.last())
    }
}

/// Lowercasing character by character distributes over concatenation.
pub proof fn lemma_lower_all_concat(a: Seq<char>, b: Seq<char>)
    ensures
        lower_all(a + b) == lower_all(a) + lower_all(b),
    decreases b.len(),
{
    if b.len() == 0 {
        assert(a + b =~= a);
        assert(lower_all(a) + lower_all(b) =~= lower_all(a));
    } else {
        lemma_lower_all_concat(a, b.drop_last());
        assert((a + b).drop_last() =~= a + b.drop_last());
        assert((a + b).last() == b.last());
        assert(lower_all(a + b) =~= lower_all(a) + lower_all(b));
    }
}

/// Whether some run of characters starting at `start` lowercases (character
/// by character) to exactly `target`.
pub open spec fn matches_at(h: Seq<char>, start: int, target: Seq<char>) -> bool {
    exists|k: int|
        1 <= k <= h.len() - start && #[trigger] lower_all(h.subrange(start, start + k)) == target
}

/// The first character index at or after `from` where `needle` matches
/// `h` ignoring case; an empty needle matches right at `from`.
pub open spec fn first_match_from(h: Seq<char>, needle: Seq<char>, from: int) -> Option<int>
    decreases h.len() - from,
{
    if needle.len() == 0 {
        Some(from)
    } else if from >= h.len() || from < 0 {
        None
    } else if matches_at(h, from, str_lowercase(needle)) {
        Some(from)
    } else {
        first_match_from(h, needle, from + 1)
    }
}

pub open spec fn opt_int(o: Option<usize>) -> Option<int> {
    match o {
        Some(x) => Some(x as int),
        None => None,
    }
}

/// Decides `matches_at(h, start, target)`.
fn match_at(h: &Vec<char>, start: usize, target: &Vec<char>) -> (r: bool)
    requires
        start < h@.len(),
    ensures
        r == matches_at(h@, start as int, target@),
{
    let mut lowered: Vec<char> = Vec::new();
    let mut j: usize = start;
    let ghost hs = h@;
    assert(hs.subrange(start as int, start as int) =~= Seq::<char>::empty());
    while j < h.len()
        invariant
            start <= j <= hs.len(),
            hs == h@,
            lowered@ == lower_all(hs.subrange(start as int, j as int)),
            forall|k: int|
                1 <= k <= j - start ==> #[trigger] lower_all(
                    hs.subrange(start as int, start + k),
                ) != target@,
            j > start ==> lowered@.len() < target@.len() && target@.take(lowered@.len() as int)
                == lowered@,
        decreases hs.len() - j,
    {
        let lc = lowercase_char(h[j]);
        push_all(&mut lowered, &lc);
        proof {
            assert(hs.subrange(start as int, j + 1).drop_last() =~= hs.subrange(
                start as int,
                j as int,
            ));
        }
        j = j + 1;
        if chars_equal(&lowered, target) {
            assert(lower_all(hs.subrange(start as int, start + (j - start))) == target@);
            return true;
        }
        if lowered.len() >= target.len() || !is_prefix_of(&lowered, target) {
            proof {
                assert forall|k: int| 1 <= k <= hs.len() - start implies #[trigger] lower_all(
                    hs.subrange(start as int, start + k),
                ) != target@ by {
                    if k > j - start {
                        lemma_lower_all_concat(
                            hs.subrange(start as int, j as int),
                            hs.subrange(j as int, start + k),
                        );
                        assert(hs.subrange(start as int, j as int) + hs.subrange(
                            j as int,
                            start + k,
                        ) =~= hs.subrange(start as int, start + k));
                        let whole = lower_all(hs.subrange(start as int, start + k));
                        assert(whole.take(lowered@.len() as int) =~= lowered@);
                        if whole == target@ {
                            assert(lowered@.len() <= target@.len());
                        }
                    }
                }
            }
            return false;
        }
    }
    false
}

/// Finds the first match of `needle` (whose lowercase form is `target`) in
/// `h` at or after the character index `from`.
fn find_from(h: &Vec<char>, needle: &Vec<char>, target: &Vec<char>, from: usize) -> (r: Option<
    usize,
>)
    requires
        from <= h@.len(),
        target@ == str_lowercase(needle@),
    ensures
        opt_int(r) == first_match_from(h@, needle@, from as int),
{
    if needle.len() == 0 {
        return Some(from);
    }
    let mut s: usize = from;
    while s < h.len()
        invariant
            from <= s <= h@.len(),
            needle@.len() > 0,
            target@ == str_lowercase(needle@),
            first_match_from(h@, needle@, from as int) == first_match_from(h@, needle@, s as int),
        decreases h@.len() - s,
    {
        if match_at(h, s, target) {
            return Some(s);
        }
        s = s + 1;
    }
    None
}

/// The number of line breaks in `s`: the 0-based line on which the text
/// following `s` starts.
pub open spec fn line_of(s: Seq<char>) -> nat
    decreases s.len(),
{
    if s.len() == 0 {
        0
    } else {
        line_of(s.drop_last()) + (if s.last() == '\n' {
            1nat
        } else {
            0nat
        })
    }
}

/// The number of characters after the last line break of `s`: the 0-based
/// column at which the text following `s` starts.
pub open spec fn column_of(s: Seq<char>) -> nat
    decreases s.len(),
{
    if s.len() == 0 {
        0
    } else if s.last() == '\n' {
        0
    } else {
        column_of(s.drop_last()) + 1
    }
}

/// Moves a (line, column) position over `h[pos..to]`.
fn advance(h: &Vec<char>, pos: usize, to: usize, line: usize, column: usize) -> (r: (usize, usize))
    requires
        pos <= to <= h@.len(),
        line == line_of(h@.take(pos as int)),
        column == column_of(h@.take(pos as int)),
        line <= pos,
        column <= pos,
    ensures
        r.0 == line_of(h@.take(to as int)),
        r.1 == column_of(h@.take(to as int)),
        r.0 <= to,
        r.1 <= to,
{
    let mut p = pos;
    let mut l = line;
    let mut c = column;
    while p < to
        invariant
            pos <= p <= to <= h@.len(),
            l == line_of(h@.take(p as int)),
            c == column_of(h@.take(p as int)),
            l <= p,
            c <= p,
        decreases to - p,
    {
        assert(h@.take(p + 1).drop_last() =~= h@.take(p as int));
        assert(h@.take(p + 1).last() == h@[p as int]);
        if h[p] == '\n' {
            l = l + 1;
            c = 0;
        } else {
            c = c + 1;
        }
        p = p + 1;
    }
    (l, c)
}

/// How far the search moves past a match at `m`: as many characters as the
/// query has (at least one), not beyond the end; one past the end when the
/// match is at the very end.
pub open spec fn step_after(h: Seq<char>, needle: Seq<char>, m: int) -> int {
    if m >= h.len() {
        1
    } else {
        let want = if needle.len() == 0 {
            1
        } else {
            needle.len() as int
        };
        if want <= h.len() - m {
            want
        } else {
            h.len() - m
        }
    }
}

/// Character indices of the successive matches found from `from` on, at
/// most `max` of them; the search resumes after each match and stops at the
/// end of the text.
pub open spec fn match_starts(h: Seq<char>, needle: Seq<char>, from: int, max: nat) -> Seq<int>
    decreases max,
{
    if max == 0 {
        Seq::empty()
    } else {
        match first_match_from(h, needle, from) {
            None => Seq::empty(),
            Some(m) => {
                let next = m + step_after(h, needle, m);
                if next >= h.len() {
                    seq![m]
                } else {
                    seq![m] + match_starts(h, needle, next, (max - 1) as nat)
                }
            },
        }
    }
}

proof fn lemma_first_match_bounds(h: Seq<char>, needle: Seq<char>, from: int)
    requires
        0 <= from <= h.len(),
    ensures
        first_match_from(h, needle, from) matches Some(m) ==> from <= m <= h.len() && (
        needle.len() > 0 ==> m < h.len()) && (needle.len() == 0 ==> m == from),
    decreases h.len() - from,
{
    if needle.len() > 0 && from < h.len() && !matches_at(h, from, str_lowercase(needle)) {
        lemma_first_match_bounds(h, needle, from + 1);
    }
}

/// A match: its character index and the line and column where it starts.
pub struct Found {
    pub start: usize,
    pub line: usize,
    pub column: usize,
}

/// Finds up to `max` successive matches of `needle` (lowercased: `target`).
fn find_all(h: &Vec<char>, needle: &Vec<char>, target: &Vec<char>, max: usize) -> (r: Vec<Found>)
    requires
        target@ == str_lowercase(needle@),
    ensures
        r@.len() == match_starts(h@, needle@, 0, max as nat).len(),
        forall|i: int|
            0 <= i < r@.len() ==> {
                let st = match_starts(h@, needle@, 0, max as nat)[i];
                &&& (#[trigger] r@[i]).start == st
                &&& r@[i].line == line_of(h@.take(st))
                &&& r@[i].column == column_of(h@.take(st))
            },
{
    let ghost all = match_starts(h@, needle@, 0, max as nat);
    let mut results: Vec<Found> = Vec::new();
    let mut search_from: usize = 0;
    let mut line: usize = 0;
    let mut column: usize = 0;
    assert(h@.take(0) =~= Seq::<char>::empty());
    assert(all =~= Seq::<int>::empty() + match_starts(h@, needle@, 0, max as nat));
    while results.len() < max
        invariant_except_break
            search_from <= h@.len(),
            line == line_of(h@.take(search_from as int)),
            column == column_of(h@.take(search_from as int)),
            line <= search_from,
            column <= search_from,
            results@.len() <= max,
            all == Seq::new(results@.len(), |i: int| results@[i].start as int) + match_starts(
                h@,
                needle@,
                search_from as int,
                (max - results@.len()) as nat,
            ),
        invariant
            target@ == str_lowercase(needle@),
            all == match_starts(h@, needle@, 0, max as nat),
            forall|i: int|
                0 <= i < results@.len() ==> {
                    let st = (#[trigger] results@[i]).start as int;
                    &&& results@[i].line == line_of(h@.take(st))
                    &&& results@[i].column == column_of(h@.take(st))
                },
        ensures
            all == Seq::new(results@.len(), |i: int| results@[i].start as int),
        decreases max - results@.len(),
    {
        let ghost k = results@.len();
        let ghost prefix = Seq::new(results@.len(), |i: int| results@[i].start as int);
        proof {
            lemma_first_match_bounds(h@, needle@, search_from as int);
        }
        match find_from(h, needle, target, search_from) {
            None => {
                assert(all =~= prefix);
                break;
            },
            Some(m) => {
                let (l2, c2) = advance(h, search_from, m, line, column);
                results.push(Found { start: m, line: l2, column: c2 });
                let ghost prefix2 = Seq::new(results@.len(), |i: int| results@[i].start as int);
                assert(prefix2 =~= prefix.push(m as int));
                if m >= h.len() {
                    assert(all =~= prefix2);
                    break;
                }
                let want: usize = if needle.len() == 0 {
                    1
                } else {
                    needle.len()
                };
                let step: usize = if want <= h.len() - m {
                    want
                } else {
                    h.len() - m
                };
                let next = m + step;
                assert(next == m + step_after(h@, needle@, m as int));
                let (l3, c3) = advance(h, m, next, l2, c2);
                line = l3;
                column = c3;
                search_from = next;
                if search_from >= h.len() {
                    assert(all =~= prefix2);
                    break;
                }
                assert(all =~= prefix2 + match_starts(
                    h@,
                    needle@,
                    search_from as int,
                    (max - results@.len()) as nat,
                ));
            },
        }
    }
    results
}

/// Where a match starts: byte offset into the text, 0-based line and
/// 0-based column (in characters).
#[derive(Debug, Clone, Copy, PartialEq, Eq, Structural)]
pub struct MatchLocation {
    pub byte_index: usize,
    pub line: usize,
    pub column: usize,
}

/// Whether `m` describes the position of character index `st` in `h`.
pub open spec fn located_at(h: Seq<char>, st: int, m: MatchLocation) -> bool {
    &&& m.byte_index == utf8_len(h.take(st))
    &&& m.line == line_of(h.take(st))
    &&& m.column == column_of(h.take(st))
}

/// The byte offset of the character index `k`.
fn byte_offset(h: &Vec<char>, k: usize) -> (r: usize)
    requires
        k <= h@.len(),
        utf8_len(h@) <= usize::MAX,
    ensures
        r == utf8_len(h@.take(k as int)),
{
    let mut i: usize = 0;
    let mut b: usize = 0;
    assert(h@.take(0) =~= Seq::<char>::empty());
    assert(vstd::utf8::encode_utf8(Seq::<char>::empty()) =~= Seq::<u8>::empty());
    while i < k
        invariant
            0 <= i <= k <= h@.len(),
            utf8_len(h@) <= usize::MAX,
            b == utf8_len(h@.take(i as int)),
        decreases k - i,
    {
        proof {
            assert(h@.take(i + 1) =~= h@.take(i as int).push(h@[i as int]));
            lemma_utf8_len_push(h@.take(i as int), h@[i as int]);
            crate::text::lemma_utf8_len_prefix(h@, i + 1, h@.len() as int);
            assert(h@.take(h@.len() as int) =~= h@);
        }
        b = b + char_width(h[i]);
        i = i + 1;
    }
    b
}

/// Byte index of the first case-insensitive occurrence of `needle` in
/// `haystack`; an empty needle is found at 0.
pub fn find_case_insensitive(haystack: &str, needle: &str) -> (r: Option<usize>)
    requires
        utf8_len(haystack@) <= usize::MAX,
    ensures
        match first_match_from(haystack@, needle@, 0) {
            None => r is None,
            Some(st) => r == Some(utf8_len(haystack@.take(st)) as usize),
        },
{
    let h = chars_of(haystack);
    let n = chars_of(needle);
    let t = chars_of(lowercase_str(needle).as_str());
    proof {
        lemma_first_match_bounds(h@, n@, 0);
    }
    match find_from(&h, &n, &t, 0) {
        None => None,
        Some(st) => Some(byte_offset(&h, st)),
    }
}

/// Locates the first case-insensitive occurrence of `query` in `content`.
pub fn locate_match(content: &str, query: &str) -> (r: Option<MatchLocation>)
    requires
        utf8_len(content@) <= usize::MAX,
    ensures
        match first_match_from(content@, query@, 0) {
            None => r is None,
            Some(st) => r matches Some(m) && located_at(content@, st, m),
        },
{
    let h = chars_of(content);
    let n = chars_of(query);
    let t = chars_of(lowercase_str(query).as_str());
    proof {
        lemma_first_match_bounds(h@, n@, 0);
        assert(h@.take(0) =~= Seq::<char>::empty());
    }
    match find_from(&h, &n, &t, 0) {
        None => None,
        Some(st) => {
            let (line, column) = advance(&h, 0, st, 0, 0);
            Some(MatchLocation { byte_index: byte_offset(&h, st), line, column })
        },
    }
}

/// Locates up to `max_per_note` successive case-insensitive occurrences of
/// `query` in `content`, each search resuming after the previous match.
pub fn locate_all_matches(content: &str, query: &str, max_per_note: usize) -> (r: Vec<
    MatchLocation,
>)
    requires
        utf8_len(content@) <= usize::MAX,
    ensures
        r@.len() == match_starts(content@, query@, 0, max_per_note as nat).len(),
        forall|i: int|
            0 <= i < r@.len() ==> located_at(
                content@,
                match_starts(content@, query@, 0, max_per_note as nat)[i],
                #[trigger] r@[i],
            ),
{
    let h = chars_of(content);
    let n = chars_of(query);
    let t = chars_of(lowercase_str(query).as_str());
    let found = find_all(&h, &n, &t, max_per_note);
    let mut out: Vec<MatchLocation> = Vec::new();
    let mut i: usize = 0;
    while i < found.len()
        invariant
            0 <= i <= found@.len(),
            h@ == content@,
            utf8_len(h@) <= usize::MAX,
            found@.len() == match_starts(content@, query@, 0, max_per_note as nat).len(),
            forall|j: int|
                0 <= j < found@.len() ==> {
                    let st = match_starts(content@, query@, 0, max_per_note as nat)[j];
                    &&& (#[trigger] found@[j]).start == st
                    &&& found@[j].line == line_of(h@.take(st))
                    &&& found@[j].column == column_of(h@.take(st))
                },
            out@.len() == i,
            forall|j: int|
                0 <= j < i ==> located_at(
                    content@,
                    match_starts(content@, query@, 0, max_per_note as nat)[j],
                    #[trigger] out@[j],
                ),
        decreases found@.len() - i,
    {
        let f = &found[i];
        assert(f.start <= h@.len()) by {
            let st = f.start as int;
            assert(found@[i as int].start == st);
            lemma_match_starts_bounds(content@, query@, 0, max_per_note as nat, i as int);
        }
        let b = byte_offset(&h, f.start);
        out.push(MatchLocation { byte_index: b, line: f.line, column: f.column });
        i = i + 1;
    }
    out
}

/// Every match position lies within the text (or right at its end).
proof fn lemma_match_starts_bounds(h: Seq<char>, needle: Seq<char>, from: int, max: nat, i: int)
    requires
        0 <= from <= h.len(),
        0 <= i < match_starts(h, needle, from, max).len(),
    ensures
        from <= match_starts(h, needle, from, max)[i] <= h.len(),
    decreases max,
{
    lemma_first_match_bounds(h, needle, from);
    if let Some(m) = first_match_from(h, needle, from) {
        let next = m + step_after(h, needle, m);
        if next < h.len() && i > 0 {
            lemma_match_starts_bounds(h, needle, next, (max - 1) as nat, i - 1);
        }
    }
}

/// `s` with every line break replaced by a space.
pub open spec fn newlines_to_spaces(s: Seq<char>) -> Seq<char> {
    Seq::new(s.len(), |i: int| if s[i] == '\n' { ' ' } else { s[i] })
}

fn push_replacing_newlines(dst: &mut Vec<char>, h: &Vec<char>, from: usize, to: usize)
    requires
        from <= to <= h@.len(),
    ensures
        final(dst)@ == old(dst)@ + newlines_to_spaces(h@.subrange(from as int, to as int)),
{
    let mut i = from;
    while i < to
        invariant
            from <= i <= to <= h@.len(),
            dst@ == old(dst)@ + newlines_to_spaces(h@.subrange(from as int, i as int)),
        decreases to - i,
    {
        let c = h[i];
        dst.push(if c == '\n' { ' ' } else { c });
        i = i + 1;
        assert(dst@ =~= old(dst)@ + newlines_to_spaces(h@.subrange(from as int, i as int)));
    }
}

/// The first 60 characters of a note, on one line: used as the excerpt
/// when only the title matched.
pub fn fallback_snippet(content: &str) -> (r: String)
    ensures
        r@ == newlines_to_spaces(content@.take(if content@.len() < 60 { content@.len() as int } else { 60 })),
{
    let h = chars_of(content);
    let n: usize = if h.len() < 60 {
        h.len()
    } else {
        60
    };
    let mut out: Vec<char> = Vec::new();
    push_replacing_newlines(&mut out, &h, 0, n);
    assert(out@ =~= newlines_to_spaces(h@.take(n as int)));
    crate::text::string_from_chars(out.as_slice())
}

/// Index just after the last line break before `k` (0 if none).
pub open spec fn line_start(h: Seq<char>, k: int) -> int
    decreases k,
{
    if k <= 0 {
        0
    } else if h[k - 1] == '\n' {
        k
    } else {
        line_start(h, k - 1)
    }
}

/// Index of the first line break at or after `k` (the length if none).
pub open spec fn line_end(h: Seq<char>, k: int) -> int
    decreases h.len() - k,
{
    if k >= h.len() {
        h.len() as int
    } else if h[k] == '\n' {
        k
    } else {
        line_end(h, k + 1)
    }
}

proof fn lemma_line_bounds(h: Seq<char>, k: int)
    requires
        0 <= k <= h.len(),
    ensures
        0 <= line_start(h, k) <= k <= line_end(h, k) <= h.len(),
    decreases h.len() - k + k,
{
    if k > 0 && h[k - 1] != '\n' {
        lemma_line_bounds_start(h, k - 1);
    }
    lemma_line_bounds_end(h, k);
}

proof fn lemma_line_bounds_start(h: Seq<char>, k: int)
    requires
        0 <= k <= h.len(),
    ensures
        0 <= line_start(h, k) <= k,
    decreases k,
{
    if k > 0 && h[k - 1] != '\n' {
        lemma_line_bounds_start(h, k - 1);
    }
}

proof fn lemma_line_bounds_end(h: Seq<char>, k: int)
    requires
        0 <= k <= h.len(),
    ensures
        k <= line_end(h, k) <= h.len(),
    decreases h.len() - k,
{
    if k < h.len() && h[k] != '\n' {
        lemma_line_bounds_end(h, k + 1);
    }
}

/// The whole line (without its line break) on which character `k` lies.
fn full_line_at(h: &Vec<char>, k: usize) -> (r: Vec<char>)
    requires
        k <= h@.len(),
    ensures
        r@ == h@.subrange(line_start(h@, k as int), line_end(h@, k as int)),
{
    let mut a = k;
    while a > 0 && h[a - 1] != '\n'
        invariant
            0 <= a <= k <= h@.len(),
            line_start(h@, a as int) == line_start(h@, k as int),
        decreases a,
    {
        a = a - 1;
    }
    let mut b = k;
    while b < h.len() && h[b] != '\n'
        invariant
            k <= b <= h@.len(),
            line_end(h@, b as int) == line_end(h@, k as int),
        decreases h@.len() - b,
    {
        b = b + 1;
    }
    let mut out: Vec<char> = Vec::new();
    let mut i = a;
    while i < b
        invariant
            a <= i <= b <= h@.len(),
            out@ == h@.subrange(a as int, i as int),
        decreases b - i,
    {
        out.push(h[i]);
        i = i + 1;
        assert(out@ =~= h@.subrange(a as int, i as int));
    }
    out
}

/// Whether `b` is the byte offset of a character boundary of `h`.
pub open spec fn is_boundary(h: Seq<char>, b: int) -> bool {
    exists|k: int| 0 <= k <= h.len() && #[trigger] utf8_len(h.take(k)) == b
}

/// The character index at byte offset `b`.
fn char_index_of_byte(h: &Vec<char>, b: usize) -> (r: usize)
    requires
        is_boundary(h@, b as int),
        utf8_len(h@) <= usize::MAX,
    ensures
        r <= h@.len(),
        utf8_len(h@.take(r as int)) == b,
{
    let ghost k = choose|k: int| 0 <= k <= h@.len() && #[trigger] utf8_len(h@.take(k)) == b;
    let mut i: usize = 0;
    let mut bytes: usize = 0;
    assert(h@.take(0) =~= Seq::<char>::empty());
    assert(vstd::utf8::encode_utf8(Seq::<char>::empty()) =~= Seq::<u8>::empty());
    let hl = h.len();
    assert(h@.len() <= usize::MAX);
    while bytes < b
        invariant
            0 <= i <= k <= h@.len(),
            h@.len() <= usize::MAX,
            utf8_len(h@.take(k)) == b,
            utf8_len(h@) <= usize::MAX,
            bytes == utf8_len(h@.take(i as int)),
            bytes <= b,
        decreases k - i,
    {
        proof {
            if i == k {
                assert(false);
            }
            assert(h@.take(i + 1) =~= h@.take(i as int).push(h@[i as int]));
            lemma_utf8_len_push(h@.take(i as int), h@[i as int]);
            crate::text::lemma_utf8_len_prefix(h@, i + 1, k);
        }
        bytes = bytes + char_width(h[i]);
        i = i + 1;
    }
    proof {
        if i < k {
            crate::text::lemma_utf8_len_prefix(h@, i as int, k);
        }
    }
    i
}

/// The whole line (without its line break) holding the character that
/// starts at byte offset `byte_index`.
pub fn extract_full_line(content: &str, byte_index: usize) -> (r: String)
    requires
        is_boundary(content@, byte_index as int),
        utf8_len(content@) <= usize::MAX,
    ensures
        forall|k: int|
            0 <= k <= content@.len() && #[trigger] utf8_len(content@.take(k)) == byte_index ==> r@
                == content@.subrange(line_start(content@, k), line_end(content@, k)),
{
    let h = chars_of(content);
    let k = char_index_of_byte(&h, byte_index);
    proof {
        assert forall|k2: int|
            0 <= k2 <= content@.len() && #[trigger] utf8_len(content@.take(k2))
                == byte_index implies k2 == k by {
            if k2 < k {
                crate::text::lemma_utf8_len_prefix(h@, k2, k as int);
            } else if k2 > k {
                crate::text::lemma_utf8_len_prefix(h@, k as int, k2);
            }
        }
    }
    let line = full_line_at(&h, k);
    crate::text::string_from_chars(line.as_slice())
}

/// The largest index at or after `a` whose prefix takes at most `lo` bytes,
/// scanning forward from `a` (the character boundary at or below `lo`).
pub open spec fn floor_from(h: Seq<char>, lo: int, a: int) -> int
    decreases h.len() - a,
{
    if 0 <= a < h.len() && utf8_len(h.take(a + 1)) <= lo {
        floor_from(h, lo, a + 1)
    } else {
        a
    }
}

/// The first index at or after `b` whose prefix takes at least `hi` bytes
/// (the character boundary at or above `hi`), or the length.
pub open spec fn ceil_from(h: Seq<char>, hi: int, b: int) -> int
    decreases h.len() - b,
{
    if 0 <= b < h.len() && utf8_len(h.take(b)) < hi {
        ceil_from(h, hi, b + 1)
    } else {
        b
    }
}

/// Three dots.
pub open spec fn dots() -> Seq<char> {
    seq!['.', '.', '.']
}

/// The excerpt around the match that starts at character `k`: about 30
/// bytes of context on each side of the matched text (widened to whole
/// characters), with "..." where text was cut off, on one line.
pub open spec fn snippet_spec(h: Seq<char>, k: int, qn: nat) -> Seq<char> {
    let b0 = utf8_len(h.take(k));
    let want = if qn == 0 {
        1
    } else {
        qn as int
    };
    let take_n = if want <= h.len() - k {
        want
    } else {
        h.len() - k
    };
    let ml0 = utf8_len(h.take(k + take_n)) - b0;
    let ml = if ml0 < 1 {
        1
    } else {
        ml0
    };
    let lo = if b0 >= 30 {
        b0 - 30
    } else {
        0
    };
    let total = utf8_len(h);
    let hi = if b0 + ml + 30 < total {
        b0 + ml + 30
    } else {
        total as int
    };
    let a = floor_from(h, lo, 0);
    let b = ceil_from(h, hi, 0);
    (if a > 0 {
        dots()
    } else {
        Seq::empty()
    }) + newlines_to_spaces(h.subrange(a, b)) + (if b < h.len() {
        dots()
    } else {
        Seq::empty()
    })
}

fn push_dots(dst: &mut Vec<char>)
    ensures
        final(dst)@ == old(dst)@ + dots(),
{
    dst.push('.');
    dst.push('.');
    dst.push('.');
    assert(dst@ =~= old(dst)@ + dots());
}

/// An excerpt of `content` around the match starting at byte `byte_index`
/// for `query`: ~30 bytes of context each side, "..." where cut, one line.
pub fn extract_snippet(content: &str, byte_index: usize, query: &str) -> (r: String)
    requires
        is_boundary(content@, byte_index as int),
        utf8_len(content@) + 31 <= usize::MAX,
    ensures
        forall|k: int|
            0 <= k <= content@.len() && #[trigger] utf8_len(content@.take(k)) == byte_index ==> r@
                == snippet_spec(content@, k, query@.len()),
{
    let h = chars_of(content);
    let n = chars_of(query);
    let k = char_index_of_byte(&h, byte_index);
    let len = h.len();
    let want: usize = if n.len() == 0 {
        1
    } else {
        n.len()
    };
    let take_n: usize = if want <= len - k {
        want
    } else {
        len - k
    };
    let total = byte_offset(&h, len);
    assert(h@.take(len as int) =~= h@);
    let e = byte_offset(&h, k + take_n);
    proof {
        crate::text::lemma_utf8_len_prefix(h@, k as int, (k + take_n) as int);
        crate::text::lemma_utf8_len_prefix(h@, (k + take_n) as int, len as int);
    }
    let ml0 = e - byte_index;
    let ml: usize = if ml0 < 1 {
        1
    } else {
        ml0
    };
    let lo: usize = if byte_index >= 30 {
        byte_index - 30
    } else {
        0
    };
    let hi: usize = if byte_index + ml + 30 < total {
        byte_index + ml + 30
    } else {
        total
    };
    proof {
        crate::text::lemma_utf8_len_prefix(h@, k as int, len as int);
    }
    // floor boundary
    let mut a: usize = 0;
    let mut abytes: usize = 0;
    assert(h@.take(0) =~= Seq::<char>::empty());
    assert(vstd::utf8::encode_utf8(Seq::<char>::empty()) =~= Seq::<u8>::empty());
    while a < len && abytes + char_width(h[a]) <= lo
        invariant
            0 <= a <= k <= len == h@.len(),
            abytes == utf8_len(h@.take(a as int)),
            lo <= byte_index == utf8_len(h@.take(k as int)),
            abytes <= lo,
            lo + 31 <= usize::MAX,
            utf8_len(h@) <= usize::MAX,
            utf8_len(h@) + 31 <= usize::MAX,
            floor_from(h@, lo as int, 0) == floor_from(h@, lo as int, a as int),
        decreases len - a,
    {
        proof {
            assert(h@.take(a + 1) =~= h@.take(a as int).push(h@[a as int]));
            lemma_utf8_len_push(h@.take(a as int), h@[a as int]);
            if a == k {
                assert(false);
            }
            crate::text::lemma_utf8_len_prefix(h@, a + 1, len as int);
            assert(h@.take(len as int) =~= h@);
        }
        abytes = abytes + char_width(h[a]);
        a = a + 1;
    }
    proof {
        if a < len {
            assert(h@.take(a + 1) =~= h@.take(a as int).push(h@[a as int]));
            lemma_utf8_len_push(h@.take(a as int), h@[a as int]);
        }
    }
    // ceil boundary
    let mut b: usize = 0;
    let mut bbytes: usize = 0;
    while b < len && bbytes < hi
        invariant
            0 <= b <= len == h@.len(),
            bbytes == utf8_len(h@.take(b as int)),
            utf8_len(h@) <= usize::MAX,
            ceil_from(h@, hi as int, 0) == ceil_from(h@, hi as int, b as int),
        decreases len - b,
    {
        proof {
            assert(h@.take(b + 1) =~= h@.take(b as int).push(h@[b as int]));
            lemma_utf8_len_push(h@.take(b as int), h@[b as int]);
            crate::text::lemma_utf8_len_prefix(h@, b + 1, len as int);
            assert(h@.take(len as int) =~= h@);
        }
        bbytes = bbytes + char_width(h[b]);
        b = b + 1;
    }
    proof {
        if b < k {
            crate::text::lemma_utf8_len_prefix(h@, b as int, k as int);
            crate::text::lemma_utf8_len_prefix(h@, k as int, len as int);
        }
    }
    let mut out: Vec<char> = Vec::new();
    if a > 0 {
        push_dots(&mut out);
    }
    push_replacing_newlines(&mut out, &h, a, b);
    if b < len {
        push_dots(&mut out);
    }
    proof {
        assert forall|k2: int|
            0 <= k2 <= content@.len() && #[trigger] utf8_len(content@.take(k2))
                == byte_index implies k2 == k by {
            if k2 < k {
                crate::text::lemma_utf8_len_prefix(h@, k2, k as int);
            } else if k2 > k {
                crate::text::lemma_utf8_len_prefix(h@, k as int, k2);
            }
        }
        assert(out@ =~= snippet_spec(h@, k as int, n@.len()));
    }
    crate::text::string_from_chars(out.as_slice())
}

/// A note as read for searching.
pub struct NoteRow {
    pub id: String,
    pub folder_id: String,
    pub title: String,
    pub content: String,
}

/// Mathematical view of a note row.
pub struct NoteRowView {
    pub id: Seq<char>,
    pub folder_id: Seq<char>,
    pub title: Seq<char>,
    pub content: Seq<char>,
}

impl View for NoteRow {
    type V = NoteRowView;

    open spec fn view(&self) -> NoteRowView {
        NoteRowView {
            id: self.id@,
            folder_id: self.folder_id@,
            title: self.title@,
            content: self.content@,
        }
    }
}

/// At most this many hits are reported inside one note.
pub const MAX_MATCHES_PER_NOTE: usize = 10;

/// At most this many hits are reported in all.
pub const MAX_TOTAL_RESULTS: usize = 200;

/// The excerpt shown when only the title matched and the note is blank.
pub open spec fn title_hit_text() -> Seq<char> {
    "标题命中"@
}

fn title_hit_string() -> (r: String)
    ensures
        r@ == title_hit_text(),
{
    "标题命中".to_string()
}

/// Whether every character is whitespace (the text trims to nothing).
pub open spec fn all_white_space(s: Seq<char>) -> bool {
    forall|i: int| 0 <= i < s.len() ==> is_white_space(#[trigger] s[i])
}

fn is_blank(h: &Vec<char>) -> (r: bool)
    ensures
        r == all_white_space(h@),
{
    let mut i: usize = 0;
    while i < h.len()
        invariant
            0 <= i <= h@.len(),
            forall|k: int| 0 <= k < i ==> is_white_space(#[trigger] h@[k]),
        decreases h@.len() - i,
    {
        if !char_is_whitespace(h[i]) {
            return false;
        }
        i = i + 1;
    }
    true
}

/// The hits one note contributes for the query `q`: one per content match
/// (the first [`MAX_MATCHES_PER_NOTE`] found), showing the matched line; or, when
/// the content has no match but the title does, a single hit without a
/// position; or nothing.
pub open spec fn row_results(row: NoteRowView, q: Seq<char>) -> Seq<SearchResultView> {
    let h = row.content;
    let starts = match_starts(h, q, 0, MAX_MATCHES_PER_NOTE as nat);
    if starts.len() == 0 {
        if first_match_from(row.title, q, 0) is Some {
            seq![
                SearchResultView {
                    note_id: row.id,
                    folder_id: row.folder_id,
                    title: row.title,
                    snippet: if all_white_space(h) {
                        title_hit_text()
                    } else {
                        newlines_to_spaces(h.take(if h.len() < 60 { h.len() as int } else { 60 }))
                    },
                    match_line: None,
                    match_column: None,
                    match_len: q.len() as usize,
                },
            ]
        } else {
            Seq::empty()
        }
    } else {
        Seq::new(
            starts.len(),
            |i: int|
                SearchResultView {
                    note_id: row.id,
                    folder_id: row.folder_id,
                    title: row.title,
                    snippet: h.subrange(line_start(h, starts[i]), line_end(h, starts[i])),
                    match_line: Some(line_of(h.take(starts[i])) as usize),
                    match_column: Some(column_of(h.take(starts[i])) as usize),
                    match_len: q.len() as usize,
                },
        )
    }
}

/// The hits of all rows, in row order, before the overall limit.
pub open spec fn all_results(rows: Seq<NoteRowView>, q: Seq<char>) -> Seq<SearchResultView>
    decreases rows.len(),
{
    if rows.len() == 0 {
        Seq::empty()
    } else {
        all_results(rows.drop_last(), q) + row_results(rows.last(), q)
    }
}

/// The first [`MAX_TOTAL_RESULTS`] elements of `s` (all of them if fewer).
pub open spec fn capped(s: Seq<SearchResultView>) -> Seq<SearchResultView> {
    if s.len() <= MAX_TOTAL_RESULTS {
        s
    } else {
        s.take(MAX_TOTAL_RESULTS as int)
    }
}

pub open spec fn results_view(v: Seq<SearchResult>) -> Seq<SearchResultView> {
    v.map_values(|r: SearchResult| r@)
}

proof fn lemma_results_view_push(s: Seq<SearchResult>, x: SearchResult)
    ensures
        results_view(s.push(x)) == results_view(s).push(x@),
        results_view(s).len() == s.len(),
{
    assert(results_view(s.push(x)) =~= results_view(s).push(x@));
}

/// The hits of one note.
fn note_results(row: &NoteRow, q: &Vec<char>, t: &Vec<char>) -> (r: Vec<SearchResult>)
    requires
        t@ == str_lowercase(q@),
    ensures
        results_view(r@) == row_results(row@, q@),
{
    let h = chars_of(row.content.as_str());
    let qn = q.len();
    let found = find_all(&h, q, t, MAX_MATCHES_PER_NOTE);
    let ghost starts = match_starts(h@, q@, 0, MAX_MATCHES_PER_NOTE as nat);
    let mut out: Vec<SearchResult> = Vec::new();
    if found.len() == 0 {
        let title = chars_of(row.title.as_str());
        proof {
            lemma_first_match_bounds(title@, q@, 0);
        }
        if find_from(&title, q, t, 0).is_some() {
            let snippet = if is_blank(&h) {
                title_hit_string()
            } else {
                fallback_snippet(row.content.as_str())
            };
            out.push(
                SearchResult {
                    note_id: row.id.clone(),
                    folder_id: row.folder_id.clone(),
                    title: row.title.clone(),
                    snippet,
                    match_line: None,
                    match_column: None,
                    match_len: qn,
                },
            );
        }
        assert(results_view(out@) =~= row_results(row@, q@));
        return out;
    }
    let mut i: usize = 0;
    while i < found.len()
        invariant
            0 <= i <= found@.len(),
            h@ == row.content@,
            qn == q@.len(),
            found@.len() == starts.len(),
            found@.len() > 0,
            starts == match_starts(h@, q@, 0, MAX_MATCHES_PER_NOTE as nat),
            forall|j: int|
                0 <= j < found@.len() ==> {
                    let st = starts[j];
                    &&& (#[trigger] found@[j]).start == st
                    &&& found@[j].line == line_of(h@.take(st))
                    &&& found@[j].column == column_of(h@.take(st))
                },
            results_view(out@) == row_results(row@, q@).take(i as int),
        decreases found@.len() - i,
    {
        let f = &found[i];
        proof {
            lemma_match_starts_bounds(h@, q@, 0, MAX_MATCHES_PER_NOTE as nat, i as int);
        }
        let line = full_line_at(&h, f.start);
        let ghost o = out@;
        out.push(
            SearchResult {
                note_id: row.id.clone(),
                folder_id: row.folder_id.clone(),
                title: row.title.clone(),
                snippet: string_from_chars(line.as_slice()),
                match_line: Some(f.line),
                match_column: Some(f.column),
                match_len: qn,
            },
        );
        proof {
            lemma_results_view_push(o, out@[i as int]);
            assert(out@[i as int]@ == row_results(row@, q@)[i as int]);
        }
        i = i + 1;
        assert(results_view(out@) =~= row_results(row@, q@).take(i as int));
    }
    assert(row_results(row@, q@).take(i as int) =~= row_results(row@, q@));
    out
}

proof fn lemma_all_results_append(a: Seq<NoteRowView>, b: Seq<NoteRowView>, q: Seq<char>)
    ensures
        all_results(a + b, q) == all_results(a, q) + all_results(b, q),
    decreases b.len(),
{
    if b.len() == 0 {
        assert(a + b =~= a);
        assert(all_results(a, q) + all_results(b, q) =~= all_results(a, q));
    } else {
        lemma_all_results_append(a, b.drop_last(), q);
        assert((a + b).drop_last() =~= a + b.drop_last());
        assert((a + b).last() == b.last());
        assert(all_results(a + b, q) =~= all_results(a, q) + all_results(b, q));
    }
}

/// Full-text search over the rows that storage preselected: the hits of
/// every row in row order (at most [`MAX_MATCHES_PER_NOTE`] per note), of
/// which the first [`MAX_TOTAL_RESULTS`] are kept.
pub fn search_notes(rows: &Vec<NoteRow>, query: &str) -> (r: Vec<SearchResult>)
    ensures
        results_view(r@) == capped(all_results(rows@.map_values(|x: NoteRow| x@), query@)),
{
    let ghost rv = rows@.map_values(|x: NoteRow| x@);
    let q = chars_of(query);
    let t = chars_of(lowercase_str(query).as_str());
    let mut out: Vec<SearchResult> = Vec::new();
    let mut i: usize = 0;
    assert(rv.take(0) =~= Seq::<NoteRowView>::empty());
    while i < rows.len() && out.len() < MAX_TOTAL_RESULTS
        invariant
            0 <= i <= rows@.len(),
            rv == rows@.map_values(|x: NoteRow| x@),
            q@ == query@,
            t@ == str_lowercase(query@),
            out@.len() <= MAX_TOTAL_RESULTS,
            results_view(out@) == capped(all_results(rv.take(i as int), query@)),
        decreases rows@.len() - i,
    {
        let hits = note_results(&rows[i], &q, &t);
        let ghost before = out@;
        let mut j: usize = 0;
        while j < hits.len() && out.len() < MAX_TOTAL_RESULTS
            invariant
                0 <= j <= hits@.len(),
                out@.len() <= MAX_TOTAL_RESULTS,
                results_view(out@) == results_view(before) + results_view(hits@).take(j as int),
            decreases hits@.len() - j,
        {
            let ghost o = out@;
            out.push(copy_result(&hits[j]));
            proof {
                lemma_results_view_push(o, out@[o.len() as int]);
                assert(o.push(out@[o.len() as int]) =~= out@);
                assert(results_view(hits@)[j as int] == hits@[j as int]@);
            }
            j = j + 1;
            assert(results_view(out@) =~= results_view(before) + results_view(hits@).take(j as int));
        }
        proof {
            assert(rv.take(i + 1) =~= rv.take(i as int).push(rv[i as int]));
            assert(rv.take(i + 1).drop_last() =~= rv.take(i as int));
            assert(rv[i as int] == rows@[i as int]@);
            let whole = all_results(rv.take(i + 1), query@);
            assert(whole == all_results(rv.take(i as int), query@) + results_view(hits@));
            if j == hits@.len() {
                assert(results_view(hits@).take(j as int) =~= results_view(hits@));
                assert(results_view(out@) =~= capped(whole));
            } else {
                assert(results_view(out@) =~= capped(whole));
            }
        }
        i = i + 1;
    }
    proof {
        if i == rows@.len() {
            assert(rv.take(i as int) =~= rv);
        } else {
            lemma_all_results_append(rv.take(i as int), rv.skip(i as int), query@);
            assert(rv.take(i as int) + rv.skip(i as int) =~= rv);
            assert(capped(all_results(rv, query@)) =~= capped(
                all_results(rv.take(i as int), query@),
            ));
        }
    }
    out
}

/// A copy of a search hit.
fn copy_result(r: &SearchResult) -> (c: SearchResult)
    ensures
        c@ == r@,
{
    SearchResult {
        note_id: r.note_id.clone(),
        folder_id: r.folder_id.clone(),
        title: r.title.clone(),
        snippet: r.snippet.clone(),
        match_line: r.match_line,
        match_column: r.match_column,
        match_len: r.match_len,
    }
}

/// The highlight of a match at character index `st` of `h` for the query
/// `q`: its line, the byte offset of its start within that line, and the
/// byte length of the query's number of characters from there (cut at the
/// end of the text).
pub open spec fn note_match_spec(h: Seq<char>, q: Seq<char>, st: int) -> NoteSearchMatch {
    let end = if st + q.len() <= h.len() {
        st + q.len()
    } else {
        h.len() as int
    };
    NoteSearchMatch {
        line: line_of(h.take(st)) as usize,
        byte_column: (utf8_len(h.take(st)) - utf8_len(h.take(line_start(h, st)))) as usize,
        byte_len: (utf8_len(h.take(end)) - utf8_len(h.take(st))) as usize,
    }
}

/// Every case-insensitive occurrence of `query` in `content`, found one
/// after the other as the search does, as highlights of the note's text.
pub fn note_search_matches(content: &str, query: &str) -> (r: Vec<NoteSearchMatch>)
    requires
        utf8_len(content@) <= usize::MAX,
    ensures
        r@.len() == match_starts(content@, query@, 0, usize::MAX as nat).len(),
        forall|i: int|
            0 <= i < r@.len() ==> #[trigger] r@[i] == note_match_spec(
                content@,
                query@,
                match_starts(content@, query@, 0, usize::MAX as nat)[i],
            ),
{
    let h = chars_of(content);
    let n = chars_of(query);
    let t = chars_of(lowercase_str(query).as_str());
    let found = find_all(&h, &n, &t, usize::MAX);
    let ghost all = match_starts(content@, query@, 0, usize::MAX as nat);
    let mut out: Vec<NoteSearchMatch> = Vec::new();
    let mut i: usize = 0;
    while i < found.len()
        invariant
            0 <= i <= found@.len(),
            h@ == content@,
            n@ == query@,
            utf8_len(h@) <= usize::MAX,
            all == match_starts(content@, query@, 0, usize::MAX as nat),
            found@.len() == all.len(),
            forall|j: int|
                0 <= j < found@.len() ==> {
                    let st = all[j];
                    &&& (#[trigger] found@[j]).start == st
                    &&& found@[j].line == line_of(h@.take(st))
                },
            out@.len() == i,
            forall|j: int| 0 <= j < i ==> #[trigger] out@[j] == note_match_spec(h@, n@, all[j]),
        decreases found@.len() - i,
    {
        let st = found[i].start;
        proof {
            assert(found@[i as int].start == all[i as int]);
            lemma_match_starts_bounds(content@, query@, 0, usize::MAX as nat, i as int);
            lemma_line_bounds(h@, st as int);
        }
        let mut ls = st;
        while ls > 0 && h[ls - 1] != '\n'
            invariant
                0 <= ls <= st <= h@.len(),
                line_start(h@, ls as int) == line_start(h@, st as int),
            decreases ls,
        {
            ls = ls - 1;
        }
        let end = if n.len() <= h.len() - st {
            st + n.len()
        } else {
            h.len()
        };
        let b_ls = byte_offset(&h, ls);
        let b_st = byte_offset(&h, st);
        let b_end = byte_offset(&h, end);
        proof {
            crate::text::lemma_utf8_len_prefix(h@, ls as int, st as int);
            crate::text::lemma_utf8_len_prefix(h@, st as int, end as int);
        }
        out.push(
            NoteSearchMatch { line: found[i].line, byte_column: b_st - b_ls, byte_len: b_end - b_st },
        );
        i = i + 1;
    }
    out
}

/// The index of the first highlight on `line`, if a line is given and
/// some highlight lies on it.
pub fn current_match_index(matches: &[NoteSearchMatch], line: Option<usize>) -> (r: Option<usize>)
    ensures
        match line {
            None => r is None,
            Some(l) => match r {
                Some(i) => i < matches@.len() && matches@[i as int].line == l && forall|j: int|
                    0 <= j < i ==> matches@[j].line != l,
                None => forall|j: int| 0 <= j < matches@.len() ==> matches@[j].line != l,
            },
        },
{
    let l = match line {
        Some(l) => l,
        None => {
            return None;
        },
    };
    let mut i: usize = 0;
    while i < matches.len()
        invariant
            0 <= i <= matches@.len(),
            line == Some(l),
            forall|j: int| 0 <= j < i ==> matches@[j].line != l,
        decreases matches@.len() - i,
    {
        if matches[i].line == l {
            return Some(i);
        }
        i = i + 1;
    }
    None
}

/// `step_after` always moves forward.
proof fn lemma_step_positive(h: Seq<char>, needle: Seq<char>, m: int)
    requires
        m <= h.len(),
    ensures
        step_after(h, needle, m) >= 1,
{
}

/// At most `max` matches are ever reported.
proof fn lemma_match_starts_len(h: Seq<char>, needle: Seq<char>, from: int, max: nat)
    ensures
        match_starts(h, needle, from, max).len() <= max,
    decreases max,
{
    if max > 0 {
        if let Some(m) = first_match_from(h, needle, from) {
            let next = m + step_after(h, needle, m);
            lemma_match_starts_len(h, needle, next, (max - 1) as nat);
        }
    }
}

/// A search reports at most `MAX_MATCHES_PER_NOTE` hits of one note and
/// at most `MAX_TOTAL_RESULTS` hits in all.
pub proof fn law_search_results_bounded(rows: Seq<NoteRowView>, q: Seq<char>, row: NoteRowView)
    ensures
        row_results(row, q).len() <= MAX_MATCHES_PER_NOTE,
        capped(all_results(rows, q)).len() <= MAX_TOTAL_RESULTS,
{
    lemma_match_starts_len(row.content, q, 0, MAX_MATCHES_PER_NOTE as nat);
}

/// A smaller limit gives a prefix of the matches found with a larger one.
pub proof fn law_match_limit_prefix(h: Seq<char>, needle: Seq<char>, from: int, n: nat, m: nat)
    requires
        0 <= from <= h.len(),
        n <= m,
    ensures
        match_starts(h, needle, from, n).len() <= match_starts(h, needle, from, m).len(),
        match_starts(h, needle, from, n) == match_starts(h, needle, from, m).take(
            match_starts(h, needle, from, n).len() as int,
        ),
    decreases n,
{
    if n == 0 {
        assert(match_starts(h, needle, from, m).take(0) =~= Seq::<int>::empty());
    } else {
        lemma_first_match_bounds(h, needle, from);
        if let Some(x) = first_match_from(h, needle, from) {
            let next = x + step_after(h, needle, x);
            lemma_step_positive(h, needle, x);
            if next < h.len() {
                law_match_limit_prefix(h, needle, next, (n - 1) as nat, (m - 1) as nat);
                let a = match_starts(h, needle, next, (n - 1) as nat);
                let b = match_starts(h, needle, next, (m - 1) as nat);
                assert((seq![x] + b).take(a.len() + 1 as int) =~= seq![x] + a);
            } else {
                assert(match_starts(h, needle, from, m).take(1) =~= seq![x]);
            }
        }
    }
}

/// Once the limit exceeds the number of characters left, raising it finds
/// nothing more.
pub proof fn law_limit_beyond_text_length(h: Seq<char>, needle: Seq<char>, from: int, a: nat, b: nat)
    requires
        0 <= from <= h.len(),
        a >= h.len() - from + 1,
        b >= h.len() - from + 1,
    ensures
        match_starts(h, needle, from, a) == match_starts(h, needle, from, b),
    decreases a,
{
    lemma_first_match_bounds(h, needle, from);
    if let Some(x) = first_match_from(h, needle, from) {
        let next = x + step_after(h, needle, x);
        lemma_step_positive(h, needle, x);
        if next < h.len() {
            law_limit_beyond_text_length(h, needle, next, (a - 1) as nat, (b - 1) as nat);
        }
    }
}

/// The case of the query does not matter: two non-empty queries with the
/// same lowercase form find the same first match.
pub proof fn law_query_case_ignored(h: Seq<char>, q1: Seq<char>, q2: Seq<char>, from: int)
    requires
        q1.len() > 0,
        q2.len() > 0,
        str_lowercase(q1) == str_lowercase(q2),
    ensures
        first_match_from(h, q1, from) == first_match_from(h, q2, from),
    decreases h.len() - from,
{
    if from < h.len() && from >= 0 && !matches_at(h, from, str_lowercase(q1)) {
        law_query_case_ignored(h, q1, q2, from + 1);
    }
}

/// The note id before the hit at `i` in the list: the previous hit's, or
/// the empty id before the first.
pub open spec fn previous_note_id(rs: Seq<SearchResultView>, i: int) -> Seq<char> {
    if i == 0 {
        Seq::empty()
    } else {
        rs[i - 1].note_id
    }
}

/// For each hit in the list, whether it opens a new group under its note's
/// title: its note differs from the note of the hit before it (the first
/// hit opens one unless its note id is empty).
pub fn group_starts(results: &[SearchResult]) -> (r: Vec<bool>)
    ensures
        r@.len() == results@.len(),
        forall|i: int|
            0 <= i < r@.len() ==> #[trigger] r@[i] == (results@[i]@.note_id != previous_note_id(
                results_view(results@),
                i,
            )),
{
    let mut out: Vec<bool> = Vec::new();
    let mut i: usize = 0;
    while i < results.len()
        invariant
            0 <= i <= results@.len(),
            out@.len() == i,
            forall|k: int|
                0 <= k < i ==> #[trigger] out@[k] == (results@[k]@.note_id != previous_note_id(
                    results_view(results@),
                    k,
                )),
        decreases results@.len() - i,
    {
        let same = if i == 0 {
            str_eq(results[0].note_id.as_str(), "")
        } else {
            str_eq(results[i - 1].note_id.as_str(), results[i].note_id.as_str())
        };
        proof {
            if i > 0 {
                assert(results_view(results@)[i - 1] == results@[i - 1]@);
            }
            if i == 0 {
                reveal_strlit("");
                assert(""@ =~= Seq::<char>::empty());
            }
        }
        out.push(!same);
        i = i + 1;
    }
    out
}

/// The decimal digit `d`.
pub open spec fn digit_char(d: nat) -> char {
    if d == 0 { '0' } else if d == 1 { '1' } else if d == 2 { '2' } else if d == 3 { '3' }
    else if d == 4 { '4' } else if d == 5 { '5' } else if d == 6 { '6' } else if d == 7 { '7' }
    else if d == 8 { '8' } else { '9' }
}

/// The decimal digits of `n`.
pub open spec fn decimal(n: nat) -> Seq<char>
    decreases n,
{
    if n < 10 {
        seq![digit_char(n)]
    } else {
        decimal(n / 10).push(digit_char(n % 10))
    }
}

fn digit_exec(d: usize) -> (r: char)
    requires
        d < 10,
    ensures
        r == digit_char(d as nat),
{
    if d == 0 { '0' } else if d == 1 { '1' } else if d == 2 { '2' } else if d == 3 { '3' }
    else if d == 4 { '4' } else if d == 5 { '5' } else if d == 6 { '6' } else if d == 7 { '7' }
    else if d == 8 { '8' } else { '9' }
}

fn decimal_exec(n: usize) -> (r: Vec<char>)
    ensures
        r@ == decimal(n as nat),
    decreases n,
{
    if n < 10 {
        let mut v: Vec<char> = Vec::new();
        v.push(digit_exec(n));
        assert(v@ =~= seq![digit_char(n as nat)]);
        v
    } else {
        let mut v = decimal_exec(n / 10);
        v.push(digit_exec(n % 10));
        v
    }
}

/// Where a hit lies, as the sidebar shows it: `第 n 行` with the 1-based
/// line, or `标题命中` for a hit in the title only.
pub open spec fn location_label_spec(match_line: Option<usize>) -> Seq<char> {
    match match_line {
        Some(l) => "第 "@ + decimal((l + 1) as nat) + " 行"@,
        None => "标题命中"@,
    }
}

/// The sidebar's label for where a hit lies.
pub fn location_label(match_line: Option<usize>) -> (r: String)
    requires
        match_line matches Some(l) ==> l < usize::MAX,
    ensures
        r@ == location_label_spec(match_line),
{
    match match_line {
        Some(l) => {
            let mut out = chars_of("第 ");
            let digits = decimal_exec(l + 1);
            push_all(&mut out, &digits);
            let tail = chars_of(" 行");
            push_all(&mut out, &tail);
            string_from_chars(out.as_slice())
        },
        None => {
            let v = chars_of("标题命中");
            string_from_chars(v.as_slice())
        },
    }
}

} // verus!
