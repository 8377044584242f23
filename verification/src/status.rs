//! Figures shown in the editor's status bar.

use vstd::prelude::*;
use crate::text::{is_white_space, char_is_whitespace, chars_of, string_from_chars};

verus! {

/// The number of characters of `s` that are not whitespace.
pub open spec fn visible_count(s: Seq<char>) -> nat
    decreases s.len(),
{
    if s.len() == 0 {
        0
    } else {
        visible_count(s.drop_last()) + if is_white_space(s.last()) {
            0nat
        } else {
            1nat
        }
    }
}

/// The number of words of `s`: maximal runs of non-whitespace characters
/// (`str::split_whitespace`).
pub open spec fn word_count_spec(s: Seq<char>) -> nat
    decreases s.len(),
{
    if s.len() == 0 {
        0
    } else {
        let starts_word = !is_white_space(s.last()) && (s.len() == 1 || is_white_space(
            s[s.len() - 2],
        ));
        word_count_spec(s.drop_last()) + if starts_word {
            1nat
        } else {
            0nat
        }
    }
}

/// Minutes needed to read `n` visible characters at 300 per minute,
/// rounded up, at least one.
pub open spec fn reading_minutes(n: nat) -> nat {
    let m = (n + 299) / 300;
    if m < 1 {
        1
    } else {
        m
    }
}

/// Estimated reading time in minutes: visible characters at 300 per
/// minute, rounded up, at least one minute.
pub fn estimate_reading_minutes(content: &str) -> (r: u32)
    ensures
        r == if reading_minutes(visible_count(content@)) <= u32::MAX {
            reading_minutes(visible_count(content@))
        } else {
            u32::MAX as nat
        },
{
    let h = chars_of(content);
    let mut n: usize = 0;
    let mut i: usize = 0;
    assert(h@.take(0) =~= Seq::<char>::empty());
    while i < h.len()
        invariant
            0 <= i <= h@.len(),
            n == visible_count(h@.take(i as int)),
            n <= i,
        decreases h@.len() - i,
    {
        assert(h@.take(i + 1).drop_last() =~= h@.take(i as int));
        assert(h@.take(i + 1).last() == h@[i as int]);
        if !char_is_whitespace(h[i]) {
            n = n + 1;
        }
        i = i + 1;
    }
    assert(h@.take(i as int) =~= h@);
    let extra: usize = if n % 300 == 0 {
        0
    } else {
        1
    };
    let m: usize = n / 300 + extra;
    assert(m == (n + 299) / 300) by (nonlinear_arith)
        requires
            m == n / 300 + extra,
            extra == (if n % 300 == 0 {
                0usize
            } else {
                1usize
            }),
    ;
    let m: usize = if m < 1 {
        1
    } else {
        m
    };
    if m > u32::MAX as usize {
        u32::MAX
    } else {
        m as u32
    }
}

/// The number of words of `content`.
pub fn word_count(content: &str) -> (r: usize)
    ensures
        r == word_count_spec(content@),
{
    let h = chars_of(content);
    let mut n: usize = 0;
    let mut i: usize = 0;
    assert(h@.take(0) =~= Seq::<char>::empty());
    while i < h.len()
        invariant
            0 <= i <= h@.len(),
            n == word_count_spec(h@.take(i as int)),
            n <= i,
        decreases h@.len() - i,
    {
        let ghost t = h@.take(i + 1);
        assert(t.drop_last() =~= h@.take(i as int));
        assert(t.last() == h@[i as int]);
        if i > 0 {
            assert(t[t.len() - 2] == h@[i - 1]);
        }
        if !char_is_whitespace(h[i]) && (i == 0 || char_is_whitespace(h[i - 1])) {
            n = n + 1;
        }
        i = i + 1;
    }
    assert(h@.take(i as int) =~= h@);
    n
}

/// Index of the first `'T'` in `s`, or its length.
pub open spec fn first_t(s: Seq<char>) -> int
    decreases s.len(),
{
    if s.len() == 0 {
        0
    } else if s[0] == 'T' {
        0
    } else {
        1 + first_t(s.drop_first())
    }
}

/// The date part of an RFC 3339 timestamp: everything before the first
/// `'T'` (the whole text when there is none).
pub fn date_part(timestamp: &str) -> (r: String)
    ensures
        r@ == timestamp@.take(first_t(timestamp@)),
{
    let h = chars_of(timestamp);
    let mut i: usize = 0;
    assert(h@.skip(0) =~= h@);
    while i < h.len() && h[i] != 'T'
        invariant
            0 <= i <= h@.len(),
            first_t(h@) == i + first_t(h@.skip(i as int)),
        decreases h@.len() - i,
    {
        assert(h@.skip(i as int)[0] == h@[i as int]);
        assert(h@.skip(i as int).drop_first() =~= h@.skip(i + 1));
        i = i + 1;
    }
    if i < h.len() {
        assert(h@.skip(i as int)[0] == h@[i as int]);
    }
    let mut out: Vec<char> = Vec::new();
    let mut j: usize = 0;
    while j < i
        invariant
            0 <= j <= i <= h@.len(),
            out@ == h@.take(j as int),
        decreases i - j,
    {
        out.push(h[j]);
        j = j + 1;
        assert(out@ =~= h@.take(j as int));
    }
    string_from_chars(out.as_slice())
}

} // verus!
