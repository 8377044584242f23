//! Finding the stored image that an image link in a note refers to.

use vstd::prelude::*;
use crate::text::{chars_of, chars_equal, string_from_chars, is_prefix_of, push_all};

verus! {

/// The link prefixes that name a stored image, tried in this order.
pub open spec fn image_prefixes() -> Seq<Seq<char>> {
    seq![
        "notepad://image/"@,
        "notepad:image:"@,
        "attachment://"@,
        "attachment:"@,
        "img-"@,
        "img:"@,
    ]
}

/// `u` without the prefix `p`, if it starts with it.
pub open spec fn strip_prefix_spec(u: Seq<char>, p: Seq<char>) -> Option<Seq<char>> {
    if p.len() <= u.len() && u.take(p.len() as int) == p {
        Some(u.skip(p.len() as int))
    } else {
        None
    }
}

/// `s` without any trailing slashes.
pub open spec fn trim_end_slashes(s: Seq<char>) -> Seq<char>
    decreases s.len(),
{
    if s.len() > 0 && s.last() == '/' {
        trim_end_slashes(s.drop_last())
    } else {
        s
    }
}

/// `s` without any leading slashes.
pub open spec fn trim_start_slashes(s: Seq<char>) -> Seq<char>
    decreases s.len(),
{
    if s.len() > 0 && s[0] == '/' {
        trim_start_slashes(s.drop_first())
    } else {
        s
    }
}

/// The part of `u` after its last slash (all of `u` when it has none).
pub open spec fn last_segment(u: Seq<char>) -> Seq<char>
    decreases u.len(),
{
    if u.len() == 0 {
        u
    } else if u.last() == '/' {
        Seq::empty()
    } else {
        last_segment(u.drop_last()).push(u.last())
    }
}

/// The image id that the `i`-th prefix would give for `u`.
pub open spec fn prefixed_id(u: Seq<char>, i: int) -> Option<Seq<char>> {
    match strip_prefix_spec(u, image_prefixes()[i]) {
        Some(rest) => Some(trim_start_slashes(trim_end_slashes(rest))),
        None => None,
    }
}

/// The image `u` refers to among the ids `known`, trying the prefixes from
/// the `i`-th on, then `u` itself, then its last path segment.
pub open spec fn resolve_from(u: Seq<char>, known: Seq<Seq<char>>, i: int) -> Option<Seq<char>>
    decreases 6 - i,
{
    if i >= 6 {
        if known.contains(u) {
            Some(u)
        } else if known.contains(last_segment(u)) {
            Some(last_segment(u))
        } else {
            None
        }
    } else {
        match prefixed_id(u, i) {
            Some(id) => if known.contains(id) {
                Some(id)
            } else {
                resolve_from(u, known, i + 1)
            },
            None => resolve_from(u, known, i + 1),
        }
    }
}

/// The ids of the stored images, as texts.
pub open spec fn ids_view(known: Seq<String>) -> Seq<Seq<char>> {
    known.map_values(|s: String| s@)
}

fn contains_id(known: &[String], id: &Vec<char>) -> (r: bool)
    ensures
        r == ids_view(known@).contains(id@),
{
    let mut k: usize = 0;
    while k < known.len()
        invariant
            0 <= k <= known@.len(),
            forall|j: int| 0 <= j < k ==> ids_view(known@)[j] != id@,
        decreases known@.len() - k,
    {
        let cand = chars_of(known[k].as_str());
        if chars_equal(&cand, id) {
            assert(ids_view(known@)[k as int] == id@);
            return true;
        }
        k = k + 1;
    }
    false
}

fn trim_slashes(s: &Vec<char>) -> (r: Vec<char>)
    ensures
        r@ == trim_start_slashes(trim_end_slashes(s@)),
{
    let mut e: usize = s.len();
    assert(s@.take(e as int) =~= s@);
    while e > 0 && s[e - 1] == '/'
        invariant
            0 <= e <= s@.len(),
            trim_end_slashes(s@) == trim_end_slashes(s@.take(e as int)),
        decreases e,
    {
        assert(s@.take(e as int).drop_last() =~= s@.take(e - 1));
        e = e - 1;
    }
    let ghost t = s@.take(e as int);
    assert(trim_end_slashes(t) == t);
    let mut b: usize = 0;
    assert(t.skip(0) =~= t);
    while b < e && s[b] == '/'
        invariant
            0 <= b <= e <= s@.len(),
            t == s@.take(e as int),
            trim_start_slashes(t) == trim_start_slashes(t.skip(b as int)),
        decreases e - b,
    {
        assert(t.skip(b as int).drop_first() =~= t.skip(b + 1));
        b = b + 1;
    }
    let mut out: Vec<char> = Vec::new();
    let mut i = b;
    while i < e
        invariant
            b <= i <= e <= s@.len(),
            t == s@.take(e as int),
            out@ == s@.subrange(b as int, i as int),
        decreases e - i,
    {
        out.push(s[i]);
        i = i + 1;
        assert(out@ =~= s@.subrange(b as int, i as int));
    }
    assert(out@ =~= t.skip(b as int));
    out
}

fn last_segment_exec(u: &Vec<char>) -> (r: Vec<char>)
    ensures
        r@ == last_segment(u@),
{
    let mut st: usize = u.len();
    assert(u@.take(st as int) =~= u@);
    assert(u@ + u@.skip(st as int) =~= u@);
    while st > 0 && u[st - 1] != '/'
        invariant
            0 <= st <= u@.len(),
            last_segment(u@) == last_segment(u@.take(st as int)) + u@.skip(st as int),
        decreases st,
    {
        let ghost p = u@.take(st as int);
        assert(p.drop_last() =~= u@.take(st - 1));
        assert(u@.skip(st - 1) =~= seq![u@[st - 1]] + u@.skip(st as int));
        assert(last_segment(p) == last_segment(u@.take(st - 1)).push(u@[st - 1]));
        assert(last_segment(u@.take(st - 1)).push(u@[st - 1]) + u@.skip(st as int)
            =~= last_segment(u@.take(st - 1)) + u@.skip(st - 1));
        st = st - 1;
    }
    proof {
        if st > 0 {
            assert(u@.take(st as int).last() == '/');
        }
        assert(last_segment(u@.take(st as int)) =~= Seq::<char>::empty());
    }
    let mut out: Vec<char> = Vec::new();
    let mut i = st;
    while i < u.len()
        invariant
            st <= i <= u@.len(),
            out@ == u@.subrange(st as int, i as int),
        decreases u@.len() - i,
    {
        out.push(u[i]);
        i = i + 1;
        assert(out@ =~= u@.subrange(st as int, i as int));
    }
    assert(out@ =~= Seq::<char>::empty() + u@.skip(st as int));
    out
}

/// The id of the stored image that the link `url` refers to, among the ids
/// `known`: the link with one of the known prefixes and surrounding slashes
/// removed, else the link itself, else its last path segment.
pub fn resolve_image_id(url: &str, known: &[String]) -> (r: Option<String>)
    ensures
        match r {
            Some(s) => resolve_from(url@, ids_view(known@), 0) == Some(s@),
            None => resolve_from(url@, ids_view(known@), 0) is None,
        },
{
    let u = chars_of(url);
    let prefixes = [
        chars_of("notepad://image/"),
        chars_of("notepad:image:"),
        chars_of("attachment://"),
        chars_of("attachment:"),
        chars_of("img-"),
        chars_of("img:"),
    ];
    let mut i: usize = 0;
    while i < 6
        invariant
            0 <= i <= 6,
            u@ == url@,
            prefixes@.len() == 6,
            forall|k: int| 0 <= k < 6 ==> (#[trigger] prefixes@[k])@ == image_prefixes()[k],
            resolve_from(u@, ids_view(known@), 0) == resolve_from(u@, ids_view(known@), i as int),
        decreases 6 - i,
    {
        let p = &prefixes[i];
        if is_prefix_of(p, &u) {
            let mut rest: Vec<char> = Vec::new();
            let mut j = p.len();
            while j < u.len()
                invariant
                    p@.len() <= j <= u@.len(),
                    rest@ == u@.subrange(p@.len() as int, j as int),
                decreases u@.len() - j,
            {
                rest.push(u[j]);
                j = j + 1;
                assert(rest@ =~= u@.subrange(p@.len() as int, j as int));
            }
            assert(rest@ =~= u@.skip(p@.len() as int));
            let id = trim_slashes(&rest);
            assert(prefixed_id(u@, i as int) == Some(id@));
            if contains_id(known, &id) {
                return Some(string_from_chars(id.as_slice()));
            }
        } else {
            assert(prefixed_id(u@, i as int) is None);
        }
        i = i + 1;
    }
    if contains_id(known, &u) {
        return Some(url.to_owned());
    }
    let last = last_segment_exec(&u);
    if contains_id(known, &last) {
        return Some(string_from_chars(last.as_slice()));
    }
    None
}

/// The link under which an image stored with id `id` is inserted.
pub open spec fn image_link(id: Seq<char>) -> Seq<char> {
    "attachment://"@ + id
}

/// The Markdown text inserted into a note for the image stored as `id`, on
/// a line of its own.
pub fn image_marker(id: &str) -> (r: String)
    ensures
        r@ == "\n![image]("@ + image_link(id@) + ")\n"@,
{
    let mut out = chars_of("\n![image](");
    let scheme = chars_of("attachment://");
    push_all(&mut out, &scheme);
    let i = chars_of(id);
    push_all(&mut out, &i);
    let tail = chars_of(")\n");
    push_all(&mut out, &tail);
    string_from_chars(out.as_slice())
}

proof fn lemma_trim_plain(id: Seq<char>)
    requires
        id.len() == 0 || (id[0] != '/' && id.last() != '/'),
    ensures
        trim_start_slashes(trim_end_slashes(id)) == id,
{
}

/// The link of an inserted image leads back to that image, whatever other
/// images the note has, as long as its id neither starts nor ends with a
/// slash.
pub proof fn law_image_link_resolves(id: Seq<char>, known: Seq<Seq<char>>)
    requires
        known.contains(id),
        id.len() == 0 || (id[0] != '/' && id.last() != '/'),
    ensures
        resolve_from(image_link(id), known, 0) == Some(id),
{
    reveal_strlit("notepad://image/");
    reveal_strlit("notepad:image:");
    reveal_strlit("attachment://");
    let u = image_link(id);
    assert(u[0] == 'a');
    assert(image_prefixes()[0][0] == 'n');
    assert(image_prefixes()[1][0] == 'n');
    if u.len() >= 16 {
        assert(u.take(16)[0] == 'a');
    }
    if u.len() >= 14 {
        assert(u.take(14)[0] == 'a');
    }
    assert(prefixed_id(u, 0) is None);
    assert(prefixed_id(u, 1) is None);
    assert(u.take(13) =~= "attachment://"@);
    assert(u.skip(13) =~= id);
    lemma_trim_plain(id);
    assert(prefixed_id(u, 2) == Some(id));
    assert(resolve_from(u, known, 2) == Some(id));
    assert(resolve_from(u, known, 1) == resolve_from(u, known, 2));
    assert(resolve_from(u, known, 0) == resolve_from(u, known, 1));
}

} // verus!
