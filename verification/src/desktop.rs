//! The desktop launcher entry that the application installs for itself.

use vstd::prelude::*;
use crate::text::{chars_of, push_all, string_from_chars, chars_equal};
use crate::preview::{
    split_lines, split_exec, lemma_split_lines_nonempty, lemma_split_at_newline, lemma_split_single,
};

verus! {

/// `l` without one trailing carriage return.
pub open spec fn strip_cr(l: Seq<char>) -> Seq<char> {
    if l.len() > 0 && l.last() == '\r' {
        l.drop_last()
    } else {
        l
    }
}

/// The lines of `s` as `str::lines` yields them: split at line feeds, a
/// carriage return before a line feed dropped, no empty line after a final
/// line feed, and no line at all for the empty text.
pub open spec fn text_lines(s: Seq<char>) -> Seq<Seq<char>> {
    let ps = split_lines(s);
    let n = ps.len() as int;
    let k = if ps.last().len() == 0 {
        n - 1
    } else {
        n
    };
    Seq::new(
        k as nat,
        |i: int|
            if i < n - 1 {
                strip_cr(ps[i])
            } else {
                ps[i]
            },
    )
}

/// The launcher line that starts `exe`.
pub open spec fn exec_line(exe: Seq<char>) -> Seq<char> {
    "Exec="@ + exe
}

/// The desktop entry for the program at `exe` with its icon at `icon`.
pub open spec fn desktop_entry_spec(exe: Seq<char>, icon: Seq<char>) -> Seq<char> {
    "[Desktop Entry]\nType=Application\nName=Notepad\nComment=高性能 Markdown 记事本\n"@ + exec_line(
        exe,
    ) + "\nIcon="@ + icon + "\nTerminal=false\nStartupWMClass=notepad\n"@
}

/// The text of the desktop entry for the program at `exe`, with its icon
/// at `icon`.
pub fn desktop_entry(exe: &str, icon: &str) -> (r: String)
    ensures
        r@ == desktop_entry_spec(exe@, icon@),
{
    let mut out = chars_of(
        "[Desktop Entry]\nType=Application\nName=Notepad\nComment=高性能 Markdown 记事本\n",
    );
    let exec_key = chars_of("Exec=");
    push_all(&mut out, &exec_key);
    let e = chars_of(exe);
    push_all(&mut out, &e);
    let icon_key = chars_of("\nIcon=");
    push_all(&mut out, &icon_key);
    let i = chars_of(icon);
    push_all(&mut out, &i);
    let tail = chars_of("\nTerminal=false\nStartupWMClass=notepad\n");
    push_all(&mut out, &tail);
    string_from_chars(out.as_slice())
}

/// Whether an installed desktop entry with text `content` starts the
/// program at `exe`: one of its lines is exactly `Exec=` and the path.
pub fn entry_is_current(content: &str, exe: &str) -> (r: bool)
    ensures
        r == text_lines(content@).contains(exec_line(exe@)),
{
    let mut expected = chars_of("Exec=");
    let e = chars_of(exe);
    push_all(&mut expected, &e);
    let h = chars_of(content);
    let pieces = split_exec(&h);
    let ghost ps = split_lines(h@);
    let ghost ls = text_lines(h@);
    proof {
        lemma_split_lines_nonempty(h@);
    }
    let n = pieces.len();
    let mut i: usize = 0;
    while i < n
        invariant
            0 <= i <= n,
            n == pieces@.len() == ps.len(),
            n >= 1,
            ps == split_lines(h@),
            ls == text_lines(h@),
            h@ == content@,
            expected@ == exec_line(exe@),
            forall|k: int| 0 <= k < n ==> (#[trigger] pieces@[k])@ == ps[k],
            forall|k: int| 0 <= k < i && k < ls.len() ==> ls[k] != expected@,
        decreases n - i,
    {
        let piece = &pieces[i];
        let mut line: Vec<char> = Vec::new();
        push_all(&mut line, piece);
        if i + 1 < n && line.len() > 0 && line[line.len() - 1] == '\r' {
            line.pop();
        }
        let counted = i + 1 < n || piece.len() > 0;
        proof {
            if counted {
                assert(i < ls.len());
                assert(line@ =~= ls[i as int]);
            } else {
                assert(ls.len() == n - 1);
            }
        }
        if counted && chars_equal(&line, &expected) {
            proof {
                assert(ls[i as int] == exec_line(exe@));
            }
            return true;
        }
        i = i + 1;
    }
    false
}

/// Whether the installed launcher is current, from what was found on this
/// machine: the text of the installed desktop entry (`None` when there is
/// no place for it or it cannot be read) and the path of the running
/// program (`None` when it cannot be found).
pub fn is_up_to_date(content: Option<&str>, exe: Option<&str>) -> (r: bool)
    ensures
        r == match (content, exe) {
            (Some(c), Some(e)) => text_lines(c@).contains(exec_line(e@)),
            _ => false,
        },
{
    match (content, exe) {
        (Some(c), Some(e)) => entry_is_current(c, e),
        _ => false,
    }
}

/// The message for a program path that cannot be found.
pub open spec fn exe_error_spec(err: Seq<char>) -> Seq<char> {
    "无法获取可执行文件路径: "@ + err
}

/// The message for an icon location that cannot be found.
pub open spec fn icon_error_spec() -> Seq<char> {
    "无法获取图标安装路径"@
}

/// The first step of installing the launcher: from the path of the running
/// program (or why it cannot be found) and the icon's install location,
/// the desktop entry to write, or the message to report.
pub fn install(exe: Result<&str, &str>, icon: Option<&str>) -> (r: Result<String, String>)
    ensures
        match exe {
            Err(e) => r matches Err(m) && m@ == exe_error_spec(e@),
            Ok(x) => match icon {
                None => r matches Err(m) && m@ == icon_error_spec(),
                Some(i) => r matches Ok(t) && t@ == desktop_entry_spec(x@, i@),
            },
        },
{
    match exe {
        Err(e) => {
            let mut m = chars_of("无法获取可执行文件路径: ");
            let ec = chars_of(e);
            push_all(&mut m, &ec);
            Err(string_from_chars(m.as_slice()))
        },
        Ok(x) => match icon {
            None => {
                let m = chars_of("无法获取图标安装路径");
                Err(string_from_chars(m.as_slice()))
            },
            Some(i) => Ok(desktop_entry(x, i)),
        },
    }
}

/// Once the launcher entry for a program has been written, it counts as
/// current for that program, for any icon path and any program path without
/// a line feed that does not end in a carriage return.
pub proof fn law_installed_entry_is_current(exe: Seq<char>, icon: Seq<char>)
    requires
        !exe.contains('\n'),
        exe.len() == 0 || exe.last() != '\r',
    ensures
        text_lines(desktop_entry_spec(exe, icon)).contains(exec_line(exe)),
{
    reveal_strlit("[Desktop Entry]\nType=Application\nName=Notepad\nComment=高性能 Markdown 记事本\n");
    reveal_strlit("[Desktop Entry]\nType=Application\nName=Notepad\nComment=高性能 Markdown 记事本");
    reveal_strlit("Exec=");
    reveal_strlit("\nIcon=");
    reveal_strlit("Icon=");
    let head = "[Desktop Entry]\nType=Application\nName=Notepad\nComment=高性能 Markdown 记事本"@;
    let e = exec_line(exe);
    let tail = "Icon="@ + icon + "\nTerminal=false\nStartupWMClass=notepad\n"@;
    let entry = desktop_entry_spec(exe, icon);
    assert("[Desktop Entry]\nType=Application\nName=Notepad\nComment=高性能 Markdown 记事本\n"@
        =~= head + seq!['\n']);
    assert("\nIcon="@ =~= seq!['\n'] + "Icon="@);
    assert(entry =~= head + seq!['\n'] + e + seq!['\n'] + tail);
    assert forall|i: int| 0 <= i < e.len() implies e[i] != '\n' by {
        if i >= 5 {
            assert(e[i] == exe[i - 5]);
        }
    }
    lemma_split_single(e);
    lemma_split_at_newline(head + seq!['\n'] + e, tail);
    lemma_split_at_newline(head, e);
    lemma_split_lines_nonempty(tail);
    let ps = split_lines(entry);
    let k = split_lines(head).len() as int;
    assert(ps =~= split_lines(head) + seq![e] + split_lines(tail));
    assert(ps[k] == e);
    assert(e.last() != '\r');
    assert(strip_cr(e) == e);
    let ls = text_lines(entry);
    assert(ls[k] == e);
}

/// The launcher script of the application bundle for the program at `exe`.
pub open spec fn launcher_script_spec(exe: Seq<char>) -> Seq<char> {
    "#!/bin/bash\nexec \""@ + exe + "\" \"$@\"\n"@
}

/// The text of the bundle's launcher script, which starts the program at
/// `exe` with the arguments it was given.
pub fn launcher_script(exe: &str) -> (r: String)
    ensures
        r@ == launcher_script_spec(exe@),
{
    let mut out = chars_of("#!/bin/bash\nexec \"");
    let e = chars_of(exe);
    push_all(&mut out, &e);
    let tail = chars_of("\" \"$@\"\n");
    push_all(&mut out, &tail);
    string_from_chars(out.as_slice())
}

/// Whether `needle` occurs somewhere in `hay` (always for an empty one).
pub open spec fn occurs_in(hay: Seq<char>, needle: Seq<char>) -> bool {
    exists|i: int|
        0 <= i && i + needle.len() <= hay.len() && #[trigger] hay.subrange(i, i + needle.len())
            == needle
}

/// Whether an installed launcher script with text `script` starts the
/// program at `exe`: the path occurs in it.
pub fn script_mentions(script: &str, exe: &str) -> (r: bool)
    ensures
        r == occurs_in(script@, exe@),
{
    let h = chars_of(script);
    let n = chars_of(exe);
    if n.len() > h.len() {
        return false;
    }
    let hl = h.len();
    let last = hl - n.len();
    let mut i: usize = 0;
    loop
        invariant
            hl == h@.len(),
            h@ == script@,
            n@ == exe@,
            last == h@.len() - n@.len(),
            n@.len() <= h@.len(),
            0 <= i <= last,
            forall|j: int| 0 <= j < i ==> #[trigger] h@.subrange(j, j + n@.len()) != n@,
        decreases last - i,
    {
        let mut k: usize = 0;
        let mut same = true;
        while k < n.len()
            invariant
                0 <= k <= n@.len(),
                n@.len() <= h@.len(),
                hl == h@.len(),
                i <= last,
                last == h@.len() - n@.len(),
                same == (forall|m: int| 0 <= m < k ==> h@[i + m] == n@[m]),
            decreases n@.len() - k,
        {
            if h[i + k] != n[k] {
                same = false;
            }
            k = k + 1;
        }
        if same {
            assert(h@.subrange(i as int, i + n@.len()) =~= n@);
            return true;
        }
        proof {
            let m = choose|m: int| 0 <= m < n@.len() && h@[i + m] != n@[m];
            assert(h@.subrange(i as int, i + n@.len())[m] != n@[m]);
        }
        if i == last {
            return false;
        }
        i = i + 1;
    }
}

} // verus!
