use notepad::desktop::{
    desktop_entry, entry_is_current, install, is_up_to_date, launcher_script, script_mentions,
};

#[test]
fn desktop_entry_text() {
    let text = desktop_entry("/opt/notepad/notepad", "/home/u/.local/share/icons/notepad.png");
    assert_eq!(
        text,
        "[Desktop Entry]\nType=Application\nName=Notepad\nComment=高性能 Markdown 记事本\n\
         Exec=/opt/notepad/notepad\nIcon=/home/u/.local/share/icons/notepad.png\n\
         Terminal=false\nStartupWMClass=notepad\n"
    );
}

#[test]
fn installed_entry_is_current_for_the_same_program() {
    let text = desktop_entry("/usr/bin/notepad", "/icon.png");
    assert!(entry_is_current(&text, "/usr/bin/notepad"));
    assert!(!entry_is_current(&text, "/usr/bin/other"));
    assert!(!entry_is_current(&text, "/usr/bin/note"));
}

#[test]
fn exec_line_must_match_a_whole_line() {
    assert!(entry_is_current("Exec=/a\r\nIcon=x", "/a"));
    assert!(!entry_is_current("Exec=/a\r", "/a"));
    assert!(entry_is_current("Exec=/a", "/a"));
    assert!(!entry_is_current("XExec=/a\n", "/a"));
    assert!(!entry_is_current("", "/a"));
}

#[test]
fn up_to_date_needs_entry_and_program() {
    assert!(is_up_to_date(Some("Exec=/p\n"), Some("/p")));
    assert!(!is_up_to_date(None, Some("/p")));
    assert!(!is_up_to_date(Some("Exec=/p\n"), None));
}

#[test]
fn install_reports_what_is_missing() {
    assert_eq!(
        install(Err("no such file"), Some("/i.png")),
        Err("无法获取可执行文件路径: no such file".to_string())
    );
    assert_eq!(install(Ok("/p"), None), Err("无法获取图标安装路径".to_string()));
    let entry = install(Ok("/p"), Some("/i.png")).expect("entry");
    assert!(entry.contains("\nExec=/p\n"));
    assert!(entry.contains("\nIcon=/i.png\n"));
}

#[test]
fn freshly_installed_entry_is_up_to_date() {
    let exe = "/home/u/bin/notepad";
    let entry = install(Ok(exe), Some("/home/u/.local/share/icons/hicolor/256x256/apps/notepad.png"))
        .expect("entry");
    assert!(is_up_to_date(Some(&entry), Some(exe)));
    assert!(!is_up_to_date(Some(&entry), Some("/elsewhere/notepad")));
}

#[test]
fn launcher_script_starts_the_program() {
    let script = launcher_script("/Users/u/notepad");
    assert_eq!(script, "#!/bin/bash\nexec \"/Users/u/notepad\" \"$@\"\n");
    assert!(script_mentions(&script, "/Users/u/notepad"));
    assert!(!script_mentions(&script, "/Users/v/notepad"));
    assert!(script_mentions("abc", ""));
    assert!(!script_mentions("ab", "abc"));
}
