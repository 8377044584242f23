use notepad::search::{
    current_match_index, group_starts, location_label, note_search_matches, extract_full_line, extract_snippet, fallback_snippet, find_case_insensitive,
    locate_all_matches, locate_match, search_notes, NoteRow, MAX_MATCHES_PER_NOTE, MAX_TOTAL_RESULTS,
};

#[test]
fn locate_match_reports_line_and_column() {
    let content = "第一行\n第二行搜索词\n第三行";
    let matched = locate_match(content, "搜索词").expect("match should exist");

    assert_eq!(matched.line, 1);
    assert_eq!(matched.column, 3);
}

#[test]
fn locate_match_is_case_insensitive() {
    let content = "Hello WORLD";
    let matched = locate_match(content, "world").expect("match should exist");

    assert_eq!(matched.line, 0);
    assert_eq!(matched.column, 6);
}

#[test]
fn extract_snippet_adds_ellipsis_when_needed() {
    let content =
        "0123456789abcdefghijklmnopqrstuvwxyz0123456789abcdefghijklmnopqrstuvwxyz0123456789";
    let snippet = extract_snippet(content, 45, "jkl");

    assert!(snippet.starts_with("..."));
    assert!(snippet.ends_with("..."));
}

#[test]
fn locate_all_matches_finds_multiple() {
    let content = "hello world\nhello rust\nsay hello";
    let matches = locate_all_matches(content, "hello", 10);

    assert_eq!(matches.len(), 3);
    assert_eq!((matches[0].line, matches[0].column), (0, 0));
    assert_eq!((matches[1].line, matches[1].column), (1, 0));
    assert_eq!((matches[2].line, matches[2].column), (2, 4));
}

#[test]
fn locate_all_matches_respects_limit() {
    let content = "aa aa aa aa aa";
    let matches = locate_all_matches(content, "aa", 3);

    assert_eq!(matches.len(), 3);
}

#[test]
fn locate_all_matches_case_insensitive() {
    let content = "Hello HELLO hello";
    let matches = locate_all_matches(content, "hello", 10);

    assert_eq!(matches.len(), 3);
}

#[test]
fn find_reports_byte_offsets() {
    assert_eq!(find_case_insensitive("Hello World", "WORLD"), Some(6));
    assert_eq!(find_case_insensitive("abc", ""), Some(0));
    assert_eq!(find_case_insensitive("abc", "x"), None);
    assert_eq!(find_case_insensitive("第一行搜索", "搜索"), Some(9));
    assert_eq!(find_case_insensitive("", "a"), None);
}

#[test]
fn locate_match_counts_bytes_and_characters_apart() {
    let m = locate_match("ab\nçdé", "DÉ").expect("match");
    assert_eq!(m.byte_index, 5);
    assert_eq!((m.line, m.column), (1, 1));
    assert!(locate_match("abc", "zz").is_none());
}

#[test]
fn successive_matches_do_not_overlap() {
    let matches = locate_all_matches("aaaa", "aa", 10);
    assert_eq!(matches.len(), 2);
    assert_eq!(matches[0].byte_index, 0);
    assert_eq!(matches[1].byte_index, 2);
    assert_eq!(matches[1].column, 2);
}

#[test]
fn full_line_around_a_byte_offset() {
    assert_eq!(extract_full_line("a\nbcd\ne", 3), "bcd");
    assert_eq!(extract_full_line("only line", 0), "only line");
    assert_eq!(extract_full_line("x\n", 2), "");
}

#[test]
fn fallback_snippet_keeps_sixty_characters_on_one_line() {
    assert_eq!(fallback_snippet("line1\nline2"), "line1 line2");
    let long = "a".repeat(70);
    assert_eq!(fallback_snippet(&long), "a".repeat(60));
}

#[test]
fn snippet_without_ellipsis_for_short_text() {
    assert_eq!(extract_snippet("find me\nnow", 5, "me"), "find me now");
}

fn row(id: &str, title: &str, content: &str) -> NoteRow {
    NoteRow {
        id: id.to_string(),
        folder_id: "f".to_string(),
        title: title.to_string(),
        content: content.to_string(),
    }
}

#[test]
fn search_reports_each_content_match() {
    let rows = vec![row("1", "Rust notes", "learn rust\nRUST is fun")];
    let results = search_notes(&rows, "rust");
    assert_eq!(results.len(), 2);
    assert_eq!(results[0].note_id, "1");
    assert_eq!(results[0].snippet, "learn rust");
    assert_eq!(results[0].match_line, Some(0));
    assert_eq!(results[0].match_column, Some(6));
    assert_eq!(results[1].snippet, "RUST is fun");
    assert_eq!(results[1].match_line, Some(1));
    assert_eq!(results[1].match_column, Some(0));
    assert_eq!(results[1].match_len, 4);
}

#[test]
fn search_title_only_hits() {
    let rows = vec![
        row("1", "Groceries", "   "),
        row("2", "Grocery list", "milk\neggs"),
        row("3", "Other", "nothing here"),
    ];
    let results = search_notes(&rows, "gro");
    assert_eq!(results.len(), 2);
    assert_eq!(results[0].snippet, "标题命中");
    assert_eq!(results[0].match_line, None);
    assert_eq!(results[0].match_column, None);
    assert_eq!(results[1].snippet, "milk eggs");
    assert_eq!(results[1].note_id, "2");
}

#[test]
fn search_caps_matches_per_note_and_in_total() {
    let one = vec![row("1", "t", "a a a a a a a a a a a a")];
    assert_eq!(search_notes(&one, "a").len(), MAX_MATCHES_PER_NOTE);
    let many: Vec<NoteRow> = (0..25).map(|i| row(&i.to_string(), "t", "a a a a a a a a a a a a")).collect();
    let hits = search_notes(&many, "a");
    assert_eq!(hits.len(), MAX_TOTAL_RESULTS);
    assert_eq!(hits[199].note_id, "19");
    let lines: String = (0..11).map(|i| format!("line {i} hit\n")).collect();
    let hits = search_notes(&vec![row("n", "t", &lines)], "HIT");
    assert_eq!(hits.len(), 10);
    assert_eq!(hits[9].match_line, Some(9));
    assert_eq!(hits[9].snippet, "line 9 hit");
    let empty_query = search_notes(&vec![row("e", "t", "abcdefghijk")], "");
    assert_eq!(empty_query.len(), 10);
}

#[test]
fn smaller_limit_gives_a_prefix() {
    let all = locate_all_matches("ab ab ab ab", "ab", 10);
    let two = locate_all_matches("ab ab ab ab", "ab", 2);
    assert_eq!(all.len(), 4);
    assert_eq!(two[..], all[..2]);
}

#[test]
fn note_highlights_use_bytes_within_the_line() {
    let m = note_search_matches("ab\nxAbc", "ab");
    assert_eq!(m.len(), 2);
    assert_eq!((m[0].line, m[0].byte_column, m[0].byte_len), (0, 0, 2));
    assert_eq!((m[1].line, m[1].byte_column, m[1].byte_len), (1, 1, 2));
    let w = note_search_matches("第一行\n再搜索词", "搜索");
    assert_eq!(w.len(), 1);
    assert_eq!((w[0].line, w[0].byte_column, w[0].byte_len), (1, 3, 6));
    assert_eq!(current_match_index(&m, Some(1)), Some(1));
    assert_eq!(current_match_index(&m, Some(5)), None);
    assert_eq!(current_match_index(&m, None), None);
}

#[test]
fn query_case_does_not_matter() {
    let text = "Say Hello to the WORLD";
    assert_eq!(find_case_insensitive(text, "world"), find_case_insensitive(text, "WoRlD"));
    assert_eq!(find_case_insensitive(text, "HELLO"), Some(4));
}

#[test]
fn sidebar_groups_and_labels() {
    assert_eq!(location_label(Some(0)), "第 1 行");
    assert_eq!(location_label(Some(41)), "第 42 行");
    assert_eq!(location_label(Some(1999)), "第 2000 行");
    assert_eq!(location_label(None), "标题命中");
    let rows = vec![
        row("a", "A", "x hit\nhit"),
        row("b", "B", "hit"),
    ];
    let hits = search_notes(&rows, "hit");
    assert_eq!(group_starts(&hits), vec![true, false, true]);
    assert!(group_starts(&[]).is_empty());
}
