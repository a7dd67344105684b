use gitspark::diff_text::{diff_rows_checked, diff_rows_exec, hunk_starts_exec, parse_i32, DiffRowTone};

fn chars(s: &str) -> Vec<char> {
    s.chars().collect()
}

#[test]
fn parse_i32_follows_str_parse() {
    for s in ["0", "42", "+7", "-5", "-2147483648", "2147483647", "", "+", "-", "2147483648", "-+3", "1_0", " 1", "00012"] {
        assert_eq!(parse_i32(&chars(s)), s.parse::<i32>().ok(), "input {s:?}");
    }
}

#[test]
fn hunk_header_numbers() {
    assert_eq!(hunk_starts_exec(&chars("@@ -12,4 +15,6 @@ fn main()")), Some((12, 15)));
    assert_eq!(hunk_starts_exec(&chars("@@ -1 +1 @@")), Some((1, 1)));
    assert_eq!(hunk_starts_exec(&chars("@@ --3 ++4 @@")), Some((3, 4)));
    assert_eq!(hunk_starts_exec(&chars("@@ -x +y @@")), Some((0, 0)));
    assert_eq!(hunk_starts_exec(&chars("@@ -3,2 @@")), None);
}

#[test]
fn rows_number_lines_inside_hunks() {
    let text = "diff --git a/f b/f\nindex 1..2\n--- a/f\n+++ b/f\n@@ -3,3 +3,4 @@\n ctx\n-old\n+new\n+more\n\\ No newline at end of file\n";
    let rows = diff_rows_exec(text);
    assert_eq!(rows.len(), 10);
    let texts: Vec<&str> = rows.iter().map(|r| r.text.as_str()).collect();
    let lines: Vec<&str> = text.lines().collect();
    assert_eq!(texts, lines);
    assert_eq!(rows[0].tone, DiffRowTone::Plain);
    assert_eq!(rows[2].tone, DiffRowTone::Plain);
    assert_eq!(rows[3].tone, DiffRowTone::Plain);
    assert_eq!(rows[4].tone, DiffRowTone::Hunk);
    assert_eq!((rows[4].old_num, rows[4].new_num), (None, None));
    assert_eq!((rows[5].old_num, rows[5].new_num), (Some(3), Some(3)));
    assert_eq!(rows[6].tone, DiffRowTone::Deleted);
    assert_eq!((rows[6].old_num, rows[6].new_num), (Some(4), None));
    assert_eq!(rows[7].tone, DiffRowTone::Added);
    assert_eq!((rows[7].old_num, rows[7].new_num), (None, Some(4)));
    assert_eq!((rows[8].old_num, rows[8].new_num), (None, Some(5)));
    assert_eq!((rows[9].old_num, rows[9].new_num), (None, None));
}

#[test]
fn lines_outside_a_hunk_have_no_numbers() {
    let rows = diff_rows_exec("+added before any hunk\n context\n");
    assert_eq!(rows.len(), 2);
    assert_eq!(rows[0].tone, DiffRowTone::Added);
    assert_eq!((rows[0].old_num, rows[0].new_num), (None, None));
    assert!(diff_rows_exec("").is_empty());
}

#[test]
fn numbers_past_i32_are_refused() {
    let fits = diff_rows_checked("@@ -1 +2147483646 @@\n+a\n").expect("fits");
    assert_eq!(fits[1].new_num, Some(2147483646));
    assert!(diff_rows_checked("@@ -1 +2147483646 @@\n+a\n+b\n").is_none());
    assert!(diff_rows_checked("@@ -2147483647 +1 @@\n ctx\n").is_none());
}
