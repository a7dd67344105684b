use gitspark::diff_model::{
    find_changed_ranges, line_number_texts, parse_diff, parse_diff_checked, split_highlight,
    CharRange, DiffLineKind,
};

#[test]
fn changed_ranges_marks_middle_word() {
    let (old, new) = find_changed_ranges("let x = 1;", "let x = 22;");
    assert_eq!(old, Some(CharRange { start: 8, end: 9 }));
    assert_eq!(new, Some(CharRange { start: 8, end: 10 }));
}

#[test]
fn parse_diff_pairs_equal_runs() {
    let raw = "diff --git a/f b/f\n--- a/f\n+++ b/f\n@@ -3,2 +3,2 @@\n ctx\n-old\n+new\n";
    let lines = parse_diff(raw);
    assert_eq!(lines.len(), 3);
    assert!(matches!(lines[0].kind, DiffLineKind::HunkHeader));
    assert_eq!(lines[1].content, "ctx");
    assert_eq!(lines[1].old_line, Some(3));
    assert_eq!(lines[1].new_line, Some(3));
    assert!(matches!(lines[2].kind, DiffLineKind::Modified { .. }));
    assert_eq!(lines[2].content, "old");
    assert_eq!(lines[2].new_content.as_deref(), Some("new"));
    assert_eq!(lines[2].old_line, Some(4));
    assert_eq!(lines[2].new_line, Some(4));
    assert!(parse_diff_checked(raw).is_some());
}

#[test]
fn changed_ranges_edge_cases() {
    assert_eq!(find_changed_ranges("same", "same"), (None, None));
    let (old, new) = find_changed_ranges("abc", "abXc");
    assert_eq!(old, None);
    assert_eq!(new, Some(CharRange { start: 2, end: 3 }));
    let long = "x".repeat(1025);
    assert_eq!(find_changed_ranges(&long, "y"), (None, None));
}

#[test]
fn changed_range_rebuilds_the_new_line() {
    let old_line = "let total = a + b;";
    let new_line = "let total = a * b;";
    let (_, new) = find_changed_ranges(old_line, new_line);
    let r = new.expect("a change");
    let (before, mid, after) = split_highlight(new_line, &r);
    assert_eq!(before, "let total = a ");
    assert_eq!(mid, "*");
    assert_eq!(after, " b;");
    assert_eq!(format!("{before}{mid}{after}"), new_line);
}

#[test]
fn split_highlight_clamps_to_the_text() {
    let (a, b, c) = split_highlight("abc", &CharRange { start: 1, end: 10 });
    assert_eq!((a.as_str(), b.as_str(), c.as_str()), ("a", "bc", ""));
    let (a, b, c) = split_highlight("héllo", &CharRange { start: 1, end: 2 });
    assert_eq!((a.as_str(), b.as_str(), c.as_str()), ("h", "é", "llo"));
}

#[test]
fn parse_diff_keeps_unequal_runs_apart() {
    let raw = "@@ -10 +20,3 @@\n-gone\n+one\n+two\n context\n\\ No newline at end of file\n";
    let lines = parse_diff(raw);
    assert_eq!(lines.len(), 6);
    assert!(matches!(lines[1].kind, DiffLineKind::Deleted));
    assert_eq!(lines[1].old_line, Some(10));
    assert!(matches!(lines[2].kind, DiffLineKind::Added));
    assert_eq!(lines[2].new_line, Some(20));
    assert_eq!(lines[3].new_line, Some(21));
    assert!(matches!(lines[4].kind, DiffLineKind::Context));
    assert_eq!(lines[4].content, "context");
    assert_eq!(lines[4].old_line, Some(11));
    assert_eq!(lines[4].new_line, Some(22));
    assert_eq!(line_number_texts(&lines[4]), ("11".to_string(), "22".to_string()));
    assert_eq!(line_number_texts(&lines[0]), (String::new(), String::new()));
}

#[test]
fn parse_diff_checked_refuses_numbers_past_usize() {
    let raw = format!("@@ -1 +{} @@\n+a\n+b\n", usize::MAX);
    assert!(parse_diff_checked(&raw).is_none());
}


#[test]
fn headers_are_the_at_lines() {
    let raw = "diff --git a/f b/f\n@@ -1 +1 @@\n-a\n+b\n@@ -9,2 +9,2 @@ fn x\n c\n";
    let lines = parse_diff(raw);
    let headers: Vec<&str> = lines
        .iter()
        .filter(|l| matches!(l.kind, DiffLineKind::HunkHeader))
        .map(|l| l.content.as_str())
        .collect();
    let at: Vec<&str> = raw.lines().filter(|l| l.starts_with("@@")).collect();
    assert_eq!(headers, at);
    assert!(lines.len() <= raw.lines().count());
}

#[test]
fn a_later_pair_of_equal_runs_is_modified() {
    let raw = "@@ -5,6 +7,6 @@\n keep\n-a1\n-a2\n+b1\n+b2\n-c\n tail\n";
    let lines = parse_diff(raw);
    assert_eq!(lines.len(), 6);
    assert!(matches!(lines[2].kind, DiffLineKind::Modified { .. }));
    assert_eq!(lines[2].content, "a1");
    assert_eq!(lines[2].new_content.as_deref(), Some("b1"));
    assert_eq!((lines[2].old_line, lines[2].new_line), (Some(6), Some(8)));
    assert!(matches!(lines[3].kind, DiffLineKind::Modified { .. }));
    assert_eq!(lines[3].content, "a2");
    assert_eq!(lines[3].new_content.as_deref(), Some("b2"));
    assert_eq!((lines[3].old_line, lines[3].new_line), (Some(7), Some(9)));
    assert!(matches!(lines[4].kind, DiffLineKind::Deleted));
    assert_eq!(lines[4].old_line, Some(8));
    assert_eq!((lines[5].old_line, lines[5].new_line), (Some(9), Some(10)));
}

#[test]
fn a_file_header_line_inside_a_run_joins_the_runs() {
    let raw = "@@ -1,2 +1 @@\n-a\n--- x\n-b\n+c\n";
    let lines = parse_diff(raw);
    assert_eq!(lines.len(), 4);
    assert!(matches!(lines[1].kind, DiffLineKind::Deleted));
    assert!(matches!(lines[2].kind, DiffLineKind::Deleted));
    assert_eq!(lines[2].content, "b");
    assert!(matches!(lines[3].kind, DiffLineKind::Added));
}

#[test]
fn hunk_numbers_count_up_from_the_header() {
    let raw = "@@ -10,3 +20,4 @@\n ctx\n-del\n+add\n+add2\n ctx2\n";
    let lines = parse_diff(raw);
    let old: Vec<usize> = lines.iter().filter_map(|l| l.old_line).collect();
    let new: Vec<usize> = lines.iter().filter_map(|l| l.new_line).collect();
    assert_eq!(old, vec![10, 11, 12]);
    assert_eq!(new, vec![20, 21, 22, 23]);
}

#[test]
fn a_second_hunk_numbers_from_its_own_header() {
    let raw = "@@ -1,2 +1,2 @@\n a\n-b\n+c\n@@ -40,2 +50,3 @@\n x\n+y\n z\n";
    let lines = parse_diff(raw);
    let second: Vec<(Option<usize>, Option<usize>)> =
        lines[4..].iter().map(|l| (l.old_line, l.new_line)).collect();
    assert!(matches!(lines[3].kind, DiffLineKind::HunkHeader));
    assert_eq!(second, vec![(Some(40), Some(50)), (None, Some(51)), (Some(41), Some(52))]);
}

#[test]
fn a_file_header_line_in_a_hunk_takes_no_number() {
    let raw = "@@ -1,3 +1,2 @@\n a\n--- x\n-b\n c\n";
    let lines = parse_diff(raw);
    let old: Vec<usize> = lines.iter().filter_map(|l| l.old_line).collect();
    let new: Vec<usize> = lines.iter().filter_map(|l| l.new_line).collect();
    assert_eq!(old, vec![1, 2, 3]);
    assert_eq!(new, vec![1, 2]);
}
