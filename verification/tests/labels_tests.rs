use gitspark::labels::{
    branch_label, changed_files_label, count_badge_text, history_meta, history_row_meta,
    history_summary, matches_filter, network_icon_for_label, network_parts, section_look,
    settings_display_value, stash_label, status_bar_text, status_color, status_label,
    status_symbol, status_tag_tone, truncate, truncate_commit_footer, truncate_middle, StatusTone,
    TagTone, ToolbarIcon,
};
use gitspark::models::{BranchInfo, CommitInfo};

fn commit(summary: &str, is_head: bool) -> CommitInfo {
    CommitInfo {
        oid: "0123456789".to_string(),
        short_oid: "0123456".to_string(),
        summary: summary.to_string(),
        author_name: "Ada".to_string(),
        date: "2024-05-01".to_string(),
        is_head,
        tags: Vec::new(),
    }
}

#[test]
fn filter_matches_without_ascii_case() {
    assert!(matches_filter("", "anything"));
    assert!(matches_filter("   ", "anything"));
    assert!(matches_filter(" SRC/Main ", "src/main.rs"));
    assert!(!matches_filter("lib", "src/main.rs"));
    assert!(!matches_filter("Ä", "ä.txt"));
}

#[test]
fn status_codes() {
    assert_eq!(status_color("??"), StatusTone::Success);
    assert_eq!(status_color("A "), StatusTone::Success);
    assert_eq!(status_color(" M"), StatusTone::Warning);
    assert_eq!(status_color("D"), StatusTone::Danger);
    assert_eq!(status_color("UU"), StatusTone::Danger);
    assert_eq!(status_color("R"), StatusTone::Muted);
    assert_eq!(status_symbol("??"), "+");
    assert_eq!(status_symbol("M"), "●");
    assert_eq!(status_symbol("D"), "−");
    assert_eq!(status_symbol("U"), "!");
    assert_eq!(status_symbol("R"), "•");
    assert_eq!(status_label("AM"), "A");
    assert_eq!(status_label("M"), "M");
    assert_eq!(status_label("D"), "D");
    assert_eq!(status_label("U"), "U");
    assert_eq!(status_label("R"), "?");
    assert_eq!(status_tag_tone("A"), TagTone::Success);
    assert_eq!(status_tag_tone("M"), TagTone::Warning);
    assert_eq!(status_tag_tone("D"), TagTone::Danger);
    assert_eq!(status_tag_tone("U"), TagTone::Secondary);
}

#[test]
fn truncate_middle_keeps_both_ends() {
    assert_eq!(truncate_middle("abcdefghij", 5), "ab…ij");
    assert_eq!(truncate_middle("abcdefghij", 5).chars().count(), 5);
    assert_eq!(truncate_middle("abcdefghij", 6), "abc…ij");
    assert_eq!(truncate_middle("abc", 3), "abc");
    assert_eq!(truncate_middle("abc", 1), "…");
    assert_eq!(truncate_middle("abc", 0), "…");
    assert_eq!(truncate_middle("ñandú y más", 7), "ñan…más");
}

#[test]
fn truncate_trims_and_cuts() {
    assert_eq!(truncate("  hello world  ", 5), "hello...");
    assert_eq!(truncate("  hello  ", 5), "hello");
    assert_eq!(truncate("", 3), "");
}

#[test]
fn commit_footer() {
    assert_eq!(truncate_commit_footer("  \n"), "No commit message yet");
    assert_eq!(truncate_commit_footer(" Short "), "Short");
    assert_eq!(
        truncate_commit_footer("0123456789012345678901234567890123456789"),
        "0123456789012345678901234567890123..."
    );
}

#[test]
fn branch_labels() {
    let b = BranchInfo { name: "main".to_string(), is_current: true, is_remote: false };
    assert_eq!(branch_label(&b), "main (current)");
    let r = BranchInfo { name: "origin/dev".to_string(), is_current: false, is_remote: true };
    assert_eq!(branch_label(&r), "origin/dev [remote]");
    let both = BranchInfo { name: "x".to_string(), is_current: true, is_remote: true };
    assert_eq!(branch_label(&both), "x (current) [remote]");
}

#[test]
fn history_texts() {
    assert_eq!(history_summary(&commit("  Fix  ", false)), "Fix");
    assert_eq!(history_summary(&commit(" ", false)), "Empty commit message");
    assert_eq!(history_meta(&commit("x", true)), "HEAD • 0123456 • Ada • 2024-05-01");
    assert_eq!(history_meta(&commit("x", false)), "0123456 • Ada • 2024-05-01");
    assert_eq!(history_row_meta(&commit("x", false)), "Ada · 2024-05-01");
}

#[test]
fn counts_and_badges() {
    assert_eq!(stash_label(0), None);
    assert_eq!(stash_label(1).as_deref(), Some("▸ Stashed Changes"));
    assert_eq!(stash_label(12).as_deref(), Some("▸ Stashed Changes (12)"));
    assert_eq!(count_badge_text(0), None);
    assert_eq!(count_badge_text(305).as_deref(), Some("305"));
    assert_eq!(changed_files_label(0), "0 changed files");
    assert_eq!(changed_files_label(7), "7 changed files");
}

#[test]
fn status_bar_prefers_the_error() {
    assert_eq!(status_bar_text("ok", ""), ("ok".to_string(), false));
    assert_eq!(status_bar_text("ok", "bad"), ("bad".to_string(), true));
    assert_eq!(settings_display_value(""), "(not set)");
    assert_eq!(settings_display_value("main"), "main");
}

#[test]
fn toolbar_icons() {
    assert_eq!(network_icon_for_label("Push origin"), ToolbarIcon::ArrowUp);
    assert_eq!(network_icon_for_label("PULL origin"), ToolbarIcon::ArrowDown);
    assert_eq!(network_icon_for_label("Fetch origin"), ToolbarIcon::Loader);
    let busy = section_look(true, true);
    assert_eq!(busy.caret, ToolbarIcon::LoaderCircle);
    assert!(busy.active_background);
    let open = section_look(true, false);
    assert_eq!(open.caret, ToolbarIcon::ChevronUp);
    assert!(open.active_background);
    let closed = section_look(false, false);
    assert_eq!(closed.caret, ToolbarIcon::ChevronDown);
    assert!(!closed.active_background);
    assert_eq!(section_look(false, true).caret, ToolbarIcon::LoaderCircle);
}

#[test]
fn network_button_parts() {
    let p = network_parts("Pull origin", 2, 1, Some("5 minutes ago"), false, true);
    assert_eq!(p.description, "Last fetched 5 minutes ago");
    assert_eq!(p.ahead_badge.as_deref(), Some("2↑"));
    assert_eq!(p.behind_badge.as_deref(), Some("1↓"));
    assert_eq!(p.icon, ToolbarIcon::ArrowDown);
    assert!(p.caret_active);
    assert_eq!(p.caret, ToolbarIcon::ChevronUp);
    let q = network_parts("Push origin", 0, 0, None, true, false);
    assert_eq!(q.description, "Never fetched");
    assert!(q.ahead_badge.is_none());
    assert!(q.behind_badge.is_none());
    assert_eq!(q.icon, ToolbarIcon::LoaderCircle);
    assert!(!q.caret_active);
    assert_eq!(q.caret, ToolbarIcon::ChevronDown);
}
