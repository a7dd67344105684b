use gitspark::components::{
    history_row_texts, ButtonVariant, CombinedAssets, CommitPanelAction, CommitPanelClicks, CommitPanelProps,
    DiffViewerContent,
    DiffViewerProps, FillRole, HistoryListProps, StrokeRole, TextRole,
};
use gitspark::models::{CommitInfo, CommitSuggestion, DiffEntry};

fn commit(oid: &str, summary: &str, is_head: bool) -> CommitInfo {
    CommitInfo {
        oid: oid.to_string(),
        short_oid: oid.chars().take(7).collect(),
        summary: summary.to_string(),
        author_name: "Grace".to_string(),
        date: "2024-02-03".to_string(),
        is_head,
        tags: Vec::new(),
    }
}

#[test]
fn button_variants() {
    assert_eq!(ButtonVariant::Primary.fill(), FillRole::AccentMuted);
    assert_eq!(ButtonVariant::Secondary.fill(), FillRole::Surface);
    assert_eq!(ButtonVariant::Danger.fill(), FillRole::Danger);
    assert_eq!(ButtonVariant::Ghosted.fill(), FillRole::Transparent);
    assert_eq!(ButtonVariant::Icon.fill(), FillRole::Transparent);
    assert_eq!(ButtonVariant::Secondary.stroke(), StrokeRole::Border);
    assert_eq!(ButtonVariant::Primary.stroke(), StrokeRole::NoStroke);
    assert_eq!(ButtonVariant::Danger.stroke(), StrokeRole::NoStroke);
    assert_eq!(ButtonVariant::Primary.text_color(), TextRole::White);
    assert_eq!(ButtonVariant::Danger.text_color(), TextRole::White);
    assert_eq!(ButtonVariant::Ghosted.text_color(), TextRole::Main);
    assert_eq!(ButtonVariant::Icon.text_color(), TextRole::Main);
}

#[test]
fn commit_panel_texts() {
    let preview = CommitSuggestion { subject: "Add parser".to_string(), body: String::new() };
    let mut summary = "  Implement the parser for all of the diff formats  ".to_string();
    let mut body = String::new();
    let props = CommitPanelProps {
        summary: &mut summary,
        body: &mut body,
        ai_in_flight: false,
        ai_preview: Some(&preview),
        branch_label: "main",
        stash_count: 2,
        avatar_letter: "G",
    };
    let t = props.texts();
    assert_eq!(t.ai_preview.as_deref(), Some("AI: Add parser"));
    assert_eq!(t.stash.as_deref(), Some("▸ Stashed Changes (2)"));
    assert_eq!(t.commit_button, "Commit to main");
    assert_eq!(t.footer, "Implement the parser for all of th...");
    let mut summary2 = String::new();
    let mut body2 = String::new();
    let empty = CommitPanelProps {
        summary: &mut summary2,
        body: &mut body2,
        ai_in_flight: true,
        ai_preview: None,
        branch_label: "dev",
        stash_count: 0,
        avatar_letter: "G",
    };
    let t = empty.texts();
    assert!(t.ai_preview.is_none());
    assert!(t.stash.is_none());
    assert_eq!(t.footer, "No commit message yet");
}

#[test]
fn diff_viewer_content() {
    let text = DiffEntry { path: "a".to_string(), diff: "+x".to_string(), is_binary: false };
    let blank = DiffEntry { path: "b".to_string(), diff: " \n".to_string(), is_binary: false };
    let bin = DiffEntry { path: "c".to_string(), diff: String::new(), is_binary: true };
    let none = DiffViewerProps { selected_change: None, selected_diff: Some(&text) };
    assert_eq!(none.content(), DiffViewerContent::NoFileSelected);
    let p = DiffViewerProps { selected_change: Some("a"), selected_diff: Some(&text) };
    assert_eq!(p.content(), DiffViewerContent::Text);
    let p = DiffViewerProps { selected_change: Some("b"), selected_diff: Some(&blank) };
    assert_eq!(p.content(), DiffViewerContent::NoText);
    let p = DiffViewerProps { selected_change: Some("c"), selected_diff: Some(&bin) };
    assert_eq!(p.content(), DiffViewerContent::Binary);
    let p = DiffViewerProps { selected_change: Some("d"), selected_diff: None };
    assert_eq!(p.content(), DiffViewerContent::Missing);
}

#[test]
fn history_rows() {
    let history = vec![
        commit("abcdef0123", "  Short  ", true),
        commit("9876543210", "", false),
        commit("1111111111", &"w".repeat(60), false),
    ];
    let props = HistoryListProps { history: &history, selected_commit: Some("9876543210") };
    let rows = props.rows();
    assert_eq!(rows.len(), 3);
    assert_eq!(rows[0].summary, "Short");
    assert_eq!(rows[0].meta, "HEAD • abcdef0 • Grace • 2024-02-03");
    assert!(!rows[0].is_selected);
    assert_eq!(rows[1].summary, "Empty commit message");
    assert!(rows[1].is_selected);
    assert_eq!(rows[2].summary, format!("{}...", "w".repeat(54)));
    let long = commit("2222222222", "x", true);
    let mut long = long;
    long.author_name = "a".repeat(80);
    let r = history_row_texts(&long, None);
    assert_eq!(r.meta.chars().count(), 75);
    assert!(r.meta.ends_with("..."));
    assert!(!r.is_selected);
}

#[test]
fn combined_assets() {
    let bundled = vec![
        "icons/a.svg".to_string(),
        "other/b.svg".to_string(),
        "icons/c.svg".to_string(),
    ];
    let listed = CombinedAssets::list(&bundled, "icons/", Ok(vec!["icons/lib.svg".to_string()]));
    assert_eq!(listed, Ok(vec!["icons/a.svg".to_string(), "icons/c.svg".to_string(), "icons/lib.svg".to_string()]));
    assert_eq!(CombinedAssets::list(&bundled, "icons/", Err("broken".to_string())), Err("broken".to_string()));
    assert_eq!(CombinedAssets::load(Some(vec![1, 2]), Ok(Some(vec![3]))), Ok(Some(vec![1, 2])));
    assert_eq!(CombinedAssets::load(None, Ok(Some(vec![3]))), Ok(Some(vec![3])));
    assert_eq!(CombinedAssets::load(None, Ok(None)), Ok(None));
}

#[test]
fn commit_panel_reports_the_clicked_action() {
    let mut summary = String::new();
    let mut body = String::new();
    let mut props = CommitPanelProps {
        summary: &mut summary,
        body: &mut body,
        ai_in_flight: false,
        ai_preview: None,
        branch_label: "main",
        stash_count: 0,
        avatar_letter: "G",
    };
    let none = CommitPanelClicks { generate: false, settings: false, commit: false };
    assert_eq!(props.output(none).action, None);
    let ai = CommitPanelClicks { generate: true, ..none };
    assert_eq!(props.output(ai).action, Some(CommitPanelAction::GenerateAiCommit));
    let all = CommitPanelClicks { generate: true, settings: true, commit: true };
    assert_eq!(props.output(all).action, Some(CommitPanelAction::CommitAll));
    let gear = CommitPanelClicks { generate: true, settings: true, commit: false };
    assert_eq!(props.output(gear).action, Some(CommitPanelAction::ShowSettings));
    props.ai_in_flight = true;
    assert_eq!(props.output(ai).action, None);
}

#[test]
fn history_click_reports_the_last_clicked_row() {
    let history = vec![commit("aaaaaaa1", "one", true), commit("bbbbbbb2", "two", false), commit("ccccccc3", "three", false)];
    let props = HistoryListProps { history: &history, selected_commit: None };
    assert_eq!(props.clicked_oid(&vec![false, false, false]), None);
    assert_eq!(props.clicked_oid(&vec![false, true, false]).as_deref(), Some("bbbbbbb2"));
    assert_eq!(props.clicked_oid(&vec![true, false, true]).as_deref(), Some("ccccccc3"));
}
