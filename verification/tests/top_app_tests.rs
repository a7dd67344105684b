use gitspark::app::LoadedRepo;
use gitspark::models::{
    AiProvider, AiSettings, AppSettings, BranchInfo, ChangeEntry, CommitSuggestion, DiffEntry,
    GitIdentity, RepoInfo, RepoSnapshot,
};
use gitspark::top_app::{change_row_fill, commit_body_mut, RowFill, RustTopApp, TopTab};
use gitspark::ui_state::SidebarTab;

fn settings(recent: &[&str]) -> AppSettings {
    AppSettings {
        recent_repos: recent.iter().map(|s| s.to_string()).collect(),
        ai: AiSettings {
            provider: AiProvider::OpenAi,
            endpoint: "https://example.invalid/v1".to_string(),
            model: "model-a".to_string(),
            api_key: String::new(),
            system_prompt: "Write a commit message.".to_string(),
        },
    }
}

fn identity(name: &str) -> GitIdentity {
    GitIdentity {
        user_name: name.to_string(),
        user_email: format!("{name}@example.com"),
        default_branch: Some("main".to_string()),
        pull_rebase: Some(true),
    }
}

fn snapshot(path: &str, current: &str) -> RepoSnapshot {
    RepoSnapshot {
        repo: RepoInfo {
            name: "demo".to_string(),
            path: path.to_string(),
            current_branch: current.to_string(),
            ahead: 0,
            behind: 0,
            remote_name: Some("origin".to_string()),
            last_fetched: None,
        },
        changes: vec![
            ChangeEntry { path: "src/lib.rs".to_string(), status: "M".to_string() },
            ChangeEntry { path: "README.md".to_string(), status: "??".to_string() },
        ],
        branches: vec![
            BranchInfo { name: "origin/main".to_string(), is_current: false, is_remote: true },
            BranchInfo { name: current.to_string(), is_current: true, is_remote: false },
            BranchInfo { name: "feature".to_string(), is_current: false, is_remote: false },
        ],
        diffs: vec![
            DiffEntry {
                path: "src/lib.rs".to_string(),
                diff: "@@ -1 +1 @@\n-a\n+b\n".to_string(),
                is_binary: false,
            },
            DiffEntry { path: "logo.png".to_string(), diff: String::new(), is_binary: true },
            DiffEntry { path: "empty.txt".to_string(), diff: "  \n".to_string(), is_binary: false },
        ],
        history: Vec::new(),
    }
}

fn loaded(path: &str, current: &str) -> LoadedRepo {
    LoadedRepo { snapshot: snapshot(path, current), identity: Ok(identity("ada")) }
}

fn opened_app() -> RustTopApp {
    let mut app = RustTopApp::new(settings(&[]), String::new());
    assert!(app.open_repo("/repo".to_string(), Ok(loaded("/repo", "main"))));
    app
}

#[test]
fn new_starts_on_the_workspace() {
    let app = RustTopApp::new(settings(&["/a"]), "bad settings".to_string());
    assert_eq!(app.status_message, "Open a repository to get started.");
    assert_eq!(app.error_message, "bad settings");
    assert!(app.current_repo.is_none());
    assert_eq!(app.main_tab, TopTab::Workspace);
    assert!(app.sidebar_tab == SidebarTab::Changes);
    assert!(app.repo_identity.user_name.is_empty());
    assert!(app.repo_path().is_none());
}

#[test]
fn open_repo_adopts_the_snapshot_and_records_it() {
    let mut app = RustTopApp::new(settings(&["/b", "/repo", "/c"]), "old error".to_string());
    let save = app.open_repo("/repo".to_string(), Ok(loaded("/repo", "main")));
    assert!(save);
    assert_eq!(app.status_message, "Repository loaded.");
    assert_eq!(app.error_message, "");
    assert_eq!(app.selected_change.as_deref(), Some("src/lib.rs"));
    assert_eq!(app.branch_target, "main");
    assert_eq!(app.merge_target, "feature");
    assert_eq!(app.repo_identity.user_name, "ada");
    assert_eq!(app.settings.recent_repos, vec!["/repo", "/b", "/c"]);
    assert_eq!(app.selected_recent_repo, Some(0));
    assert_eq!(app.repo_path().map(|p| p.as_str()), Some("/repo"));
}

#[test]
fn open_repo_failure_only_sets_the_error() {
    let mut app = RustTopApp::new(settings(&["/b"]), String::new());
    let save = app.open_repo("/x".to_string(), Err("not a git repository".to_string()));
    assert!(!save);
    assert_eq!(app.error_message, "Failed to open repository: not a git repository");
    assert_eq!(app.settings.recent_repos, vec!["/b"]);
    assert!(app.current_repo.is_none());
}

#[test]
fn identity_read_failure_resets_the_identity() {
    let mut app = opened_app();
    app.load_identity(Err("no config".to_string()));
    assert_eq!(app.error_message, "Could not load git config: no config");
    assert!(app.repo_identity.user_name.is_empty());
    assert!(app.repo_identity.default_branch.is_none());
    assert!(app.repo_identity.pull_rebase.is_none());
}

#[test]
fn actions_without_a_repository_report_it() {
    let mut app = RustTopApp::new(settings(&[]), String::new());
    assert!(app.refresh_repo().is_none());
    assert_eq!(app.error_message, "No repository selected.");
    app.error_message.clear();
    assert!(app.switch_branch().is_none());
    assert_eq!(app.error_message, "No repository selected.");
    app.error_message.clear();
    assert!(app.merge_branch().is_none());
    assert_eq!(app.error_message, "No repository selected.");
    app.error_message.clear();
    assert!(app.commit_all().is_none());
    assert_eq!(app.error_message, "No repository selected.");
    app.error_message.clear();
    assert!(app.save_git_config().is_none());
    assert_eq!(app.error_message, "No repository selected.");
    assert!(app.generate_ai_commit().is_none());
    assert_eq!(app.error_message, "Open a repository before generating a commit message.");
    assert_eq!(app.status_message, "Open a repository to get started.");
}

#[test]
fn refresh_round_trip() {
    let mut app = opened_app();
    assert_eq!(app.refresh_repo().as_deref(), Some("/repo"));
    app.repo_refreshed(Ok(loaded("/repo", "dev")));
    assert_eq!(app.status_message, "Repository refreshed.");
    assert_eq!(app.branch_target, "dev");
    app.repo_refreshed(Err("index locked".to_string()));
    assert_eq!(app.error_message, "Refresh failed: index locked");
    assert_eq!(app.status_message, "Repository refreshed.");
}

#[test]
fn switch_branch_needs_a_target() {
    let mut app = opened_app();
    app.branch_target = "   ".to_string();
    assert!(app.switch_branch().is_none());
    assert_eq!(app.error_message, "Choose a branch first.");
    app.branch_target = "  feature ".to_string();
    assert_eq!(app.switch_branch(), Some(("/repo".to_string(), "feature".to_string())));
}

#[test]
fn branch_switched_names_the_new_current_branch() {
    let mut app = opened_app();
    app.branch_switched(Ok(loaded("/repo", " feature ")));
    assert_eq!(app.status_message, "Switched to branch 'feature'.");
    assert_eq!(app.error_message, "");
    app.branch_switched(Err("conflict".to_string()));
    assert_eq!(app.error_message, "Branch switch failed: conflict");
}

#[test]
fn merge_round_trip() {
    let mut app = opened_app();
    app.merge_target = String::new();
    assert!(app.merge_branch().is_none());
    assert_eq!(app.error_message, "Choose a branch to merge.");
    app.merge_target = "feature".to_string();
    assert_eq!(app.merge_branch(), Some(("/repo".to_string(), "feature".to_string())));
    app.branch_merged(Ok(loaded("/repo", "main")));
    assert_eq!(app.status_message, "Merged 'feature'.");
    app.branch_merged(Err("conflict".to_string()));
    assert_eq!(app.error_message, "Merge failed: conflict");
}

#[test]
fn commit_round_trip() {
    let mut app = opened_app();
    app.commit_message = " \n ".to_string();
    assert!(app.commit_all().is_none());
    assert_eq!(app.error_message, "Commit message cannot be empty.");
    app.commit_message = "  Fix bug \n".to_string();
    assert_eq!(app.commit_all(), Some(("/repo".to_string(), "Fix bug".to_string())));
    app.ai_preview = Some(CommitSuggestion { subject: "s".to_string(), body: String::new() });
    app.commit_created(Ok(loaded("/repo", "main")));
    assert_eq!(app.commit_message, "");
    assert!(app.ai_preview.is_none());
    assert_eq!(app.status_message, "Commit created.");
    app.commit_created(Err("hook failed".to_string()));
    assert_eq!(app.error_message, "Commit failed: hook failed");
}

#[test]
fn ai_commit_uses_the_text_diffs() {
    let mut app = opened_app();
    let (ai, diff) = app.generate_ai_commit().expect("a request");
    assert_eq!(ai.model, "model-a");
    assert_eq!(
        diff,
        "FILE: src/lib.rs\n@@ -1 +1 @@\n-a\n+b\n\n\nFILE: empty.txt\n  \n"
    );
}

#[test]
fn ai_commit_needs_a_text_diff() {
    let mut app = RustTopApp::new(settings(&[]), String::new());
    let mut l = loaded("/repo", "main");
    l.snapshot.diffs = vec![DiffEntry { path: "a.png".to_string(), diff: String::new(), is_binary: true }];
    app.open_repo("/repo".to_string(), Ok(l));
    assert!(app.generate_ai_commit().is_none());
    assert_eq!(app.error_message, "No text diff available for AI commit generation.");
}

#[test]
fn ai_suggestion_becomes_the_message() {
    let mut app = opened_app();
    app.ai_commit_generated(Ok(CommitSuggestion { subject: "Add x".to_string(), body: "  ".to_string() }));
    assert_eq!(app.commit_message, "Add x");
    assert_eq!(app.status_message, "Generated commit suggestion.");
    app.ai_commit_generated(Ok(CommitSuggestion { subject: "Add x".to_string(), body: "Because.".to_string() }));
    assert_eq!(app.commit_message, "Add x\n\nBecause.");
    assert_eq!(app.ai_preview.as_ref().map(|s| s.body.as_str()), Some("Because."));
    app.ai_commit_generated(Err("quota".to_string()));
    assert_eq!(app.error_message, "AI generation failed: quota");
    assert_eq!(app.commit_message, "Add x\n\nBecause.");
}

#[test]
fn git_config_round_trip() {
    let mut app = opened_app();
    let (path, id) = app.save_git_config().expect("a request");
    assert_eq!(path, "/repo");
    assert_eq!(id.user_email, "ada@example.com");
    app.git_config_saved(Ok(()));
    assert_eq!(app.status_message, "Git config saved.");
    app.git_config_saved(Err("read-only".to_string()));
    assert_eq!(app.error_message, "Failed to save git config: read-only");
}

#[test]
fn settings_save_failures_are_shown() {
    let mut app = opened_app();
    app.persist_settings(Ok(()));
    assert_eq!(app.error_message, "");
    app.persist_settings(Err("disk full".to_string()));
    assert_eq!(app.error_message, "Failed to save settings: disk full");
}

#[test]
fn preferences_saved_confirms_only_without_error() {
    let mut app = opened_app();
    app.preferences_saved(Ok(()));
    assert_eq!(app.status_message, "App settings saved.");
    app.status_message = "x".to_string();
    app.error_message = "earlier".to_string();
    app.preferences_saved(Ok(()));
    assert_eq!(app.status_message, "x");
    app.preferences_saved(Err("denied".to_string()));
    assert_eq!(app.error_message, "Failed to save settings: denied");
}

#[test]
fn add_recent_repo_twice_is_like_once() {
    let mut once = RustTopApp::new(settings(&["/a", "/b", "/a"]), String::new());
    once.add_recent_repo("/b".to_string());
    let mut twice = RustTopApp::new(settings(&["/a", "/b", "/a"]), String::new());
    twice.add_recent_repo("/b".to_string());
    twice.add_recent_repo("/b".to_string());
    assert_eq!(once.settings.recent_repos, vec!["/b", "/a", "/a"]);
    assert_eq!(twice.settings.recent_repos, once.settings.recent_repos);
    assert_eq!(twice.selected_recent_repo, Some(0));
}

#[test]
fn selected_recent_path_follows_the_pick() {
    let mut app = RustTopApp::new(settings(&["/a", "/b"]), String::new());
    assert!(app.selected_recent_path().is_none());
    app.selected_recent_repo = Some(1);
    assert_eq!(app.selected_recent_path().as_deref(), Some("/b"));
    app.selected_recent_repo = Some(2);
    assert!(app.selected_recent_path().is_none());
}

#[test]
fn diff_pane_texts() {
    let mut app = RustTopApp::new(settings(&[]), String::new());
    assert_eq!(app.selected_diff_text(), "Open a repository to inspect diffs.");
    app.open_repo("/repo".to_string(), Ok(loaded("/repo", "main")));
    assert_eq!(app.selected_diff_text(), "@@ -1 +1 @@\n-a\n+b\n");
    app.selected_change = None;
    assert_eq!(app.selected_diff_text(), "Select a file from the changes list.");
    app.selected_change = Some("logo.png".to_string());
    assert_eq!(app.selected_diff_text(), "Binary file changed.");
    app.selected_change = Some("empty.txt".to_string());
    assert_eq!(app.selected_diff_text(), "No diff text available.");
    app.selected_change = Some("missing.rs".to_string());
    assert_eq!(app.selected_diff_text(), "No diff available for this file.");
}

#[test]
fn commit_body_mut_keeps_summary_and_description() {
    let mut m = "Summary line\r\nsecond\n\nBody text\n\nmore".to_string();
    {
        let body = commit_body_mut(&mut m);
        assert_eq!(body, "Summary line\n\nBody text\n\nmore");
        body.push('!');
    }
    assert_eq!(m, "Summary line\n\nBody text\n\nmore!");
    let mut plain = "Only a summary\nand a line".to_string();
    assert_eq!(commit_body_mut(&mut plain), "Only a summary\nand a line");
    let mut empty_first = "\n\nBody".to_string();
    assert_eq!(commit_body_mut(&mut empty_first), "\n\nBody");
}

#[test]
fn window_texts() {
    let mut app = RustTopApp::new(settings(&[]), String::new());
    let t = app.top_bar_texts();
    assert_eq!(t.repo_name, "Choose repository");
    assert_eq!(t.branch_name, "No branch");
    assert!(t.fetch_label.is_none());
    assert_eq!(app.changes_header_label(), "0 changed files");
    assert_eq!(app.diff_header_text(), "Select a file from the left panel");
    assert_eq!(app.recent_picker_text(), "No recent repositories yet.");
    assert_eq!(app.commit_button_label(), "Commit changes to branch");
    assert!(app.ai_preview_label().is_none());
    let mut l = loaded("/repo", "main");
    l.snapshot.repo.ahead = 3;
    l.snapshot.repo.behind = 12;
    app.open_repo("/repo".to_string(), Ok(l));
    let t = app.top_bar_texts();
    assert_eq!(t.repo_name, "demo");
    assert_eq!(t.fetch_label.as_deref(), Some("Fetch origin (3↑ 12↓)"));
    assert_eq!(app.changes_header_label(), "2 changed files");
    assert_eq!(app.diff_header_text(), "src/lib.rs");
    assert_eq!(app.recent_picker_text(), "/repo");
    app.selected_recent_repo = None;
    assert_eq!(app.recent_picker_text(), "Choose recent repo");
    assert_eq!(app.commit_button_label(), "Commit changes to main");
    app.ai_preview = Some(CommitSuggestion { subject: "Tidy".to_string(), body: String::new() });
    assert_eq!(app.ai_preview_label().as_deref(), Some("AI: Tidy"));
}

#[test]
fn change_rows_alternate() {
    assert_eq!(change_row_fill(true, 0), RowFill::Selected);
    assert_eq!(change_row_fill(false, 0), RowFill::Even);
    assert_eq!(change_row_fill(false, 3), RowFill::Odd);
}
