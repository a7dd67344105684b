use gitspark::app::{
    build_ai_diff, choose_editor, default_endpoint, editor_command, push_recent_repo,
    shell_escape, AppEffect, AppEvent, GitSparkApp, LoadedRepo, RepoRefreshReason, SettingsAction,
    SidebarAction, ToolbarAction,
};
use gitspark::domain_state::NetworkAction;
use gitspark::ui_state::{OpenRouterModelsState, SidebarTab};
use gitspark::models::{
    AiProvider, AiSettings, AppSettings, BranchInfo, ChangeEntry, CommitInfo, DiffEntry,
    GitIdentity, RepoInfo, RepoSnapshot,
};
use gitspark::text_edit::KeyInput;

fn settings(recent: &[&str]) -> AppSettings {
    AppSettings {
        recent_repos: recent.iter().map(|s| s.to_string()).collect(),
        ai: AiSettings {
            provider: AiProvider::OpenAi,
            endpoint: "https://example.invalid/v1".to_string(),
            model: "model-a".to_string(),
            api_key: String::new(),
            system_prompt: String::new(),
        },
    }
}

fn commit(oid: &str) -> CommitInfo {
    CommitInfo {
        oid: oid.to_string(),
        short_oid: oid[..3].to_string(),
        summary: "msg".to_string(),
        author_name: "Ada".to_string(),
        date: "2024-01-01".to_string(),
        is_head: false,
        tags: Vec::new(),
    }
}

fn loaded(path: &str) -> LoadedRepo {
    LoadedRepo {
        snapshot: RepoSnapshot {
            repo: RepoInfo {
                name: "demo".to_string(),
                path: path.to_string(),
                current_branch: "main".to_string(),
                ahead: 0,
                behind: 2,
                remote_name: Some("origin".to_string()),
                last_fetched: None,
            },
            changes: vec![ChangeEntry { path: "a.rs".to_string(), status: "M".to_string() }],
            branches: vec![
                BranchInfo { name: "main".to_string(), is_current: true, is_remote: false },
                BranchInfo { name: "topic".to_string(), is_current: false, is_remote: false },
            ],
            diffs: vec![DiffEntry { path: "a.rs".to_string(), diff: "+x\n".to_string(), is_binary: false }],
            history: vec![commit("aaaa111"), commit("bbbb222")],
        },
        identity: Ok(GitIdentity {
            user_name: "Ada".to_string(),
            user_email: "ada@example.com".to_string(),
            default_branch: None,
            pull_rebase: None,
        }),
    }
}

fn key(name: &str, ch: Option<&str>) -> KeyInput {
    KeyInput { key: name.to_string(), secondary: false, control: false, key_char: ch.map(String::from) }
}

#[test]
fn new_without_recent_repositories_is_idle() {
    let (app, effects) = GitSparkApp::new(settings(&[]));
    assert!(effects.is_empty());
    assert_eq!(app.messages.status_message, "Open a repository to get started.");
    assert_eq!(app.messages.error_message, "");
    assert!(app.repo.snapshot.is_none());
    assert_eq!(app.summary_cursor, 0);
}

#[test]
fn new_reopens_the_most_recent_repository() {
    let (app, effects) = GitSparkApp::new(settings(&["/last", "/older"]));
    assert_eq!(effects.len(), 3);
    assert!(matches!(effects[0], AppEffect::StopRepoWatch));
    assert!(matches!(effects[1], AppEffect::SaveSettings { confirm: false }));
    assert!(matches!(&effects[2], AppEffect::LoadRepo { path } if path == "/last"));
    assert_eq!(app.messages.status_message, "Loading repository...");
    assert_eq!(app.settings.recent_repos, vec!["/last", "/older"]);
}

#[test]
fn repo_loaded_adopts_and_watches() {
    let (mut app, _) = GitSparkApp::new(settings(&[]));
    let effects = app.process_event(AppEvent::RepoLoaded(Ok(loaded("/r"))));
    assert_eq!(app.messages.status_message, "Repository loaded.");
    assert_eq!(app.selection.selected_change.as_deref(), Some("a.rs"));
    assert_eq!(app.selection.selected_commit.as_deref(), Some("aaaa111"));
    assert_eq!(app.repo.merge_target, "topic");
    assert_eq!(effects.len(), 2);
    assert!(matches!(&effects[0], AppEffect::WatchRepo { path, token } if path == "/r" && *token == 1));
    assert_eq!(app.repo_watch_generation, 1);
    assert!(matches!(&effects[1], AppEffect::LoadCommitDiff { path, oid } if path == "/r" && oid == "aaaa111"));
    let again = app.process_event(AppEvent::RepoRefreshed("/r".to_string(), Ok(loaded("/r")), RepoRefreshReason::Watch));
    assert_eq!(again.len(), 1);
    assert_eq!(app.messages.status_message, "Repository loaded.");
}

#[test]
fn refresh_of_another_path_is_ignored() {
    let (mut app, _) = GitSparkApp::new(settings(&[]));
    app.process_event(AppEvent::RepoLoaded(Ok(loaded("/r"))));
    let effects = app.process_event(AppEvent::RepoRefreshed(
        "/other".to_string(),
        Err("gone".to_string()),
        RepoRefreshReason::Manual,
    ));
    assert!(effects.is_empty());
    assert_eq!(app.messages.error_message, "");
    app.process_event(AppEvent::RepoRefreshed("/r".to_string(), Err("gone".to_string()), RepoRefreshReason::Manual));
    assert_eq!(app.messages.error_message, "Refresh failed: gone");
    app.process_event(AppEvent::RepoRefreshed("/r".to_string(), Err("gone".to_string()), RepoRefreshReason::Focus));
    assert_eq!(app.messages.error_message, "gone");
}

#[test]
fn failed_events_report_errors() {
    let (mut app, _) = GitSparkApp::new(settings(&[]));
    app.process_event(AppEvent::RepoLoaded(Err("nope".to_string())));
    assert_eq!(app.messages.error_message, "Failed to open repository: nope");
    app.process_event(AppEvent::BranchSwitched(Err("dirty".to_string()), "x".to_string()));
    assert_eq!(app.messages.error_message, "Branch switch failed: dirty");
    app.process_event(AppEvent::BranchMerged(Err("conflict".to_string()), "x".to_string()));
    assert_eq!(app.messages.error_message, "Merge failed: conflict");
    app.process_event(AppEvent::CommitCreated(Err("hook".to_string())));
    assert_eq!(app.messages.error_message, "Commit failed: hook");
}

#[test]
fn commit_needs_a_summary() {
    let (mut app, _) = GitSparkApp::new(settings(&[]));
    assert!(app.commit_all().is_empty());
    assert_eq!(app.messages.error_message, "No repository selected.");
    app.process_event(AppEvent::RepoLoaded(Ok(loaded("/r"))));
    app.commit.summary = "   ".to_string();
    assert!(app.commit_all().is_empty());
    assert_eq!(app.messages.error_message, "Commit summary cannot be empty.");
    app.commit.summary = " Fix ".to_string();
    app.commit.body = " Details ".to_string();
    let effects = app.commit_all();
    assert_eq!(app.messages.status_message, "Creating commit...");
    assert!(matches!(&effects[0], AppEffect::CommitAll { path, message } if path == "/r" && message == "Fix\n\nDetails"));
}

#[test]
fn push_recent_repo_moves_the_path_first() {
    let mut s = settings(&["/a", "/b", "/a", "/c"]);
    push_recent_repo(&mut s, "/a".to_string());
    assert_eq!(s.recent_repos, vec!["/a", "/b", "/c"]);
    push_recent_repo(&mut s, "/a".to_string());
    assert_eq!(s.recent_repos, vec!["/a", "/b", "/c"]);
    push_recent_repo(&mut s, "/d".to_string());
    assert_eq!(s.recent_repos, vec!["/d", "/a", "/b", "/c"]);
}

#[test]
fn ai_diff_joins_text_diffs() {
    let diffs = vec![
        DiffEntry { path: "a".to_string(), diff: "+1".to_string(), is_binary: false },
        DiffEntry { path: "b.png".to_string(), diff: String::new(), is_binary: true },
        DiffEntry { path: "c".to_string(), diff: "-2".to_string(), is_binary: false },
    ];
    assert_eq!(build_ai_diff(&diffs), "FILE: a\n+1\n\nFILE: c\n-2");
    assert_eq!(build_ai_diff(&Vec::new()), "");
}

#[test]
fn shell_quoting_and_editor_choice() {
    assert_eq!(shell_escape("it's"), "'it'\"'\"'s'");
    assert_eq!(editor_command("code -w", "/r/a b.rs"), "code -w '/r/a b.rs'");
    assert_eq!(
        choose_editor(Some("  ".to_string()), None, Some("vim".to_string())).as_deref(),
        Some("vim")
    );
    assert_eq!(
        choose_editor(Some("nano".to_string()), Some("code".to_string()), None).as_deref(),
        Some("nano")
    );
    assert!(choose_editor(None, None, None).is_none());
}

#[test]
fn typing_then_backspace_restores_the_summary() {
    let (mut app, _) = GitSparkApp::new(settings(&[]));
    app.commit.summary = "añb".to_string();
    app.summary_cursor = 3;
    assert!(app.handle_summary_key(&key("é", Some("é")), None));
    assert_eq!(app.commit.summary, "añéb");
    assert_eq!(app.summary_cursor, 5);
    assert!(app.handle_summary_key(&key("backspace", None), None));
    assert_eq!(app.commit.summary, "añb");
    assert_eq!(app.summary_cursor, 3);
}

#[test]
fn summary_ignores_typed_line_breaks_and_flattens_pastes() {
    let (mut app, _) = GitSparkApp::new(settings(&[]));
    assert!(!app.handle_summary_key(&key("enter", Some("\n")), None));
    let paste = KeyInput { key: "v".to_string(), secondary: true, control: false, key_char: None };
    assert!(app.handle_summary_key(&paste, Some("a\nb".to_string())));
    assert_eq!(app.commit.summary, "a b");
    assert!(app.handle_description_key(&key("enter", None), None));
    assert_eq!(app.commit.body, "\n");
}

#[test]
fn toolbar_view_without_and_with_a_repository() {
    let (mut app, _) = GitSparkApp::new(settings(&[]));
    let t = app.toolbar_view();
    assert_eq!(t.repo_name, "Choose repository");
    assert_eq!(t.branch_name, "No branch");
    assert_eq!((t.ahead, t.behind), (0, 0));
    assert_eq!(t.network_label, "Fetch origin");
    assert!(t.last_fetched.is_none());
    app.process_event(AppEvent::RepoLoaded(Ok(loaded("/r"))));
    let t = app.toolbar_view();
    assert_eq!(t.repo_name, "demo");
    assert_eq!(t.branch_name, "main");
    assert_eq!(t.behind, 2);
    assert_eq!(t.network_label, "Pull origin");
    app.network.active_action = Some(gitspark::domain_state::NetworkAction::Pull);
    assert_eq!(app.toolbar_view().network_label, "Pulling origin");
}

#[test]
fn workspace_view_follows_the_tab() {
    let (mut app, _) = GitSparkApp::new(settings(&[]));
    let w = app.workspace_view();
    assert!(w.diffs.is_none() && w.selected_file.is_none() && w.selected_diff.is_none());
    assert!(!w.show_file_list);
    app.process_event(AppEvent::RepoLoaded(Ok(loaded("/r"))));
    let w = app.workspace_view();
    assert_eq!(w.selected_file.map(|s| s.as_str()), Some("a.rs"));
    assert_eq!(w.selected_diff.map(|d| d.diff.as_str()), Some("+x\n"));
    assert!(!w.show_file_list);
    app.nav.sidebar_tab = gitspark::ui_state::SidebarTab::History;
    app.process_event(AppEvent::CommitDiffLoaded(
        "aaaa111".to_string(),
        Ok(vec![DiffEntry { path: "b.rs".to_string(), diff: "-y".to_string(), is_binary: false }]),
    ));
    let w = app.workspace_view();
    assert!(w.show_file_list);
    assert_eq!(w.diffs.map(|d| d.len()), Some(1));
    app.selection.selected_commit_file = Some("b.rs".to_string());
    assert_eq!(app.workspace_view().selected_diff.map(|d| d.diff.as_str()), Some("-y"));
    assert_eq!(app.commit_button_label(), "Commit to main");
}


#[test]
fn toolbar_actions() {
    let (mut app, _) = GitSparkApp::new(settings(&[]));
    assert!(app.handle_toolbar_action(ToolbarAction::ToggleRepoSelector).is_empty());
    assert!(app.nav.show_repo_selector);
    assert!(app.handle_toolbar_action(ToolbarAction::FetchOrigin).is_empty());
    assert_eq!(app.messages.error_message, "No repository selected.");
    app.process_event(AppEvent::RepoLoaded(Ok(loaded("/r"))));
    let effects = app.handle_toolbar_action(ToolbarAction::RunNetworkAction(NetworkAction::Pull));
    assert_eq!(app.messages.status_message, "Pull origin...");
    assert!(matches!(&effects[0], AppEffect::RunNetworkAction { path, label, .. } if path == "/r" && label == "Pull origin"));
    assert!(app.handle_toolbar_action(ToolbarAction::PushOrigin).is_empty());
    app.process_event(AppEvent::NetworkActionCompleted(Err("offline".to_string()), "Pull origin".to_string()));
    assert_eq!(app.messages.error_message, "Pull origin failed: offline");
    assert!(app.network.active_action.is_none());
}

#[test]
fn sidebar_actions() {
    let (mut app, _) = GitSparkApp::new(settings(&[]));
    let effects = app.handle_sidebar_action(SidebarAction::OpenRepoDialog);
    assert!(matches!(effects[0], AppEffect::OpenRepoDialog));
    assert!(app.handle_sidebar_action(SidebarAction::CopyFullPath("a.rs".to_string())).is_empty());
    app.process_event(AppEvent::RepoLoaded(Ok(loaded("/r"))));
    app.handle_sidebar_action(SidebarAction::SelectChange("b.rs".to_string()));
    assert_eq!(app.selection.selected_change.as_deref(), Some("b.rs"));
    let effects = app.handle_sidebar_action(SidebarAction::CopyRelativePath("src/x.rs".to_string()));
    assert_eq!(app.messages.status_message, "Copied relative path for 'src/x.rs'.");
    assert!(matches!(&effects[0], AppEffect::CopyText { text } if text == "src/x.rs"));
    let effects = app.handle_sidebar_action(SidebarAction::IgnoreExtension("log".to_string()));
    assert!(matches!(&effects[0], AppEffect::AppendGitignore { pattern, .. } if pattern == "*.log"));
    let effects = app.handle_sidebar_action(SidebarAction::IgnorePath("dir\\file.txt".to_string()));
    assert!(matches!(&effects[0], AppEffect::AppendGitignore { pattern, .. } if pattern == "dir/file.txt"));
    let effects = app.handle_sidebar_action(SidebarAction::OpenWithDefault("a.rs".to_string()));
    assert!(matches!(&effects[0], AppEffect::OpenWithDefault { repo, relative } if repo == "/r" && relative == "a.rs"));
    app.handle_sidebar_action(SidebarAction::ShowSettings);
    assert!(app.nav.show_settings);
}

#[test]
fn settings_actions() {
    let (mut app, _) = GitSparkApp::new(settings(&[]));
    app.filters.openrouter_model_filter = "gpt".to_string();
    let effects = app.handle_settings_action(SettingsAction::ChangeProvider(gitspark::models::AiProvider::OpenRouter));
    assert_eq!(app.settings.ai.endpoint, default_endpoint(gitspark::models::AiProvider::OpenRouter));
    assert_eq!(app.filters.openrouter_model_filter, "");
    assert!(matches!(effects[0], AppEffect::FetchOpenRouterModels));
    assert!(matches!(app.filters.openrouter_models, OpenRouterModelsState::Loading));
    assert!(app.handle_settings_action(SettingsAction::RetryOpenRouterModels).len() == 1);
    app.handle_settings_action(SettingsAction::SelectOpenRouterModel("m/x".to_string()));
    assert_eq!(app.settings.ai.model, "m/x");
    let effects = app.handle_settings_action(SettingsAction::SaveAiSettings);
    assert!(matches!(effects[0], AppEffect::SaveSettings { confirm: true }));
    app.handle_settings_action(SettingsAction::Close);
    assert!(!app.nav.show_settings);
}

#[test]
fn process_events_in_order() {
    let (mut app, _) = GitSparkApp::new(settings(&[]));
    let (effects, had) = app.process_events(Vec::new());
    assert!(effects.is_empty() && !had);
    let (effects, had) = app.process_events(vec![
        AppEvent::RepoLoaded(Ok(loaded("/r"))),
        AppEvent::BranchSwitched(Ok(loaded("/r")), "topic".to_string()),
    ]);
    assert!(had);
    assert_eq!(effects.len(), 3);
    assert_eq!(app.messages.status_message, "Switched to branch 'topic'.");
}

#[test]
fn clamp_cursors_keeps_them_in_their_fields() {
    let (mut app, _) = GitSparkApp::new(settings(&[]));
    app.commit.summary = "abc".to_string();
    app.summary_cursor = 10;
    app.description_cursor = 1;
    app.clamp_cursors();
    assert_eq!((app.summary_cursor, app.description_cursor), (3, 0));
}


#[test]
fn settings_section_switch() {
    let (mut app, _) = GitSparkApp::new(settings(&[]));
    app.select_settings_section(gitspark::ui_state::SettingsSection::Ai);
    assert!(app.nav.settings_section == gitspark::ui_state::SettingsSection::Ai);
    app.select_settings_section(gitspark::ui_state::SettingsSection::Git);
    assert!(app.nav.settings_section == gitspark::ui_state::SettingsSection::Git);
}


#[test]
fn description_typing_then_backspace() {
    let (mut app, _) = GitSparkApp::new(settings(&[]));
    app.commit.body = "line\nnext".to_string();
    app.description_cursor = 5;
    assert!(app.handle_description_key(&key("z", Some("𝄞")), None));
    assert_eq!(app.commit.body, "line\n𝄞next");
    assert_eq!(app.description_cursor, 9);
    assert!(app.handle_description_key(&key("backspace", None), None));
    assert_eq!(app.commit.body, "line\nnext");
    assert_eq!(app.description_cursor, 5);
}

#[test]
fn summary_stays_one_line() {
    let (mut app, _) = GitSparkApp::new(settings(&[]));
    let paste = KeyInput { key: "v".to_string(), secondary: true, control: false, key_char: None };
    app.handle_summary_key(&paste, Some("a\n\nb\n".to_string()));
    app.handle_summary_key(&key("x", Some("\r\n")), None);
    app.handle_summary_key(&key("enter", Some("\n")), None);
    assert_eq!(app.commit.summary, "a  b ");
    assert!(!app.commit.summary.contains('\n'));
}

#[test]
fn workspace_message_follows_the_selection() {
    let text = DiffEntry { path: "a.rs".to_string(), diff: "@@ -1 +1 @@\n-a\n+b\n".to_string(), is_binary: false };
    let blank = DiffEntry { path: "b.rs".to_string(), diff: "  \n".to_string(), is_binary: false };
    let binary = DiffEntry { path: "c.png".to_string(), diff: String::new(), is_binary: true };
    assert_eq!(GitSparkApp::workspace_message(None, Some(&text)).as_deref(), Some("Select a file to view its diff"));
    assert_eq!(GitSparkApp::workspace_message(Some("a.rs"), Some(&text)), None);
    assert_eq!(GitSparkApp::workspace_message(Some("b.rs"), Some(&blank)).as_deref(), Some("No diff text available."));
    assert_eq!(GitSparkApp::workspace_message(Some("c.png"), Some(&binary)).as_deref(), Some("Binary file changed."));
    assert_eq!(GitSparkApp::workspace_message(Some("d.rs"), None).as_deref(), Some("No diff available for this file."));
}

#[test]
fn refresh_for_the_same_path_with_a_trailing_slash_applies() {
    let (mut app, _) = GitSparkApp::new(settings(&[]));
    app.process_event(AppEvent::RepoLoaded(Ok(loaded("/r"))));
    let mut next = loaded("/r/");
    next.snapshot.repo.current_branch = "topic".to_string();
    let effects = app.process_event(AppEvent::RepoRefreshed("/r/".to_string(), Ok(next), RepoRefreshReason::Manual));
    assert_eq!(app.messages.status_message, "Repository refreshed.");
    assert_eq!(app.repo.snapshot.as_ref().map(|s| s.repo.current_branch.as_str()), Some("topic"));
    // The watcher is already on "/r", which is the same path: no new watcher.
    assert!(effects.iter().all(|e| !matches!(e, AppEffect::WatchRepo { .. })));
    assert_eq!(app.watched_repo_path.as_deref(), Some("/r"));
    assert_eq!(app.repo_watch_generation, 1);
    app.process_event(AppEvent::RepoRefreshed("/r/./".to_string(), Err("gone".to_string()), RepoRefreshReason::Watch));
    assert_eq!(app.messages.error_message, "gone");
}

#[test]
fn a_new_watch_ends_the_earlier_one() {
    let (mut app, _) = GitSparkApp::new(settings(&[]));
    app.process_event(AppEvent::RepoLoaded(Ok(loaded("/r"))));
    assert_eq!(app.repo_watch_generation, 1);
    let effects = app.open_repo("/s".to_string());
    assert!(matches!(effects[0], AppEffect::StopRepoWatch));
    assert_eq!(app.repo_watch_generation, 2);
    let effects = app.process_event(AppEvent::RepoLoaded(Ok(loaded("/s"))));
    assert!(matches!(&effects[0], AppEffect::WatchRepo { path, token } if path == "/s" && *token == 3));
    assert_eq!(app.repo_watch_generation, 3);
}

#[test]
fn clicking_a_commit_file_selects_it() {
    let (mut app, _) = GitSparkApp::new(settings(&[]));
    app.process_event(AppEvent::RepoLoaded(Ok(loaded("/r"))));
    let before_commit = app.selection.selected_commit.clone();
    app.select_commit_file("src/lib.rs".to_string());
    assert_eq!(app.selection.selected_commit_file.as_deref(), Some("src/lib.rs"));
    assert_eq!(app.selection.selected_commit, before_commit);
}

#[test]
fn sidebar_tab_and_row_highlight() {
    let (mut app, _) = GitSparkApp::new(settings(&[]));
    app.process_event(AppEvent::RepoLoaded(Ok(loaded("/r"))));
    assert!(app.change_row_selected("a.rs"));
    assert!(!app.change_row_selected("b.rs"));
    app.select_sidebar_tab(SidebarTab::History);
    assert!(matches!(app.nav.sidebar_tab, SidebarTab::History));
    app.select_sidebar_tab(SidebarTab::Changes);
    assert!(matches!(app.nav.sidebar_tab, SidebarTab::Changes));
}
