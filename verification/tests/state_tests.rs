use gitspark::domain_state::{CommitState, NetworkAction, NetworkState, RepoState, SelectionState};
use gitspark::models::{RepoInfo, RepoSnapshot};
use gitspark::ui_state::{ChangeFilterOptions, FilterState, MessageState, NavState, SettingsSection};

fn snapshot(ahead: usize, behind: usize) -> RepoSnapshot {
    RepoSnapshot {
        repo: RepoInfo {
            name: "r".to_string(),
            path: "/r".to_string(),
            current_branch: "main".to_string(),
            ahead,
            behind,
            remote_name: None,
            last_fetched: None,
        },
        changes: Vec::new(),
        branches: Vec::new(),
        diffs: Vec::new(),
        history: Vec::new(),
    }
}

#[test]
fn network_action_follows_the_counts() {
    assert!(matches!(NetworkAction::from_snapshot(&snapshot(0, 0)), NetworkAction::Fetch));
    assert!(matches!(NetworkAction::from_snapshot(&snapshot(3, 0)), NetworkAction::Push));
    assert!(matches!(NetworkAction::from_snapshot(&snapshot(3, 1)), NetworkAction::Pull));
}

#[test]
fn network_action_texts() {
    assert_eq!(NetworkAction::Fetch.title("origin"), "Fetch origin");
    assert_eq!(NetworkAction::Pull.title("upstream"), "Pull upstream");
    assert_eq!(NetworkAction::Push.title("origin"), "Push origin");
    assert_eq!(NetworkAction::Fetch.pending_title("origin"), "Fetching origin");
    assert_eq!(NetworkAction::Pull.pending_title("origin"), "Pulling origin");
    assert_eq!(NetworkAction::Push.pending_title("origin"), "Pushing origin");
    assert_eq!(NetworkAction::Fetch.icon_name(), "arrow-clockwise");
    assert_eq!(NetworkAction::Pull.icon_name(), "arrow-down");
    assert_eq!(NetworkAction::Push.icon_name(), "arrow-up");
}

#[test]
fn filter_counts() {
    let mut f = ChangeFilterOptions::none();
    assert_eq!(f.active_count(), 0);
    f.new_files = true;
    f.deleted_files = true;
    assert_eq!(f.active_count(), 2);
    f.included_in_commit = true;
    f.excluded_from_commit = true;
    f.modified_files = true;
    assert_eq!(f.active_count(), 5);
    assert_eq!(ChangeFilterOptions::default().active_count(), 0);
}

#[test]
fn defaults() {
    let m = MessageState::default();
    assert_eq!(m.status_message, "Open a repository to get started.");
    assert_eq!(m.error_message, "");
    let m = MessageState::new("Ready", "oops".to_string());
    assert_eq!((m.status_message.as_str(), m.error_message.as_str()), ("Ready", "oops"));
    let nav = NavState::default();
    assert!(!nav.show_settings && !nav.show_repo_selector);
    assert!(nav.settings_section == SettingsSection::Git);
    let filters = FilterState::default();
    assert!(filters.filter_text.is_empty());
    assert!(RepoState::default().snapshot.is_none());
    assert!(!CommitState::default().ai_in_flight);
    assert!(NetworkState::default().active_action.is_none());
    assert!(SelectionState::default().selected_commit.is_none());
}
