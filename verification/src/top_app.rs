//! The state of the single-window Git client: what each button does to it,
//! and which Git, AI or settings work the window runs in between.
//!
//! The window runs its outside work synchronously. Each action is split at
//! that work: a method that checks the state and says what to run (or sets
//! the error instead), and a method that takes the outcome in.
use vstd::prelude::*;

use crate::app::{
    ai_diff_text, find_diff, find_diff_exec, first_change_path, identity_after,
    identity_error_after, merge_candidate, opt_str, path_views, push_recent_repo, without,
    LoadedRepo, build_ai_diff,
};
use crate::models::{AiSettings, AppSettings, CommitSuggestion, GitIdentity, RepoSnapshot};
use crate::text::{
    chars_of, decimal, decimal_string, concat2, concat3, find_chars, first_occurrence, is_blank_str, lemma_first_occurrence_is,
    occurs_at, string_of, strip_cr, trim_string, trimmed,
};
use crate::ui_state::SidebarTab;

verus! {

/// The two pages of the window.
#[derive(Clone, Copy, PartialEq, Eq, Structural, Debug)]
pub enum TopTab {
    Workspace,
    Config,
}

/// The state of the single-window Git client.
pub struct RustTopApp {
    pub settings: AppSettings,
    pub current_repo: Option<RepoSnapshot>,
    pub repo_identity: GitIdentity,
    pub selected_recent_repo: Option<usize>,
    pub selected_change: Option<String>,
    pub branch_target: String,
    pub merge_target: String,
    pub commit_message: String,
    pub ai_preview: Option<CommitSuggestion>,
    pub status_message: String,
    pub error_message: String,
    pub main_tab: TopTab,
    pub sidebar_tab: SidebarTab,
    pub filter_text: String,
}

/// The commit message made of an AI suggestion: the subject alone when the
/// body is blank, else subject, a blank line and body.
pub open spec fn suggestion_message(s: CommitSuggestion) -> Seq<char> {
    if trimmed(s.body@).len() == 0 {
        s.subject@
    } else {
        s.subject@ + "\n\n"@ + s.body@
    }
}

/// The text the diff pane shows for the selection.
pub open spec fn diff_pane_text(repo: Option<RepoSnapshot>, selected: Option<String>) -> Seq<char> {
    match repo {
        None => "Open a repository to inspect diffs."@,
        Some(snap) => match selected {
            None => "Select a file from the changes list."@,
            Some(sel) => match find_diff(snap.diffs@, sel@) {
                Some(d) => if d.is_binary {
                    "Binary file changed."@
                } else if trimmed(d.diff@).len() == 0 {
                    "No diff text available."@
                } else {
                    d.diff@
                },
                None => "No diff available for this file."@,
            },
        },
    }
}

impl RustTopApp {
    /// Only the error message changed, and it reads `error`.
    pub open spec fn shows_error(self, new: Self, error: Seq<char>) -> bool {
        &&& new == RustTopApp { error_message: new.error_message, ..self }
        &&& new.error_message@ == error
    }

    /// What adopting `loaded` does: the snapshot becomes the open repository,
    /// its first change is selected, the branch targets are reset and its
    /// identity is taken in.
    pub open spec fn adopted(self, new: Self, loaded: LoadedRepo) -> bool {
        let snap = loaded.snapshot;
        &&& new == RustTopApp {
            current_repo: new.current_repo,
            selected_change: new.selected_change,
            branch_target: new.branch_target,
            merge_target: new.merge_target,
            repo_identity: new.repo_identity,
            error_message: new.error_message,
            ..self
        }
        &&& new.current_repo == Some(snap)
        &&& opt_str(new.selected_change) == first_change_path(snap.changes@)
        &&& new.branch_target@ == snap.repo.current_branch@
        &&& new.merge_target@ == merge_candidate(snap.branches@)
        &&& identity_after(self.repo_identity, new.repo_identity, loaded.identity)
        &&& identity_error_after(self.error_message@, new.error_message@, loaded.identity)
    }

    /// The path of the open repository, as a sequence of characters.
    pub open spec fn spec_repo_path(self) -> Option<Seq<char>> {
        match self.current_repo {
            Some(s) => Some(s.repo.path@),
            None => None,
        }
    }

    /// The state at start: the loaded settings (or the defaults when loading
    /// failed) and the error of loading them, on the workspace page with the
    /// change list shown.
    pub fn new(settings: AppSettings, error_message: String) -> (res: Self)
        ensures
            res.settings == settings,
            res.error_message == error_message,
            res.status_message@ == "Open a repository to get started."@,
            res.current_repo is None,
            res.repo_identity.is_unset(),
            res.selected_recent_repo is None,
            res.selected_change is None,
            res.branch_target@.len() == 0,
            res.merge_target@.len() == 0,
            res.commit_message@.len() == 0,
            res.ai_preview is None,
            res.main_tab == TopTab::Workspace,
            res.sidebar_tab == SidebarTab::Changes,
            res.filter_text@.len() == 0,
    {
        RustTopApp {
            settings,
            current_repo: None,
            repo_identity: GitIdentity::unset(),
            selected_recent_repo: None,
            selected_change: None,
            branch_target: String::new(),
            merge_target: String::new(),
            commit_message: String::new(),
            ai_preview: None,
            status_message: String::from_str("Open a repository to get started."),
            error_message,
            main_tab: TopTab::Workspace,
            sidebar_tab: SidebarTab::Changes,
            filter_text: String::new(),
        }
    }

    /// The path of the open repository.
    pub fn repo_path(&self) -> (res: Option<&String>)
        ensures
            opt_str(match res { Some(p) => Some(*p), None => None }) == self.spec_repo_path(),
    {
        match &self.current_repo {
            Some(snapshot) => Some(&snapshot.repo.path),
            None => None,
        }
    }

    /// Takes in the result of reading the repository's Git identity: the
    /// identity as read, or the unset identity and an error.
    pub fn load_identity(&mut self, read: Result<GitIdentity, String>)
        ensures
            *final(self) == (RustTopApp {
                repo_identity: final(self).repo_identity,
                error_message: final(self).error_message,
                ..*old(self)
            }),
            identity_after(old(self).repo_identity, final(self).repo_identity, read),
            identity_error_after(old(self).error_message@, final(self).error_message@, read),
    {
        match read {
            Ok(identity) => {
                self.repo_identity = identity;
            },
            Err(err) => {
                self.repo_identity = GitIdentity::unset();
                self.error_message = concat2("Could not load git config: ", err.as_str());
            },
        }
    }

    /// Makes a loaded snapshot the open repository.
    pub fn adopt_snapshot(&mut self, loaded: LoadedRepo)
        ensures
            old(self).adopted(*final(self), loaded),
    {
        let LoadedRepo { snapshot, identity } = loaded;
        self.selected_change = if snapshot.changes.len() > 0 {
            Some(snapshot.changes[0].path.clone())
        } else {
            None
        };
        self.branch_target = snapshot.repo.current_branch.clone();
        self.merge_target = crate::app::merge_candidate_exec(&snapshot.branches);
        self.load_identity(identity);
        self.current_repo = Some(snapshot);
    }

    /// Puts `path` first among the recent repositories and selects it. The
    /// window then saves the settings and reports with `persist_settings`.
    pub fn add_recent_repo(&mut self, path: String)
        ensures
            *final(self) == (RustTopApp {
                settings: final(self).settings,
                selected_recent_repo: Some(0),
                ..*old(self)
            }),
            path_views(final(self).settings.recent_repos@) == seq![path@] + without(
                path_views(old(self).settings.recent_repos@),
                path@,
            ),
            final(self).settings.ai == old(self).settings.ai,
    {
        push_recent_repo(&mut self.settings, path);
        self.selected_recent_repo = Some(0);
    }

    /// Takes in the result of saving the settings: a failure is shown.
    pub fn persist_settings(&mut self, saved: Result<(), String>)
        ensures
            match saved {
                Ok(_) => *final(self) == *old(self),
                Err(e) => old(self).shows_error(*final(self), "Failed to save settings: "@ + e@),
            },
    {
        match saved {
            Ok(()) => {},
            Err(err) => {
                self.error_message = concat2("Failed to save settings: ", err.as_str());
            },
        }
    }

    /// The recent repository picked in the list, if the pick is one of them.
    pub fn selected_recent_path(&self) -> (res: Option<String>)
        ensures
            match self.selected_recent_repo {
                Some(i) => if i < self.settings.recent_repos@.len() {
                    opt_str(res) == Some(self.settings.recent_repos@[i as int]@)
                } else {
                    res is None
                },
                None => res is None,
            },
    {
        match self.selected_recent_repo {
            Some(i) => {
                if i < self.settings.recent_repos.len() {
                    Some(self.settings.recent_repos[i].clone())
                } else {
                    None
                }
            },
            None => None,
        }
    }

    /// Takes in the result of saving the preferences: a failure is shown,
    /// and with no error on the line the status confirms the save.
    pub fn preferences_saved(&mut self, saved: Result<(), String>)
        ensures
            match saved {
                Ok(_) => if old(self).error_message@.len() == 0 {
                    &&& *final(self) == (RustTopApp { status_message: final(self).status_message, ..*old(self) })
                    &&& final(self).status_message@ == "App settings saved."@
                } else {
                    *final(self) == *old(self)
                },
                Err(e) => old(self).shows_error(*final(self), "Failed to save settings: "@ + e@),
            },
    {
        let failed = saved.is_err();
        self.persist_settings(saved);
        if !failed && self.error_message.as_str().is_empty() {
            self.status_message = String::from_str("App settings saved.");
        }
    }

    /// Takes in the result of opening the repository at `path`. On success the
    /// snapshot is adopted, `path` goes first among the recent repositories,
    /// and the result is true: the settings changed and are to be saved. The
    /// error line is cleared once the repository is loaded, so a failure to
    /// save them is not shown.
    pub fn open_repo(&mut self, path: String, opened: Result<LoadedRepo, String>) -> (save: bool)
        ensures
            save == opened is Ok,
            match opened {
                Ok(l) => {
                    &&& final(self).current_repo == Some(l.snapshot)
                    &&& opt_str(final(self).selected_change) == first_change_path(l.snapshot.changes@)
                    &&& final(self).branch_target@ == l.snapshot.repo.current_branch@
                    &&& final(self).merge_target@ == merge_candidate(l.snapshot.branches@)
                    &&& identity_after(old(self).repo_identity, final(self).repo_identity, l.identity)
                    &&& path_views(final(self).settings.recent_repos@) == seq![path@] + without(
                        path_views(old(self).settings.recent_repos@),
                        path@,
                    )
                    &&& final(self).settings.ai == old(self).settings.ai
                    &&& final(self).selected_recent_repo == Some(0usize)
                    &&& final(self).status_message@ == "Repository loaded."@
                    &&& final(self).error_message@.len() == 0
                    &&& final(self).commit_message == old(self).commit_message
                    &&& final(self).ai_preview == old(self).ai_preview
                    &&& final(self).main_tab == old(self).main_tab
                    &&& final(self).sidebar_tab == old(self).sidebar_tab
                    &&& final(self).filter_text == old(self).filter_text
                },
                Err(e) => old(self).shows_error(*final(self), "Failed to open repository: "@ + e@),
            },
    {
        match opened {
            Ok(loaded) => {
                self.adopt_snapshot(loaded);
                self.add_recent_repo(path);
                self.status_message = String::from_str("Repository loaded.");
                self.error_message = String::new();
                true
            },
            Err(err) => {
                self.error_message = concat2("Failed to open repository: ", err.as_str());
                false
            },
        }
    }

    /// Starts a refresh: the path to re-read, or none and an error when no
    /// repository is open.
    pub fn refresh_repo(&mut self) -> (req: Option<String>)
        ensures
            match old(self).spec_repo_path() {
                None => req is None && old(self).shows_error(*final(self), "No repository selected."@),
                Some(p) => opt_str(req) == Some(p) && *final(self) == *old(self),
            },
    {
        match &self.current_repo {
            Some(snapshot) => Some(snapshot.repo.path.clone()),
            None => {
                self.error_message = String::from_str("No repository selected.");
                None
            },
        }
    }

    /// Takes in the re-read repository.
    pub fn repo_refreshed(&mut self, refreshed: Result<LoadedRepo, String>)
        ensures
            match refreshed {
                Ok(l) => exists|mid: RustTopApp| {
                    &&& #[trigger] old(self).adopted(mid, l)
                    &&& *final(self) == (RustTopApp { status_message: final(self).status_message, error_message: final(self).error_message, ..mid })
                    &&& final(self).status_message@ == "Repository refreshed."@
                    &&& final(self).error_message@.len() == 0
                },
                Err(e) => old(self).shows_error(*final(self), "Refresh failed: "@ + e@),
            },
    {
        match refreshed {
            Ok(loaded) => {
                self.adopt_snapshot(loaded);
                let ghost mid = *self;
                self.status_message = String::from_str("Repository refreshed.");
                self.error_message = String::new();
                assert(old(self).adopted(mid, loaded));
            },
            Err(err) => {
                self.error_message = concat2("Refresh failed: ", err.as_str());
            },
        }
    }

    /// Starts a checkout: the path and the trimmed branch target, or none and
    /// an error when no repository is open or no branch is chosen.
    pub fn switch_branch(&mut self) -> (req: Option<(String, String)>)
        ensures
            match old(self).spec_repo_path() {
                None => req is None && old(self).shows_error(*final(self), "No repository selected."@),
                Some(p) => if trimmed(old(self).branch_target@).len() == 0 {
                    req is None && old(self).shows_error(*final(self), "Choose a branch first."@)
                } else {
                    &&& req matches Some((rp, t)) && rp@ == p && t@ == trimmed(old(self).branch_target@)
                    &&& *final(self) == *old(self)
                },
            },
    {
        let path = match &self.current_repo {
            Some(snapshot) => snapshot.repo.path.clone(),
            None => {
                self.error_message = String::from_str("No repository selected.");
                return None;
            },
        };
        let target = trim_string(self.branch_target.as_str());
        if target.as_str().is_empty() {
            self.error_message = String::from_str("Choose a branch first.");
            return None;
        }
        Some((path, target))
    }

    /// Takes in the snapshot after a checkout. The status names the branch
    /// target as adopting the snapshot reset it: its current branch.
    pub fn branch_switched(&mut self, switched: Result<LoadedRepo, String>)
        ensures
            match switched {
                Ok(l) => exists|mid: RustTopApp| {
                    &&& #[trigger] old(self).adopted(mid, l)
                    &&& *final(self) == (RustTopApp { status_message: final(self).status_message, error_message: final(self).error_message, ..mid })
                    &&& final(self).status_message@ == "Switched to branch '"@ + trimmed(l.snapshot.repo.current_branch@) + "'."@
                    &&& final(self).error_message@.len() == 0
                },
                Err(e) => old(self).shows_error(*final(self), "Branch switch failed: "@ + e@),
            },
    {
        match switched {
            Ok(loaded) => {
                self.adopt_snapshot(loaded);
                let ghost mid = *self;
                let target = trim_string(self.branch_target.as_str());
                self.status_message = concat3("Switched to branch '", target.as_str(), "'.");
                self.error_message = String::new();
                assert(old(self).adopted(mid, loaded));
            },
            Err(err) => {
                self.error_message = concat2("Branch switch failed: ", err.as_str());
            },
        }
    }

    /// Starts a merge: the path and the trimmed merge source, or none and an
    /// error when no repository is open or no source is chosen.
    pub fn merge_branch(&mut self) -> (req: Option<(String, String)>)
        ensures
            match old(self).spec_repo_path() {
                None => req is None && old(self).shows_error(*final(self), "No repository selected."@),
                Some(p) => if trimmed(old(self).merge_target@).len() == 0 {
                    req is None && old(self).shows_error(*final(self), "Choose a branch to merge."@)
                } else {
                    &&& req matches Some((rp, t)) && rp@ == p && t@ == trimmed(old(self).merge_target@)
                    &&& *final(self) == *old(self)
                },
            },
    {
        let path = match &self.current_repo {
            Some(snapshot) => snapshot.repo.path.clone(),
            None => {
                self.error_message = String::from_str("No repository selected.");
                return None;
            },
        };
        let target = trim_string(self.merge_target.as_str());
        if target.as_str().is_empty() {
            self.error_message = String::from_str("Choose a branch to merge.");
            return None;
        }
        Some((path, target))
    }

    /// Takes in the snapshot after a merge. The status names the merge source
    /// as adopting the snapshot reset it: the first local branch other than
    /// the current one.
    pub fn branch_merged(&mut self, merged: Result<LoadedRepo, String>)
        ensures
            match merged {
                Ok(l) => exists|mid: RustTopApp| {
                    &&& #[trigger] old(self).adopted(mid, l)
                    &&& *final(self) == (RustTopApp { status_message: final(self).status_message, error_message: final(self).error_message, ..mid })
                    &&& final(self).status_message@ == "Merged '"@ + trimmed(merge_candidate(l.snapshot.branches@)) + "'."@
                    &&& final(self).error_message@.len() == 0
                },
                Err(e) => old(self).shows_error(*final(self), "Merge failed: "@ + e@),
            },
    {
        match merged {
            Ok(loaded) => {
                self.adopt_snapshot(loaded);
                let ghost mid = *self;
                let target = trim_string(self.merge_target.as_str());
                self.status_message = concat3("Merged '", target.as_str(), "'.");
                self.error_message = String::new();
                assert(old(self).adopted(mid, loaded));
            },
            Err(err) => {
                self.error_message = concat2("Merge failed: ", err.as_str());
            },
        }
    }

    /// Starts a commit of all changes: the path and the trimmed message, or
    /// none and an error when no repository is open or the message is blank.
    pub fn commit_all(&mut self) -> (req: Option<(String, String)>)
        ensures
            match old(self).spec_repo_path() {
                None => req is None && old(self).shows_error(*final(self), "No repository selected."@),
                Some(p) => if trimmed(old(self).commit_message@).len() == 0 {
                    req is None && old(self).shows_error(*final(self), "Commit message cannot be empty."@)
                } else {
                    &&& req matches Some((rp, m)) && rp@ == p && m@ == trimmed(old(self).commit_message@)
                    &&& *final(self) == *old(self)
                },
            },
    {
        let path = match &self.current_repo {
            Some(snapshot) => snapshot.repo.path.clone(),
            None => {
                self.error_message = String::from_str("No repository selected.");
                return None;
            },
        };
        let message = trim_string(self.commit_message.as_str());
        if message.as_str().is_empty() {
            self.error_message = String::from_str("Commit message cannot be empty.");
            return None;
        }
        Some((path, message))
    }

    /// Takes in the snapshot after a commit: the message and the AI preview
    /// are cleared.
    pub fn commit_created(&mut self, committed: Result<LoadedRepo, String>)
        ensures
            match committed {
                Ok(l) => exists|mid: RustTopApp| {
                    &&& #[trigger] old(self).adopted(mid, l)
                    &&& *final(self) == (RustTopApp {
                        commit_message: final(self).commit_message,
                        ai_preview: None,
                        status_message: final(self).status_message,
                        error_message: final(self).error_message,
                        ..mid
                    })
                    &&& final(self).commit_message@.len() == 0
                    &&& final(self).status_message@ == "Commit created."@
                    &&& final(self).error_message@.len() == 0
                },
                Err(e) => old(self).shows_error(*final(self), "Commit failed: "@ + e@),
            },
    {
        match committed {
            Ok(loaded) => {
                self.adopt_snapshot(loaded);
                let ghost mid = *self;
                self.commit_message = String::new();
                self.ai_preview = None;
                self.status_message = String::from_str("Commit created.");
                self.error_message = String::new();
                assert(old(self).adopted(mid, loaded));
            },
            Err(err) => {
                self.error_message = concat2("Commit failed: ", err.as_str());
            },
        }
    }

    /// Starts an AI commit suggestion: the AI settings and the text diffs of
    /// the open repository, or none and an error when no repository is open
    /// or there is no text diff.
    pub fn generate_ai_commit(&mut self) -> (req: Option<(AiSettings, String)>)
        ensures
            match old(self).current_repo {
                None => req is None && old(self).shows_error(
                    *final(self),
                    "Open a repository before generating a commit message."@,
                ),
                Some(snap) => if trimmed(ai_diff_text(snap.diffs@)).len() == 0 {
                    req is None && old(self).shows_error(
                        *final(self),
                        "No text diff available for AI commit generation."@,
                    )
                } else {
                    &&& req matches Some((st, d)) && st == old(self).settings.ai && d@ == ai_diff_text(snap.diffs@)
                    &&& *final(self) == *old(self)
                },
            },
    {
        let diff = match &self.current_repo {
            Some(snapshot) => build_ai_diff(&snapshot.diffs),
            None => {
                self.error_message = String::from_str(
                    "Open a repository before generating a commit message.",
                );
                return None;
            },
        };
        if is_blank_str(diff.as_str()) {
            self.error_message = String::from_str("No text diff available for AI commit generation.");
            return None;
        }
        Some((self.settings.ai.clone(), diff))
    }

    /// Takes in the AI suggestion: it becomes the commit message and the preview.
    pub fn ai_commit_generated(&mut self, generated: Result<CommitSuggestion, String>)
        ensures
            match generated {
                Ok(s) => {
                    &&& *final(self) == (RustTopApp {
                        commit_message: final(self).commit_message,
                        ai_preview: Some(s),
                        status_message: final(self).status_message,
                        error_message: final(self).error_message,
                        ..*old(self)
                    })
                    &&& final(self).commit_message@ == suggestion_message(s)
                    &&& final(self).status_message@ == "Generated commit suggestion."@
                    &&& final(self).error_message@.len() == 0
                },
                Err(e) => old(self).shows_error(*final(self), "AI generation failed: "@ + e@),
            },
    {
        match generated {
            Ok(suggestion) => {
                self.commit_message = if is_blank_str(suggestion.body.as_str()) {
                    suggestion.subject.clone()
                } else {
                    concat3(suggestion.subject.as_str(), "\n\n", suggestion.body.as_str())
                };
                self.ai_preview = Some(suggestion);
                self.status_message = String::from_str("Generated commit suggestion.");
                self.error_message = String::new();
            },
            Err(err) => {
                self.error_message = concat2("AI generation failed: ", err.as_str());
            },
        }
    }

    /// Starts writing the identity: the path and the identity to write, or
    /// none and an error when no repository is open.
    pub fn save_git_config(&mut self) -> (req: Option<(String, GitIdentity)>)
        ensures
            match old(self).spec_repo_path() {
                None => req is None && old(self).shows_error(*final(self), "No repository selected."@),
                Some(p) => {
                    &&& req matches Some((rp, id)) && rp@ == p && id == old(self).repo_identity
                    &&& *final(self) == *old(self)
                },
            },
    {
        match &self.current_repo {
            Some(snapshot) => Some((snapshot.repo.path.clone(), self.repo_identity.clone())),
            None => {
                self.error_message = String::from_str("No repository selected.");
                None
            },
        }
    }

    /// Takes in the result of writing the identity.
    pub fn git_config_saved(&mut self, saved: Result<(), String>)
        ensures
            match saved {
                Ok(_) => {
                    &&& *final(self) == (RustTopApp {
                        status_message: final(self).status_message,
                        error_message: final(self).error_message,
                        ..*old(self)
                    })
                    &&& final(self).status_message@ == "Git config saved."@
                    &&& final(self).error_message@.len() == 0
                },
                Err(e) => old(self).shows_error(*final(self), "Failed to save git config: "@ + e@),
            },
    {
        match saved {
            Ok(()) => {
                self.status_message = String::from_str("Git config saved.");
                self.error_message = String::new();
            },
            Err(err) => {
                self.error_message = concat2("Failed to save git config: ", err.as_str());
            },
        }
    }

    /// The text of the diff pane.
    pub fn selected_diff_text(&self) -> (res: String)
        ensures
            res@ == diff_pane_text(self.current_repo, self.selected_change),
    {
        let snapshot = match &self.current_repo {
            Some(s) => s,
            None => {
                return String::from_str("Open a repository to inspect diffs.");
            },
        };
        let selected = match &self.selected_change {
            Some(s) => s,
            None => {
                return String::from_str("Select a file from the changes list.");
            },
        };
        match find_diff_exec(&snapshot.diffs, selected) {
            Some(d) => {
                if d.is_binary {
                    String::from_str("Binary file changed.")
                } else if is_blank_str(d.diff.as_str()) {
                    String::from_str("No diff text available.")
                } else {
                    d.diff.clone()
                }
            },
            None => String::from_str("No diff available for this file."),
        }
    }
}

/// The texts of the top bar: the repository, the branch, and the fetch
/// button with the ahead and behind counts when a repository is open.
pub struct TopBarTexts {
    pub repo_name: String,
    pub branch_name: String,
    pub fetch_label: Option<String>,
}

/// The shading of a row of the change list.
#[derive(Clone, Copy, PartialEq, Eq, Structural, Debug)]
pub enum RowFill {
    Selected,
    Even,
    Odd,
}

/// Selected rows stand out; the others alternate.
pub fn change_row_fill(selected: bool, index: usize) -> (res: RowFill)
    ensures
        res == (if selected {
            RowFill::Selected
        } else if index % 2 == 0 {
            RowFill::Even
        } else {
            RowFill::Odd
        }),
{
    if selected {
        RowFill::Selected
    } else if index % 2 == 0 {
        RowFill::Even
    } else {
        RowFill::Odd
    }
}

impl RustTopApp {
    /// Works out the texts of the top bar.
    pub fn top_bar_texts(&self) -> (res: TopBarTexts)
        ensures
            res.repo_name@ == (match self.current_repo {
                Some(s) => s.repo.name@,
                None => "Choose repository"@,
            }),
            res.branch_name@ == (match self.current_repo {
                Some(s) => s.repo.current_branch@,
                None => "No branch"@,
            }),
            match self.current_repo {
                Some(s) => res.fetch_label matches Some(l) && l@ == "Fetch origin ("@ + decimal(s.repo.ahead as nat)
                    + "↑ "@ + decimal(s.repo.behind as nat) + "↓)"@,
                None => res.fetch_label is None,
            },
    {
        match &self.current_repo {
            Some(s) => {
                let ahead = decimal_string(s.repo.ahead);
                let behind = decimal_string(s.repo.behind);
                let mut label = concat3("Fetch origin (", ahead.as_str(), "↑ ");
                label.append(behind.as_str());
                label.append("↓)");
                TopBarTexts {
                    repo_name: s.repo.name.clone(),
                    branch_name: s.repo.current_branch.clone(),
                    fetch_label: Some(label),
                }
            },
            None => TopBarTexts {
                repo_name: String::from_str("Choose repository"),
                branch_name: String::from_str("No branch"),
                fetch_label: None,
            },
        }
    }

    /// "N changed files" for the open repository's changes.
    pub fn changes_header_label(&self) -> (res: String)
        ensures
            res@ == decimal((match self.current_repo {
                Some(s) => s.changes@.len(),
                None => 0,
            }) as nat) + " changed files"@,
    {
        let count = match &self.current_repo {
            Some(s) => s.changes.len(),
            None => 0,
        };
        crate::labels::changed_files_label(count)
    }

    /// The path above the diff pane, or a hint when no file is selected.
    pub fn diff_header_text(&self) -> (res: String)
        ensures
            res@ == (match self.selected_change {
                Some(p) => p@,
                None => "Select a file from the left panel"@,
            }),
    {
        match &self.selected_change {
            Some(p) => p.clone(),
            None => String::from_str("Select a file from the left panel"),
        }
    }

    /// The text of the recent-repositories picker: a note when there are
    /// none, else the picked path or a prompt.
    pub fn recent_picker_text(&self) -> (res: String)
        ensures
            res@ == (if self.settings.recent_repos@.len() == 0 {
                "No recent repositories yet."@
            } else {
                match self.selected_recent_repo {
                    Some(i) if i < self.settings.recent_repos@.len() => self.settings.recent_repos@[i as int]@,
                    _ => "Choose recent repo"@,
                }
            }),
    {
        if self.settings.recent_repos.len() == 0 {
            return String::from_str("No recent repositories yet.");
        }
        match self.selected_recent_path() {
            Some(p) => p,
            None => String::from_str("Choose recent repo"),
        }
    }

    /// The label of the commit button: "Commit changes to " and the current
    /// branch, or "branch" without a repository.
    pub fn commit_button_label(&self) -> (res: String)
        ensures
            res@ == "Commit changes to "@ + (match self.current_repo {
                Some(s) => s.repo.current_branch@,
                None => "branch"@,
            }),
    {
        match &self.current_repo {
            Some(s) => concat2("Commit changes to ", s.repo.current_branch.as_str()),
            None => concat2("Commit changes to ", "branch"),
        }
    }

    /// "AI: " and the subject of the AI preview, when there is one.
    pub fn ai_preview_label(&self) -> (res: Option<String>)
        ensures
            match self.ai_preview {
                Some(p) => res matches Some(l) && l@ == "AI: "@ + p.subject@,
                None => res is None,
            },
    {
        match &self.ai_preview {
            Some(p) => Some(concat2("AI: ", p.subject.as_str())),
            None => None,
        }
    }
}

/// The first line of `s` as `str::lines` yields it: the text before the
/// first `'\n'`, without a trailing `'\r'`.
pub open spec fn first_line(s: Seq<char>) -> Seq<char> {
    match first_occurrence(s, seq!['\n']) {
        Some(i) => strip_cr(s.take(i)),
        None => s,
    }
}

/// A commit message with a description, rewritten as its first line, a
/// blank line, and all that follows its first blank line; a message without
/// a description stays as it is.
pub open spec fn body_normalized(m: Seq<char>) -> Seq<char> {
    match first_occurrence(m, seq!['\n', '\n']) {
        Some(k) => first_line(m) + "\n\n"@ + m.skip(k + 2),
        None => m,
    }
}

/// Rewrites a commit message with a description as summary line, blank line
/// and description, and hands it back for editing.
pub fn commit_body_mut(commit_message: &mut String) -> (res: &mut String)
    ensures
        res@ == body_normalized(old(commit_message)@),
        *final(commit_message) == *final(res),
{
    let chars = chars_of(commit_message.as_str());
    let sep: Vec<char> = vec!['\n', '\n'];
    let nl: Vec<char> = vec!['\n'];
    proof {
        assert(sep@ =~= seq!['\n', '\n']);
        assert(nl@ =~= seq!['\n']);
    }
    match find_chars(chars.as_slice(), sep.as_slice()) {
        Some(k) => {
            proof {
                lemma_first_occurrence_is(chars@, sep@, k as int);
                assert(sep@.len() == 2);
                assert(k + 2 <= chars@.len());
                assert(chars@.subrange(k as int, k + 1) =~= nl@);
                assert(occurs_at(chars@, nl@, k as int));
            }
            let j = match find_chars(chars.as_slice(), nl.as_slice()) {
                Some(j) => j,
                None => k,
            };
            proof {
                lemma_first_occurrence_is(chars@, nl@, j as int);
            }
            let end = if j > 0 && chars[j - 1] == '\r' {
                j - 1
            } else {
                j
            };
            let first = string_of(&chars.as_slice()[0..end]);
            proof {
                assert(chars@.subrange(0, end as int) =~= strip_cr(chars@.take(j as int)));
            }
            let n = chars.len();
            let body = string_of(&chars.as_slice()[k + 2..n]);
            proof {
                assert(chars@.subrange(0, j as int) =~= chars@.take(j as int));
                assert(chars@.subrange(k + 2, chars@.len() as int) =~= chars@.skip(k + 2));
            }
            *commit_message = concat3(first.as_str(), "\n\n", body.as_str());
        },
        None => {},
    }
    commit_message
}

} // verus!
