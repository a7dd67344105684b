//! The decisions of the GitSpark window: how each user action and each
//! finished background job changes the interface state, and which outside
//! work (Git, AI, files, clipboard) the shell has to carry out next.
use vstd::prelude::*;

use crate::paths::{path_answer, same_path};
use crate::domain_state::{CommitState, NetworkAction, NetworkState, RepoState, SelectionState};
use crate::models::{
    AiProvider, AiSettings, AppSettings, BranchInfo, ChangeEntry, CommitInfo, CommitSuggestion,
    DiffEntry, GitIdentity, RemoteModelOption, RepoSnapshot,
};
use crate::text::{
    concat2, concat3, concat4, is_blank_str, replace_char, replace_char_exec, trim_string, trimmed,
};
use crate::text_edit::{
    apply_key, bytes_of, cursor_ok, edit_after_key, law_backspace_undoes_typing, law_single_line_stays_single, lemma_boundary_ends,
    opt_chars, typed_len,
    KeyInput,
};
use crate::ui_state::{FilterState, MessageState, NavState, OpenRouterModelsState, SettingsSection, SidebarTab};

verus! {

/// The text, if any, as a character sequence.
pub open spec fn opt_str(s: Option<String>) -> Option<Seq<char>> {
    match s {
        Some(v) => Some(v@),
        None => None,
    }
}

/// Why a refresh of the repository was asked for.
#[derive(Clone, Copy, PartialEq, Eq, Structural)]
pub enum RepoRefreshReason {
    Manual,
    Focus,
    Watch,
}

/// A repository snapshot together with the result of reading its Git identity.
pub struct LoadedRepo {
    pub snapshot: RepoSnapshot,
    pub identity: Result<GitIdentity, String>,
}

/// A finished background job.
pub enum AppEvent {
    RepoLoaded(Result<LoadedRepo, String>),
    RepoRefreshed(String, Result<LoadedRepo, String>, RepoRefreshReason),
    BranchSwitched(Result<LoadedRepo, String>, String),
    BranchMerged(Result<LoadedRepo, String>, String),
    CommitCreated(Result<LoadedRepo, String>),
    NetworkActionCompleted(Result<LoadedRepo, String>, String),
    AiCommitGenerated(Result<CommitSuggestion, String>),
    OpenRouterModelsLoaded(Result<Vec<RemoteModelOption>, String>),
    CommitDiffLoaded(String, Result<Vec<DiffEntry>, String>),
}

/// Outside work that the shell carries out after a decision.
pub enum AppEffect {
    /// Open the repository at `path` in the background; answer with `RepoLoaded`.
    LoadRepo { path: String },
    /// Re-read the repository in the background; answer with `RepoRefreshed`.
    RefreshRepo { path: String, reason: RepoRefreshReason },
    /// Stop the file watcher of the previous repository.
    StopRepoWatch,
    /// Start watching `path` for changes. The watcher runs while the app's
    /// watch generation equals `token`; a later watch or stop moves the
    /// generation on and so ends it.
    WatchRepo { path: String, token: u64 },
    /// Run fetch, pull or push in the background; answer with `NetworkActionCompleted`.
    RunNetworkAction { path: String, action: NetworkAction, label: String },
    /// Check out `target`; answer with `BranchSwitched`.
    SwitchBranch { path: String, target: String },
    /// Merge `target` into the current branch; answer with `BranchMerged`.
    MergeBranch { path: String, target: String },
    /// Commit all changes with `message`; answer with `CommitCreated`.
    CommitAll { path: String, message: String },
    /// Ask the AI backend for a commit message; answer with `AiCommitGenerated`.
    GenerateAiCommit { settings: AiSettings, diff: String },
    /// Fetch the OpenRouter catalogue; answer with `OpenRouterModelsLoaded`.
    FetchOpenRouterModels,
    /// Load the diff of commit `oid`; answer with `CommitDiffLoaded`.
    LoadCommitDiff { path: String, oid: String },
    /// Save the settings now and report with `settings_saved`.
    SaveSettings { confirm: bool },
    /// Write the repository identity now and report with `identity_saved`.
    WriteIdentity { path: String },
    /// Discard the changes of a file now and report with `change_discarded`.
    DiscardChange { repo: String, relative: String },
    /// Append a pattern to `.gitignore` now and report with `ignore_added`.
    AppendGitignore { repo: String, pattern: String, shown: String },
    /// Put the absolute path of a file on the clipboard.
    CopyFullPath { repo: String, relative: String },
    /// Put a text on the clipboard.
    CopyText { text: String },
    /// Show a file in the file manager and report with `revealed`.
    RevealInFinder { repo: String, relative: String },
    /// Open a file in the configured editor and report with `opened_in_editor`.
    OpenInEditor { repo: String, relative: String },
    /// Open a file with its default program and report with `opened_with_default`.
    OpenWithDefault { repo: String, relative: String },
    /// Ask the user for a folder and open it with `open_repo`.
    OpenRepoDialog,
}

/// The interface state of the GitSpark window.
pub struct GitSparkApp {
    pub settings: AppSettings,
    pub repo: RepoState,
    pub commit: CommitState,
    pub network: NetworkState,
    pub selection: SelectionState,
    pub nav: NavState,
    pub filters: FilterState,
    pub messages: MessageState,
    pub watched_repo_path: Option<String>,
    pub repo_watch_generation: u64,
    pub summary_cursor: usize,
    pub description_cursor: usize,
}

/// The path of the open repository, if any.
pub open spec fn repo_path_of(snapshot: Option<RepoSnapshot>) -> Option<Seq<char>> {
    match snapshot {
        Some(s) => Some(s.repo.path@),
        None => None,
    }
}

/// The path of the first changed file, if any.
pub open spec fn first_change_path(changes: Seq<ChangeEntry>) -> Option<Seq<char>> {
    if changes.len() > 0 {
        Some(changes[0].path@)
    } else {
        None
    }
}

/// The name of the first local branch other than the current one, or nothing.
pub open spec fn merge_candidate(branches: Seq<BranchInfo>) -> Seq<char>
    decreases branches.len(),
{
    if branches.len() == 0 {
        Seq::<char>::empty()
    } else if !branches[0].is_current && !branches[0].is_remote {
        branches[0].name@
    } else {
        merge_candidate(branches.drop_first())
    }
}

/// True when the history holds a commit with this id.
pub open spec fn history_has(history: Seq<CommitInfo>, oid: Seq<char>) -> bool {
    exists|i: int| 0 <= i < history.len() && (#[trigger] history[i]).oid@ == oid
}

/// The commit to select after a new snapshot: the previous one when it is
/// still in the history, else the newest commit.
pub open spec fn next_selected_commit(previous: Option<Seq<char>>, history: Seq<CommitInfo>) -> Option<Seq<char>> {
    match previous {
        Some(o) if history_has(history, o) => Some(o),
        _ => if history.len() > 0 {
            Some(history[0].oid@)
        } else {
            None
        },
    }
}

/// The identity after reading it: as read, or unset when reading failed.
pub open spec fn identity_after(old: GitIdentity, new: GitIdentity, read: Result<GitIdentity, String>) -> bool {
    match read {
        Ok(id) => new == id,
        Err(_) => new.is_unset(),
    }
}

/// The error message after reading the identity.
pub open spec fn identity_error_after(old: Seq<char>, new: Seq<char>, read: Result<GitIdentity, String>) -> bool {
    match read {
        Ok(_) => new == old,
        Err(e) => new == "Could not load git config: "@ + e@,
    }
}

/// True when the effect is `WatchRepo` for `path` with `token`.
pub open spec fn is_watch(e: AppEffect, path: Seq<char>, token: u64) -> bool {
    e matches AppEffect::WatchRepo { path: p, token: t } && p@ == path && t == token
}

/// The watch generation after `g`: one more, wrapping round at the top.
pub open spec fn next_generation(g: u64) -> u64 {
    if g == u64::MAX {
        0
    } else {
        (g + 1) as u64
    }
}

/// True when the watcher started with `token` still runs.
pub open spec fn watcher_runs(app: GitSparkApp, token: u64) -> bool {
    app.repo_watch_generation == token
}

/// What comparing the watched path with `path` as paths answers
/// (`already`): no watched path is no match.
pub open spec fn watch_answer(watched: Option<String>, path: Seq<char>, already: bool) -> bool {
    match watched {
        Some(w) => path_answer(w@, path, already),
        None => !already,
    }
}

/// What comparing the open repository's path with `path` as paths answers
/// (`applies`): no open repository is no match.
pub open spec fn refresh_answer(snapshot: Option<RepoSnapshot>, path: Seq<char>, applies: bool) -> bool {
    match repo_path_of(snapshot) {
        Some(p) => path_answer(p, path, applies),
        None => !applies,
    }
}

/// True when the effect is `LoadCommitDiff` of `oid` in `path`.
pub open spec fn is_load_commit_diff(e: AppEffect, path: Seq<char>, oid: Seq<char>) -> bool {
    e matches AppEffect::LoadCommitDiff { path: p, oid: o } && p@ == path && o@ == oid
}

/// The effects of adopting a snapshot: start watching its path with `token`
/// unless the watcher is `already` on it, then load the diff of the selected
/// commit.
pub open spec fn adopt_effects(
    already: bool,
    path: Seq<char>,
    token: u64,
    next: Option<Seq<char>>,
    effects: Seq<AppEffect>,
) -> bool {
    let w: int = if already { 0 } else { 1 };
    let l: int = if next is Some { 1 } else { 0 };
    &&& effects.len() == w + l
    &&& w == 1 ==> is_watch(effects[0], path, token)
    &&& next matches Some(o) ==> is_load_commit_diff(effects[w], path, o)
}

impl GitSparkApp {
    /// What adopting `loaded` does to the repository, selection and watcher
    /// state, and the effects it asks for.
    pub open spec fn adopted_core(self, new: Self, loaded: LoadedRepo, effects: Seq<AppEffect>) -> bool {
        let snap = loaded.snapshot;
        let path = snap.repo.path@;
        let next = next_selected_commit(opt_str(self.selection.selected_commit), snap.history@);
        &&& new.repo.snapshot == Some(snap)
        &&& opt_str(new.selection.selected_change) == first_change_path(snap.changes@)
        &&& new.repo.branch_target@ == snap.repo.current_branch@
        &&& new.repo.merge_target@ == merge_candidate(snap.branches@)
        &&& identity_after(self.repo.identity, new.repo.identity, loaded.identity)
        &&& opt_str(new.selection.selected_commit) == next
        &&& new.selection.selected_commit_file is None
        &&& new.selection.commit_diffs is None
        &&& self.watch_any(new, path, next, effects)
        &&& new.settings == self.settings
        &&& new.nav == self.nav
        &&& new.filters == self.filters
    }

    /// The watcher after adopting a snapshot at `path`: when the watched path
    /// is `already` the same path, nothing changes; else the path is watched
    /// under the next generation, which ends the earlier watcher.
    pub open spec fn watch_step(
        self,
        new: Self,
        path: Seq<char>,
        next: Option<Seq<char>>,
        effects: Seq<AppEffect>,
        already: bool,
    ) -> bool {
        &&& already ==> new.watched_repo_path == self.watched_repo_path
        &&& !already ==> opt_str(new.watched_repo_path) == Some(path)
        &&& new.repo_watch_generation == (if already {
            self.repo_watch_generation
        } else {
            next_generation(self.repo_watch_generation)
        })
        &&& adopt_effects(already, path, new.repo_watch_generation, next, effects)
    }

    /// The watcher after adopting a snapshot at `path`, whichever way
    /// comparing it with the watched path as paths came out.
    pub open spec fn watch_any(self, new: Self, path: Seq<char>, next: Option<Seq<char>>, effects: Seq<AppEffect>) -> bool {
        exists|already: bool| #[trigger] watch_answer(self.watched_repo_path, path, already) && self.watch_step(new, path, next, effects, already)
    }

    /// What adopting `loaded` does to the state, and the effects it asks for.
    pub open spec fn adopted(self, new: Self, loaded: LoadedRepo, effects: Seq<AppEffect>) -> bool {
        &&& self.adopted_core(new, loaded, effects)
        &&& identity_error_after(self.messages.error_message@, new.messages.error_message@, loaded.identity)
        &&& new.messages.status_message == self.messages.status_message
        &&& new.commit == self.commit
        &&& new.network == self.network
        &&& new.summary_cursor == self.summary_cursor
        &&& new.description_cursor == self.description_cursor
    }

    /// Takes in the result of reading the repository's Git identity.
    pub fn load_identity(&mut self, read: Result<GitIdentity, String>)
        ensures
            identity_after(old(self).repo.identity, final(self).repo.identity, read),
            identity_error_after(old(self).messages.error_message@, final(self).messages.error_message@, read),
            final(self).messages.status_message == old(self).messages.status_message,
            final(self).repo.snapshot == old(self).repo.snapshot,
            final(self).repo.branch_target == old(self).repo.branch_target,
            final(self).repo.merge_target == old(self).repo.merge_target,
            final(self).settings == old(self).settings,
            final(self).commit == old(self).commit,
            final(self).network == old(self).network,
            final(self).selection == old(self).selection,
            final(self).nav == old(self).nav,
            final(self).filters == old(self).filters,
            final(self).watched_repo_path == old(self).watched_repo_path,
            final(self).repo_watch_generation == old(self).repo_watch_generation,
            final(self).summary_cursor == old(self).summary_cursor,
            final(self).description_cursor == old(self).description_cursor,
    {
        match read {
            Ok(identity) => {
                self.repo.identity = identity;
            },
            Err(err) => {
                self.repo.identity = GitIdentity::unset();
                self.messages.error_message = concat2("Could not load git config: ", err.as_str());
            },
        }
    }
}

/// Finds the branch to offer as merge source.
pub fn merge_candidate_exec(branches: &Vec<BranchInfo>) -> (res: String)
    ensures
        res@ == merge_candidate(branches@),
{
    let mut i: usize = 0;
    assert(branches@.skip(0) =~= branches@);
    while i < branches.len()
        invariant
            i <= branches@.len(),
            merge_candidate(branches@) == merge_candidate(branches@.skip(i as int)),
        decreases branches@.len() - i,
    {
        assert(branches@.skip(i as int)[0] == branches@[i as int]);
        assert(branches@.skip(i as int).drop_first() =~= branches@.skip(i + 1));
        if !branches[i].is_current && !branches[i].is_remote {
            return branches[i].name.clone();
        }
        i = i + 1;
    }
    assert(branches@.skip(i as int) =~= Seq::<BranchInfo>::empty());
    String::new()
}

/// Tests whether the history holds a commit with this id.
fn history_has_exec(history: &Vec<CommitInfo>, oid: &String) -> (res: bool)
    ensures
        res == history_has(history@, oid@),
{
    let mut i: usize = 0;
    while i < history.len()
        invariant
            i <= history@.len(),
            forall|j: int| 0 <= j < i ==> (#[trigger] history@[j]).oid@ != oid@,
        decreases history@.len() - i,
    {
        if history[i].oid == *oid {
            return true;
        }
        i = i + 1;
    }
    false
}

impl GitSparkApp {
    /// The path of the open repository.
    pub fn repo_path(&self) -> (res: Option<&String>)
        ensures
            opt_str(match res { Some(p) => Some(*p), None => None }) == repo_path_of(self.repo.snapshot),
    {
        match &self.repo.snapshot {
            Some(snapshot) => Some(&snapshot.repo.path),
            None => None,
        }
    }

    /// Makes `loaded` the open repository: selects its first change, resets the
    /// branch targets, takes in its identity, watches its path, and keeps the
    /// selected commit when it is still in the history.
    pub fn adopt_snapshot(&mut self, loaded: LoadedRepo) -> (effects: Vec<AppEffect>)
        ensures
            old(self).adopted(*final(self), loaded, effects@),
    {
        let ghost old_self = *self;
        let previous_commit = self.selection.selected_commit.clone();
        let LoadedRepo { snapshot, identity } = loaded;
        self.selection.selected_change = if snapshot.changes.len() > 0 {
            Some(snapshot.changes[0].path.clone())
        } else {
            None
        };
        self.repo.branch_target = snapshot.repo.current_branch.clone();
        self.repo.merge_target = merge_candidate_exec(&snapshot.branches);
        self.load_identity(identity);
        let path = snapshot.repo.path.clone();
        let mut effects: Vec<AppEffect> = Vec::new();
        let already = match &self.watched_repo_path {
            Some(w) => same_path(w.as_str(), path.as_str()),
            None => false,
        };
        proof {
            assert(watch_answer(old_self.watched_repo_path, path@, already));
        }
        if !already {
            let token = if self.repo_watch_generation == u64::MAX {
                0
            } else {
                self.repo_watch_generation + 1
            };
            self.repo_watch_generation = token;
            self.watched_repo_path = Some(path.clone());
            effects.push(AppEffect::WatchRepo { path: path.clone(), token });
        }
        let next = match previous_commit {
            Some(oid) => {
                if history_has_exec(&snapshot.history, &oid) {
                    Some(oid)
                } else if snapshot.history.len() > 0 {
                    Some(snapshot.history[0].oid.clone())
                } else {
                    None
                }
            },
            None => {
                if snapshot.history.len() > 0 {
                    Some(snapshot.history[0].oid.clone())
                } else {
                    None
                }
            },
        };
        self.repo.snapshot = Some(snapshot);
        self.selection.selected_commit = next.clone();
        self.selection.selected_commit_file = None;
        self.selection.commit_diffs = None;
        let ghost gpath = path@;
        match next {
            Some(oid) => {
                effects.push(AppEffect::LoadCommitDiff { path, oid });
            },
            None => {},
        }
        proof {
            assert(old_self.watch_step(
                *self,
                gpath,
                next_selected_commit(opt_str(old_self.selection.selected_commit), self.repo.snapshot.unwrap().history@),
                effects@,
                already,
            ));
        }
        effects
    }
}

/// True when `m` shows the status `status` and no error.
pub open spec fn shows_status(m: MessageState, status: Seq<char>) -> bool {
    m.status_message@ == status && m.error_message@ == Seq::<char>::empty()
}

/// True when `m` keeps the status of `old` and shows the error `error`.
pub open spec fn shows_error(old: MessageState, m: MessageState, error: Seq<char>) -> bool {
    m.status_message == old.status_message && m.error_message@ == error
}

/// The byte length of the UTF-8 encoding of `s`, which `str::len` gives.
pub open spec fn byte_len(s: Seq<char>) -> nat {
    vstd::utf8::encode_utf8(s).len()
}

/// The model after the OpenRouter catalogue arrived: the first model when
/// OpenRouter is chosen and no model is set yet.
pub open spec fn model_after_catalogue(settings: AiSettings, models: Seq<RemoteModelOption>) -> Seq<char> {
    if settings.provider == AiProvider::OpenRouter && trimmed(settings.model@).len() == 0
        && models.len() > 0 {
        models[0].id@
    } else {
        settings.model@
    }
}

impl GitSparkApp {
    /// A successful refresh: adopted when it is for the open repository
    /// (`applies`), else dropped.
    pub open spec fn refreshed_ok(self, new: Self, l: LoadedRepo, reason: RepoRefreshReason, effects: Seq<AppEffect>, applies: bool) -> bool {
        if applies {
            &&& self.adopted_core(new, l, effects)
            &&& new.messages.error_message@ == Seq::<char>::empty()
            &&& new.messages.status_message@ == (if reason == RepoRefreshReason::Manual {
                "Repository refreshed."@
            } else {
                self.messages.status_message@
            })
            &&& new.commit == self.commit && new.network == self.network
            &&& new.summary_cursor == self.summary_cursor && new.description_cursor == self.description_cursor
        } else {
            new == self && effects.len() == 0
        }
    }

    /// A failed refresh: its error is shown when it is for the open
    /// repository (`applies`), else it is dropped.
    pub open spec fn refreshed_err(self, new: Self, e: Seq<char>, reason: RepoRefreshReason, effects: Seq<AppEffect>, applies: bool) -> bool {
        &&& effects.len() == 0
        &&& if applies {
            &&& new == GitSparkApp { messages: new.messages, ..self }
            &&& shows_error(self.messages, new.messages, if reason == RepoRefreshReason::Manual {
                "Refresh failed: "@ + e
            } else {
                e
            })
        } else {
            new == self
        }
    }

    /// A successful refresh for `path`, whichever way comparing it with the
    /// open repository's path as paths came out.
    pub open spec fn refreshed_any(self, new: Self, path: Seq<char>, l: LoadedRepo, reason: RepoRefreshReason, effects: Seq<AppEffect>) -> bool {
        exists|applies: bool| #[trigger] refresh_answer(self.repo.snapshot, path, applies) && self.refreshed_ok(new, l, reason, effects, applies)
    }

    /// A failed refresh for `path`, whichever way comparing it with the open
    /// repository's path as paths came out.
    pub open spec fn refresh_failed_any(self, new: Self, path: Seq<char>, e: Seq<char>, reason: RepoRefreshReason, effects: Seq<AppEffect>) -> bool {
        exists|applies: bool| #[trigger] refresh_answer(self.repo.snapshot, path, applies) && self.refreshed_err(new, e, reason, effects, applies)
    }

    /// The state after `event`, and the effects it asks for.
    pub open spec fn after_event(self, new: Self, event: AppEvent, effects: Seq<AppEffect>) -> bool {
        match event {
            AppEvent::RepoLoaded(Ok(l)) => {
                &&& self.adopted_core(new, l, effects)
                &&& shows_status(new.messages, "Repository loaded."@)
                &&& new.commit == self.commit && new.network == self.network
                &&& new.summary_cursor == self.summary_cursor && new.description_cursor == self.description_cursor
            },
            AppEvent::RepoLoaded(Err(e)) => {
                &&& new == GitSparkApp { messages: new.messages, ..self }
                &&& shows_error(self.messages, new.messages, "Failed to open repository: "@ + e@)
                &&& effects.len() == 0
            },
            AppEvent::RepoRefreshed(path, Ok(l), reason) => self.refreshed_any(new, path@, l, reason, effects),
            AppEvent::RepoRefreshed(path, Err(e), reason) => self.refresh_failed_any(new, path@, e@, reason, effects),
            AppEvent::BranchSwitched(Ok(l), branch) => {
                &&& self.adopted_core(new, l, effects)
                &&& shows_status(new.messages, "Switched to branch '"@ + branch@ + "'."@)
                &&& new.commit == self.commit && new.network == self.network
                &&& new.summary_cursor == self.summary_cursor && new.description_cursor == self.description_cursor
            },
            AppEvent::BranchSwitched(Err(e), _) => {
                &&& new == GitSparkApp { messages: new.messages, ..self }
                &&& shows_error(self.messages, new.messages, "Branch switch failed: "@ + e@)
                &&& effects.len() == 0
            },
            AppEvent::BranchMerged(Ok(l), branch) => {
                &&& self.adopted_core(new, l, effects)
                &&& shows_status(new.messages, "Merged '"@ + branch@ + "'."@)
                &&& new.commit == self.commit && new.network == self.network
                &&& new.summary_cursor == self.summary_cursor && new.description_cursor == self.description_cursor
            },
            AppEvent::BranchMerged(Err(e), _) => {
                &&& new == GitSparkApp { messages: new.messages, ..self }
                &&& shows_error(self.messages, new.messages, "Merge failed: "@ + e@)
                &&& effects.len() == 0
            },
            AppEvent::CommitCreated(Ok(l)) => {
                &&& self.adopted_core(new, l, effects)
                &&& shows_status(new.messages, "Commit created."@)
                &&& new.commit.summary@ == Seq::<char>::empty()
                &&& new.commit.body@ == Seq::<char>::empty()
                &&& new.commit.ai_preview is None
                &&& new.commit.ai_in_flight == self.commit.ai_in_flight
                &&& new.summary_cursor == 0 && new.description_cursor == 0
                &&& new.network == self.network
            },
            AppEvent::CommitCreated(Err(e)) => {
                &&& new == GitSparkApp { messages: new.messages, ..self }
                &&& shows_error(self.messages, new.messages, "Commit failed: "@ + e@)
                &&& effects.len() == 0
            },
            AppEvent::NetworkActionCompleted(Ok(l), label) => {
                &&& self.adopted_core(new, l, effects)
                &&& shows_status(new.messages, label@ + " complete."@)
                &&& new.network.active_action is None
                &&& new.commit == self.commit
                &&& new.summary_cursor == self.summary_cursor && new.description_cursor == self.description_cursor
            },
            AppEvent::NetworkActionCompleted(Err(e), label) => {
                &&& new == GitSparkApp { messages: new.messages, network: NetworkState { active_action: None }, ..self }
                &&& shows_error(self.messages, new.messages, label@ + " failed: "@ + e@)
                &&& effects.len() == 0
            },
            AppEvent::AiCommitGenerated(Ok(suggestion)) => {
                &&& new == GitSparkApp {
                    messages: new.messages,
                    commit: new.commit,
                    summary_cursor: new.summary_cursor,
                    description_cursor: new.description_cursor,
                    ..self
                }
                &&& !new.commit.ai_in_flight
                &&& new.commit.summary == suggestion.subject
                &&& new.commit.body == suggestion.body
                &&& new.commit.ai_preview == Some(suggestion)
                &&& new.summary_cursor == byte_len(suggestion.subject@) as usize
                &&& new.description_cursor == byte_len(suggestion.body@) as usize
                &&& shows_status(new.messages, "Generated commit suggestion."@)
                &&& effects.len() == 0
            },
            AppEvent::AiCommitGenerated(Err(e)) => {
                &&& new == GitSparkApp { messages: new.messages, commit: CommitState { ai_in_flight: false, ..self.commit }, ..self }
                &&& shows_error(self.messages, new.messages, "AI generation failed: "@ + e@)
                &&& effects.len() == 0
            },
            AppEvent::OpenRouterModelsLoaded(Ok(models)) => {
                &&& new == GitSparkApp { settings: new.settings, filters: new.filters, ..self }
                &&& new.settings.recent_repos == self.settings.recent_repos
                &&& new.settings.ai.provider == self.settings.ai.provider
                &&& new.settings.ai.endpoint == self.settings.ai.endpoint
                &&& new.settings.ai.api_key == self.settings.ai.api_key
                &&& new.settings.ai.system_prompt == self.settings.ai.system_prompt
                &&& new.settings.ai.model@ == model_after_catalogue(self.settings.ai, models@)
                &&& new.filters == FilterState { openrouter_models: OpenRouterModelsState::Ready(models), ..self.filters }
                &&& effects.len() == 0
            },
            AppEvent::OpenRouterModelsLoaded(Err(e)) => {
                &&& new == GitSparkApp { filters: FilterState { openrouter_models: OpenRouterModelsState::Error(e), ..self.filters }, ..self }
                &&& effects.len() == 0
            },
            AppEvent::CommitDiffLoaded(oid, Ok(diffs)) => {
                &&& effects.len() == 0
                &&& if opt_str(self.selection.selected_commit) == Some(oid@) {
                    &&& new == GitSparkApp { selection: new.selection, ..self }
                    &&& new.selection.selected_change == self.selection.selected_change
                    &&& new.selection.selected_commit == self.selection.selected_commit
                    &&& new.selection.selected_commit_file == (if diffs@.len() > 0 {
                        Some(diffs@[0].path)
                    } else {
                        self.selection.selected_commit_file
                    })
                    &&& new.selection.commit_diffs == Some(diffs)
                } else {
                    new == self
                }
            },
            AppEvent::CommitDiffLoaded(_, Err(e)) => {
                &&& new == GitSparkApp { messages: new.messages, ..self }
                &&& shows_error(self.messages, new.messages, "Failed to load commit details: "@ + e@)
                &&& effects.len() == 0
            },
        }
    }

    /// Shows an error and keeps the status.
    fn set_error(&mut self, error: String)
        ensures
            *final(self) == (GitSparkApp { messages: final(self).messages, ..*old(self) }),
            shows_error(old(self).messages, final(self).messages, error@),
    {
        self.messages.error_message = error;
    }

    /// Shows a status and clears the error.
    fn set_status(&mut self, status: String)
        ensures
            *final(self) == (GitSparkApp { messages: final(self).messages, ..*old(self) }),
            shows_status(final(self).messages, status@),
    {
        self.messages.status_message = status;
        self.messages.error_message = String::new();
    }

    /// Tests whether `path` is the open repository's path, compared as paths.
    fn is_repo_path(&self, path: &String) -> (res: bool)
        ensures
            refresh_answer(self.repo.snapshot, path@, res),
    {
        match &self.repo.snapshot {
            Some(snapshot) => same_path(snapshot.repo.path.as_str(), path.as_str()),
            None => false,
        }
    }

    fn on_repo_loaded(&mut self, res: Result<LoadedRepo, String>) -> (effects: Vec<AppEffect>)
        ensures
            old(self).after_event(*final(self), AppEvent::RepoLoaded(res), effects@),
    {
        match res {
            Ok(loaded) => {
                let effects = self.adopt_snapshot(loaded);
                self.set_status(String::from_str("Repository loaded."));
                effects
            },
            Err(err) => {
                self.set_error(concat2("Failed to open repository: ", err.as_str()));
                Vec::new()
            },
        }
    }

    fn on_repo_refreshed(
        &mut self,
        path: String,
        res: Result<LoadedRepo, String>,
        reason: RepoRefreshReason,
    ) -> (effects: Vec<AppEffect>)
        ensures
            old(self).after_event(*final(self), AppEvent::RepoRefreshed(path, res, reason), effects@),
    {
        let applies = self.is_repo_path(&path);
        proof {
            assert(refresh_answer(self.repo.snapshot, path@, applies));
        }
        if !applies {
            proof {
                match res {
                    Ok(l) => assert(old(self).refreshed_ok(*self, l, reason, Seq::<AppEffect>::empty(), applies)),
                    Err(e) => assert(old(self).refreshed_err(*self, e@, reason, Seq::<AppEffect>::empty(), applies)),
                }
            }
            return Vec::new();
        }
        let ghost s0 = *self;
        match res {
            Ok(loaded) => {
                let ghost l0 = loaded;
                let effects = self.adopt_snapshot(loaded);
                if reason == RepoRefreshReason::Manual {
                    self.messages.status_message = String::from_str("Repository refreshed.");
                }
                self.messages.error_message = String::new();
                proof {
                    assert(s0.refreshed_ok(*self, l0, reason, effects@, applies));
                }
                effects
            },
            Err(err) => {
                let ghost e0 = err@;
                if reason == RepoRefreshReason::Manual {
                    self.set_error(concat2("Refresh failed: ", err.as_str()));
                } else {
                    self.set_error(err);
                }
                proof {
                    assert(s0.refreshed_err(*self, e0, reason, Seq::<AppEffect>::empty(), applies));
                }
                Vec::new()
            },
        }
    }

    fn on_branch_switched(&mut self, res: Result<LoadedRepo, String>, branch: String) -> (effects: Vec<AppEffect>)
        ensures
            old(self).after_event(*final(self), AppEvent::BranchSwitched(res, branch), effects@),
    {
        match res {
            Ok(loaded) => {
                let effects = self.adopt_snapshot(loaded);
                self.set_status(concat3("Switched to branch '", branch.as_str(), "'."));
                effects
            },
            Err(err) => {
                self.set_error(concat2("Branch switch failed: ", err.as_str()));
                Vec::new()
            },
        }
    }

    fn on_branch_merged(&mut self, res: Result<LoadedRepo, String>, branch: String) -> (effects: Vec<AppEffect>)
        ensures
            old(self).after_event(*final(self), AppEvent::BranchMerged(res, branch), effects@),
    {
        match res {
            Ok(loaded) => {
                let effects = self.adopt_snapshot(loaded);
                self.set_status(concat3("Merged '", branch.as_str(), "'."));
                effects
            },
            Err(err) => {
                self.set_error(concat2("Merge failed: ", err.as_str()));
                Vec::new()
            },
        }
    }

    fn on_commit_created(&mut self, res: Result<LoadedRepo, String>) -> (effects: Vec<AppEffect>)
        ensures
            old(self).after_event(*final(self), AppEvent::CommitCreated(res), effects@),
    {
        match res {
            Ok(loaded) => {
                let effects = self.adopt_snapshot(loaded);
                self.commit.summary = String::new();
                self.commit.body = String::new();
                self.summary_cursor = 0;
                self.description_cursor = 0;
                self.commit.ai_preview = None;
                self.set_status(String::from_str("Commit created."));
                effects
            },
            Err(err) => {
                self.set_error(concat2("Commit failed: ", err.as_str()));
                Vec::new()
            },
        }
    }

    fn on_network_completed(&mut self, res: Result<LoadedRepo, String>, action_label: String) -> (effects: Vec<AppEffect>)
        ensures
            old(self).after_event(*final(self), AppEvent::NetworkActionCompleted(res, action_label), effects@),
    {
        self.network.active_action = None;
        match res {
            Ok(loaded) => {
                let effects = self.adopt_snapshot(loaded);
                self.set_status(concat2(action_label.as_str(), " complete."));
                effects
            },
            Err(err) => {
                self.set_error(concat3(action_label.as_str(), " failed: ", err.as_str()));
                Vec::new()
            },
        }
    }

    fn on_ai_commit_generated(&mut self, res: Result<CommitSuggestion, String>) -> (effects: Vec<AppEffect>)
        ensures
            old(self).after_event(*final(self), AppEvent::AiCommitGenerated(res), effects@),
    {
        self.commit.ai_in_flight = false;
        match res {
            Ok(suggestion) => {
                self.commit.summary = suggestion.subject.clone();
                self.commit.body = suggestion.body.clone();
                self.summary_cursor = self.commit.summary.as_str().len();
                self.description_cursor = self.commit.body.as_str().len();
                self.commit.ai_preview = Some(suggestion);
                self.set_status(String::from_str("Generated commit suggestion."));
            },
            Err(err) => {
                self.set_error(concat2("AI generation failed: ", err.as_str()));
            },
        }
        Vec::new()
    }

    fn on_models_loaded(&mut self, res: Result<Vec<RemoteModelOption>, String>) -> (effects: Vec<AppEffect>)
        ensures
            old(self).after_event(*final(self), AppEvent::OpenRouterModelsLoaded(res), effects@),
    {
        match res {
            Ok(models) => {
                if self.settings.ai.provider == AiProvider::OpenRouter && is_blank_str(
                    self.settings.ai.model.as_str(),
                ) {
                    if models.len() > 0 {
                        self.settings.ai.model = models[0].id.clone();
                    }
                }
                self.filters.openrouter_models = OpenRouterModelsState::Ready(models);
            },
            Err(err) => {
                self.filters.openrouter_models = OpenRouterModelsState::Error(err);
            },
        }
        Vec::new()
    }

    fn on_commit_diff_loaded(&mut self, oid: String, res: Result<Vec<DiffEntry>, String>) -> (effects: Vec<AppEffect>)
        ensures
            old(self).after_event(*final(self), AppEvent::CommitDiffLoaded(oid, res), effects@),
    {
        match res {
            Ok(diffs) => {
                let is_selected = match &self.selection.selected_commit {
                    Some(selected) => *selected == oid,
                    None => false,
                };
                if is_selected {
                    if diffs.len() > 0 {
                        self.selection.selected_commit_file = Some(diffs[0].path.clone());
                    }
                    self.selection.commit_diffs = Some(diffs);
                }
            },
            Err(err) => {
                self.set_error(concat2("Failed to load commit details: ", err.as_str()));
            },
        }
        Vec::new()
    }

    /// Applies one finished background job to the state.
    pub fn process_event(&mut self, event: AppEvent) -> (effects: Vec<AppEffect>)
        ensures
            old(self).after_event(*final(self), event, effects@),
    {
        match event {
            AppEvent::RepoLoaded(res) => self.on_repo_loaded(res),
            AppEvent::RepoRefreshed(path, res, reason) => self.on_repo_refreshed(path, res, reason),
            AppEvent::BranchSwitched(res, branch) => self.on_branch_switched(res, branch),
            AppEvent::BranchMerged(res, branch) => self.on_branch_merged(res, branch),
            AppEvent::CommitCreated(res) => self.on_commit_created(res),
            AppEvent::NetworkActionCompleted(res, label) => self.on_network_completed(res, label),
            AppEvent::AiCommitGenerated(res) => self.on_ai_commit_generated(res),
            AppEvent::OpenRouterModelsLoaded(res) => self.on_models_loaded(res),
            AppEvent::CommitDiffLoaded(oid, res) => self.on_commit_diff_loaded(oid, res),
        }
    }

    /// Applies the finished jobs in order; the flag tells whether there was any.
    pub fn process_events(&mut self, events: Vec<AppEvent>) -> (res: (Vec<AppEffect>, bool))
        ensures
            res.1 == (events@.len() > 0),
            old(self).after_events(*final(self), events@, res.0@),
    {
        let had_events = events.len() > 0;
        let mut all: Vec<AppEffect> = Vec::new();
        let mut events = events;
        let ghost orig = events@;
        let ghost mut states: Seq<GitSparkApp> = seq![*self];
        let ghost mut effs: Seq<Seq<AppEffect>> = Seq::empty();
        let ghost mut k: int = 0;
        assert(orig.skip(0) =~= orig);
        while events.len() > 0
            invariant
                0 <= k <= orig.len(),
                events@ == orig.skip(k),
                states.len() == k + 1,
                effs.len() == k,
                states[0] == *old(self),
                states[k] == *self,
                forall|i: int| 0 <= i < k ==> #[trigger] states[i].after_event(states[i + 1], orig[i], effs[i]),
                all@ == concat_all(effs),
            decreases events@.len(),
        {
            let ghost before = all@;
            let event = events.remove(0);
            assert(event == orig[k]);
            let mut effects = self.process_event(event);
            let ghost eb = effects@;
            all.append(&mut effects);
            proof {
                assert(orig.skip(k + 1) =~= orig.skip(k).drop_first());
                let old_states = states;
                let old_effs = effs;
                states = states.push(*self);
                effs = effs.push(eb);
                assert(effs.drop_last() =~= old_effs);
                assert forall|i: int| 0 <= i < k + 1 implies #[trigger] states[i].after_event(states[i + 1], orig[i], effs[i]) by {
                    if i < k {
                        assert(states[i] == old_states[i]);
                        assert(states[i + 1] == old_states[i + 1]);
                        assert(effs[i] == old_effs[i]);
                    }
                }
                k = k + 1;
            }
        }
        assert(orig.take(k) =~= orig);
        assert(orig.skip(k).len() == 0);
        (all, had_events)
    }

    /// The state after the events, one after the other, and all the effects
    /// they ask for, in order.
    pub open spec fn after_events(self, new: Self, events: Seq<AppEvent>, effects: Seq<AppEffect>) -> bool {
        exists|states: Seq<Self>, effs: Seq<Seq<AppEffect>>|
            #![trigger states.len(), effs.len()]
            states.len() == events.len() + 1 && effs.len() == events.len() && states[0] == self
                && states[events.len() as int] == new && (forall|i: int|
                0 <= i < events.len() ==> #[trigger] states[i].after_event(states[i + 1], events[i], effs[i]))
                && effects == concat_all(effs)
    }
}

/// The lists one after the other.
pub open spec fn concat_all(s: Seq<Seq<AppEffect>>) -> Seq<AppEffect>
    decreases s.len(),
{
    if s.len() == 0 {
        Seq::<AppEffect>::empty()
    } else {
        concat_all(s.drop_last()) + s.last()
    }
}

/// The views of a list of paths.
pub open spec fn path_views(s: Seq<String>) -> Seq<Seq<char>> {
    s.map_values(|p: String| p@)
}

/// `s` without any entry equal to `x`.
pub open spec fn without(s: Seq<Seq<char>>, x: Seq<char>) -> Seq<Seq<char>>
    decreases s.len(),
{
    if s.len() == 0 {
        s
    } else if s.last() == x {
        without(s.drop_last(), x)
    } else {
        without(s.drop_last(), x).push(s.last())
    }
}

impl GitSparkApp {
    /// The state of a freshly started window with the given settings.
    pub open spec fn is_fresh(self, settings: AppSettings) -> bool {
        &&& self.settings == settings
        &&& self.repo.snapshot is None
        &&& self.repo.identity.is_unset()
        &&& self.repo.branch_target@.len() == 0
        &&& self.repo.merge_target@.len() == 0
        &&& self.commit.summary@.len() == 0
        &&& self.commit.body@.len() == 0
        &&& self.commit.ai_preview is None
        &&& !self.commit.ai_in_flight
        &&& self.network.active_action is None
        &&& self.selection.selected_change is None
        &&& self.selection.selected_commit is None
        &&& self.selection.selected_commit_file is None
        &&& self.selection.commit_diffs is None
        &&& self.nav.is_initial()
        &&& self.filters.filter_text@.len() == 0
        &&& self.filters.change_filters.spec_active_count() == 0
        &&& self.filters.repo_filter_text@.len() == 0
        &&& self.filters.openrouter_model_filter@.len() == 0
        &&& self.filters.openrouter_models is Idle
        &&& shows_status(self.messages, "Open a repository to get started."@)
        &&& self.watched_repo_path is None
        &&& self.summary_cursor == 0
        &&& self.description_cursor == 0
    }

    /// Starts the window with the given settings, and reopens the most
    /// recent repository when there is one.
    pub fn new(settings: AppSettings) -> (res: (Self, Vec<AppEffect>))
        ensures
            settings.recent_repos@.len() == 0 ==> res.0.is_fresh(settings) && res.1@.len() == 0,
            settings.recent_repos@.len() > 0 ==> exists|fresh: GitSparkApp| #[trigger] fresh.is_fresh(settings)
                && fresh.opened_repo(res.0, settings.recent_repos@[0]@, res.1@),
    {
        let last = if settings.recent_repos.len() > 0 {
            Some(settings.recent_repos[0].clone())
        } else {
            None
        };
        let mut app = GitSparkApp {
            settings,
            repo: RepoState::default(),
            commit: CommitState::default(),
            network: NetworkState::default(),
            selection: SelectionState::default(),
            nav: NavState::default(),
            filters: FilterState::default(),
            messages: MessageState::new("Open a repository to get started.", String::new()),
            watched_repo_path: None,
            repo_watch_generation: 0,
            summary_cursor: 0,
            description_cursor: 0,
        };
        let ghost fresh = app;
        match last {
            Some(path) => {
                let effects = app.open_repo(path);
                assert(fresh.is_fresh(fresh.settings));
                (app, effects)
            },
            None => (app, Vec::new()),
        }
    }
}

/// The recent repositories after `path` was opened: `path` first, then the
/// others in their order.
pub open spec fn pushed_recent(old: Seq<Seq<char>>, path: Seq<char>) -> Seq<Seq<char>> {
    seq![path] + without(old, path)
}

proof fn lemma_push_contains(d: Seq<Seq<char>>, l: Seq<char>, y: Seq<char>)
    ensures
        d.push(l).contains(y) <==> (d.contains(y) || l == y),
{
    let s = d.push(l);
    if s.contains(y) {
        let i = choose|i: int| 0 <= i < s.len() && s[i] == y;
        if i < d.len() {
            assert(d[i] == y);
        }
    }
    if d.contains(y) {
        let i = choose|i: int| 0 <= i < d.len() && d[i] == y;
        assert(s[i] == y);
    }
    if l == y {
        assert(s[d.len() as int] == y);
    }
}

proof fn lemma_without_contains(s: Seq<Seq<char>>, x: Seq<char>, y: Seq<char>)
    ensures
        without(s, x).contains(y) <==> (s.contains(y) && y != x),
    decreases s.len(),
{
    if s.len() > 0 {
        let d = s.drop_last();
        let l = s.last();
        lemma_without_contains(d, x, y);
        assert(d.push(l) =~= s);
        lemma_push_contains(d, l, y);
        let w = without(d, x);
        if l == x {
            assert(without(s, x) == w);
        } else {
            assert(without(s, x) == w.push(l));
            lemma_push_contains(w, l, y);
        }
    }
}

proof fn lemma_without_absent(s: Seq<Seq<char>>, x: Seq<char>)
    requires
        !s.contains(x),
    ensures
        without(s, x) == s,
    decreases s.len(),
{
    if s.len() > 0 {
        assert(!s.drop_last().contains(x)) by {
            if s.drop_last().contains(x) {
                let j = choose|j: int| 0 <= j < s.drop_last().len() && s.drop_last()[j] == x;
                assert(s[j] == x);
            }
        }
        lemma_without_absent(s.drop_last(), x);
        assert(s.last() != x) by {
            assert(s[s.len() - 1] == s.last());
        }
        assert(s.drop_last().push(s.last()) =~= s);
    }
}

proof fn lemma_without_distinct(s: Seq<Seq<char>>, x: Seq<char>)
    requires
        s.no_duplicates(),
    ensures
        without(s, x).no_duplicates(),
    decreases s.len(),
{
    if s.len() > 0 {
        let d = s.drop_last();
        assert(d.no_duplicates()) by {
            assert forall|i: int, j: int| 0 <= i < d.len() && 0 <= j < d.len() && i != j implies d[i] != d[j] by {
                assert(d[i] == s[i] && d[j] == s[j]);
            }
        }
        lemma_without_distinct(d, x);
        if s.last() != x {
            lemma_without_contains(d, x, s.last());
            assert(!d.contains(s.last())) by {
                if d.contains(s.last()) {
                    let j = choose|j: int| 0 <= j < d.len() && d[j] == s.last();
                    assert(s[j] == s[s.len() - 1]);
                }
            }
            let w = without(d, x);
            let w2 = w.push(s.last());
            assert forall|i: int, j: int| 0 <= i < w2.len() && 0 <= j < w2.len() && i != j implies w2[i] != w2[j] by {
                if i < w.len() && j < w.len() {
                    assert(w2[i] == w[i] && w2[j] == w[j]);
                } else if i < w.len() {
                    assert(w.contains(w2[i]));
                } else if j < w.len() {
                    assert(w.contains(w2[j]));
                }
            }
        }
    }
}

/// After opening a repository, its path comes first among the recent
/// repositories and nowhere else, no other entry is lost or added, and the
/// list holds no path twice when it held none twice before.
pub proof fn law_recent_repos_path_first_once(old: Seq<Seq<char>>, path: Seq<char>)
    ensures
        pushed_recent(old, path)[0] == path,
        !pushed_recent(old, path).drop_first().contains(path),
        forall|q: Seq<char>| #[trigger] pushed_recent(old, path).contains(q) <==> (q == path || old.contains(q)),
        old.no_duplicates() ==> pushed_recent(old, path).no_duplicates(),
{
    let r = pushed_recent(old, path);
    assert(r.drop_first() =~= without(old, path));
    lemma_without_contains(old, path, path);
    assert forall|q: Seq<char>| #[trigger] r.contains(q) <==> (q == path || old.contains(q)) by {
        lemma_without_contains(old, path, q);
        if r.contains(q) && q != path {
            let i = choose|i: int| 0 <= i < r.len() && r[i] == q;
            assert(i > 0);
            assert(without(old, path)[i - 1] == q);
        }
        if q == path {
            assert(r[0] == q);
        } else if old.contains(q) {
            assert(without(old, path).contains(q));
            let i = choose|i: int| 0 <= i < without(old, path).len() && without(old, path)[i] == q;
            assert(r[i + 1] == q);
        }
    }
    if old.no_duplicates() {
        lemma_without_distinct(old, path);
        let w = without(old, path);
        assert forall|i: int, j: int| 0 <= i < r.len() && 0 <= j < r.len() && i != j implies r[i] != r[j] by {
            if i > 0 && j > 0 {
                assert(r[i] == w[i - 1] && r[j] == w[j - 1]);
            } else if i == 0 {
                assert(r[j] == w[j - 1]);
            } else {
                assert(r[i] == w[i - 1]);
            }
        }
    }
}

/// Opening the same repository twice leaves the recent repositories as
/// opening it once does.
pub proof fn law_recent_repos_reopen(old: Seq<Seq<char>>, path: Seq<char>)
    ensures
        pushed_recent(pushed_recent(old, path), path) == pushed_recent(old, path),
{
    let w = without(old, path);
    lemma_without_contains(old, path, path);
    lemma_without_front(w, path);
    lemma_without_absent(w, path);
}

proof fn lemma_without_front(t: Seq<Seq<char>>, x: Seq<char>)
    ensures
        without(seq![x] + t, x) == without(t, x),
    decreases t.len(),
{
    let u = seq![x] + t;
    if t.len() == 0 {
        assert(u =~= seq![x]);
        assert(u.drop_last() =~= Seq::<Seq<char>>::empty());
        assert(u.last() == x);
        assert(without(u, x) == without(u.drop_last(), x));
        assert(without(Seq::<Seq<char>>::empty(), x) =~= Seq::<Seq<char>>::empty());
        assert(without(t, x) =~= Seq::<Seq<char>>::empty());
    } else {
        assert(u.drop_last() =~= seq![x] + t.drop_last());
        assert(u.last() == t.last());
        lemma_without_front(t.drop_last(), x);
        if t.last() == x {
            assert(without(u, x) == without(u.drop_last(), x));
        } else {
            assert(without(u, x) == without(u.drop_last(), x).push(u.last()));
        }
    }
}

/// Moves `path` to the front of the recent repositories, dropping its other
/// occurrences.
pub fn push_recent_repo(settings: &mut AppSettings, path: String)
    ensures
        path_views(final(settings).recent_repos@) == seq![path@] + without(path_views(old(settings).recent_repos@), path@),
        final(settings).ai == old(settings).ai,
{
    let ghost olds = path_views(settings.recent_repos@);
    let mut kept: Vec<String> = Vec::new();
    let mut i: usize = 0;
    while i < settings.recent_repos.len()
        invariant
            i <= settings.recent_repos@.len(),
            olds == path_views(settings.recent_repos@),
            path_views(kept@) == without(olds.take(i as int), path@),
        decreases settings.recent_repos@.len() - i,
    {
        proof {
            assert(olds.take(i + 1).drop_last() =~= olds.take(i as int));
            assert(olds.take(i + 1).last() == settings.recent_repos@[i as int]@);
        }
        let ghost before = kept@;
        if settings.recent_repos[i] != path {
            kept.push(settings.recent_repos[i].clone());
            assert(path_views(kept@) =~= path_views(before).push(settings.recent_repos@[i as int]@));
        }
        i = i + 1;
    }
    assert(olds.take(olds.len() as int) =~= olds);
    let mut result: Vec<String> = Vec::new();
    result.push(path);
    let ghost first = result@;
    let ghost kv = kept@;
    result.append(&mut kept);
    assert(path_views(result@) =~= path_views(first) + path_views(kv));
    settings.recent_repos = result;
}

/// One diff as the AI prompt shows it.
pub open spec fn ai_diff_piece(e: DiffEntry) -> Seq<char> {
    "FILE: "@ + e.path@ + "\n"@ + e.diff@
}

/// The prompt pieces of the text diffs, in order; binary diffs are left out.
pub open spec fn ai_diff_pieces(diffs: Seq<DiffEntry>) -> Seq<Seq<char>>
    decreases diffs.len(),
{
    if diffs.len() == 0 {
        Seq::<Seq<char>>::empty()
    } else if diffs.last().is_binary {
        ai_diff_pieces(diffs.drop_last())
    } else {
        ai_diff_pieces(diffs.drop_last()).push(ai_diff_piece(diffs.last()))
    }
}

/// The pieces joined with `sep` between them.
pub open spec fn join_with(pieces: Seq<Seq<char>>, sep: Seq<char>) -> Seq<char>
    decreases pieces.len(),
{
    if pieces.len() == 0 {
        Seq::<char>::empty()
    } else if pieces.len() == 1 {
        pieces[0]
    } else {
        join_with(pieces.drop_last(), sep) + sep + pieces.last()
    }
}

/// The diff text sent to the AI backend.
pub open spec fn ai_diff_text(diffs: Seq<DiffEntry>) -> Seq<char> {
    join_with(ai_diff_pieces(diffs), "\n\n"@)
}

/// Builds the diff text sent to the AI backend.
pub fn build_ai_diff(diffs: &Vec<DiffEntry>) -> (res: String)
    ensures
        res@ == ai_diff_text(diffs@),
{
    let mut text = String::new();
    let mut count: usize = 0;
    let mut i: usize = 0;
    while i < diffs.len()
        invariant
            i <= diffs@.len(),
            count == ai_diff_pieces(diffs@.take(i as int)).len(),
            count <= i,
            text@ == join_with(ai_diff_pieces(diffs@.take(i as int)), "\n\n"@),
        decreases diffs@.len() - i,
    {
        let ghost prev = ai_diff_pieces(diffs@.take(i as int));
        proof {
            assert(diffs@.take(i + 1).drop_last() =~= diffs@.take(i as int));
            assert(diffs@.take(i + 1).last() == diffs@[i as int]);
        }
        let e = &diffs[i];
        if !e.is_binary {
            let piece = concat4("FILE: ", e.path.as_str(), "\n", e.diff.as_str());
            if count > 0 {
                text.append("\n\n");
            }
            text.append(piece.as_str());
            proof {
                let next = prev.push(ai_diff_piece(*e));
                assert(next.drop_last() =~= prev);
                if count == 0 {
                    assert(text@ =~= piece@);
                }
            }
            count = count + 1;
        }
        i = i + 1;
    }
    assert(diffs@.take(diffs@.len() as int) =~= diffs@);
    text
}

/// `value` quoted for a POSIX shell: in single quotes, each `'` written as `'"'"'`.
pub open spec fn shell_quoted(value: Seq<char>) -> Seq<char> {
    "'"@ + replace_char(value, '\'', "'\"'\"'"@) + "'"@
}

/// Quotes a value for a POSIX shell command line.
pub fn shell_escape(value: &str) -> (res: String)
    ensures
        res@ == shell_quoted(value@),
{
    let inner = replace_char_exec(value, '\'', "'\"'\"'");
    concat3("'", inner.as_str(), "'")
}

/// The first value that is set and not blank.
pub open spec fn first_set(values: Seq<Option<String>>) -> Option<Seq<char>>
    decreases values.len(),
{
    if values.len() == 0 {
        None
    } else {
        match values[0] {
            Some(v) if trimmed(v@).len() > 0 => Some(v@),
            _ => first_set(values.drop_first()),
        }
    }
}

fn set_and_not_blank(v: Option<String>) -> (res: Option<String>)
    ensures
        opt_str(res) == (match v {
            Some(s) if trimmed(s@).len() > 0 => Some(s@),
            _ => None,
        }),
{
    match v {
        Some(s) => {
            if is_blank_str(s.as_str()) {
                None
            } else {
                Some(s)
            }
        },
        None => None,
    }
}

/// The editor to open files with: `core.editor`, else `$VISUAL`, else
/// `$EDITOR`, each only when set and not blank.
pub fn choose_editor(
    configured: Option<String>,
    visual: Option<String>,
    editor: Option<String>,
) -> (res: Option<String>)
    ensures
        opt_str(res) == first_set(seq![configured, visual, editor]),
{
    let ghost vals = seq![configured, visual, editor];
    proof {
        assert(vals.drop_first() =~= seq![visual, editor]);
        assert(vals.drop_first().drop_first() =~= seq![editor]);
        assert(vals.drop_first().drop_first().drop_first() =~= Seq::<Option<String>>::empty());
        reveal_with_fuel(first_set, 4);
    }
    match set_and_not_blank(configured) {
        Some(c) => Some(c),
        None => match set_and_not_blank(visual) {
            Some(v) => Some(v),
            None => set_and_not_blank(editor),
        },
    }
}

/// The shell command that opens `full_path` in `editor`.
pub fn editor_command(editor: &str, full_path: &str) -> (res: String)
    ensures
        res@ == editor@ + " "@ + shell_quoted(full_path@),
{
    let quoted = shell_escape(full_path);
    concat3(editor, " ", quoted.as_str())
}

/// The diff whose path is `path`, the first one when several match.
pub open spec fn find_diff(diffs: Seq<DiffEntry>, path: Seq<char>) -> Option<DiffEntry>
    decreases diffs.len(),
{
    if diffs.len() == 0 {
        None
    } else if diffs[0].path@ == path {
        Some(diffs[0])
    } else {
        find_diff(diffs.drop_first(), path)
    }
}

/// Finds the diff of a file.
pub fn find_diff_exec<'a>(diffs: &'a Vec<DiffEntry>, path: &String) -> (res: Option<&'a DiffEntry>)
    ensures
        match res {
            Some(d) => find_diff(diffs@, path@) == Some(*d),
            None => find_diff(diffs@, path@) is None,
        },
{
    let mut i: usize = 0;
    assert(diffs@.skip(0) =~= diffs@);
    while i < diffs.len()
        invariant
            i <= diffs@.len(),
            find_diff(diffs@, path@) == find_diff(diffs@.skip(i as int), path@),
        decreases diffs@.len() - i,
    {
        assert(diffs@.skip(i as int)[0] == diffs@[i as int]);
        assert(diffs@.skip(i as int).drop_first() =~= diffs@.skip(i + 1));
        if diffs[i].path == *path {
            return Some(&diffs[i]);
        }
        i = i + 1;
    }
    None
}

impl GitSparkApp {
    /// Only the messages changed.
    pub open spec fn only_messages(self, new: Self) -> bool {
        new == GitSparkApp { messages: new.messages, ..self }
    }

    /// The outcome when an action needs an open repository and there is none.
    pub open spec fn no_repo(self, new: Self, effects: Seq<AppEffect>) -> bool {
        &&& self.only_messages(new)
        &&& shows_error(self.messages, new.messages, "No repository selected."@)
        &&& effects.len() == 0
    }

    /// The diff of the selected change.
    pub fn selected_diff(&self) -> (res: Option<&DiffEntry>)
        ensures
            match (self.repo.snapshot, self.selection.selected_change) {
                (Some(snap), Some(sel)) => match res {
                    Some(d) => find_diff(snap.diffs@, sel@) == Some(*d),
                    None => find_diff(snap.diffs@, sel@) is None,
                },
                _ => res is None,
            },
    {
        match &self.repo.snapshot {
            Some(snapshot) => match &self.selection.selected_change {
                Some(sel) => find_diff_exec(&snapshot.diffs, sel),
                None => None,
            },
            None => None,
        }
    }

    /// Forgets the watched path, moves the watch generation on (which ends
    /// the running watcher) and asks the shell to stop the watcher.
    pub fn stop_repo_watch(&mut self) -> (effects: Vec<AppEffect>)
        ensures
            *final(self) == (GitSparkApp {
                watched_repo_path: None,
                repo_watch_generation: next_generation(old(self).repo_watch_generation),
                ..*old(self)
            }),
            effects@.len() == 1 && effects@[0] is StopRepoWatch,
            !watcher_runs(*final(self), old(self).repo_watch_generation),
    {
        self.watched_repo_path = None;
        self.repo_watch_generation = if self.repo_watch_generation == u64::MAX {
            0
        } else {
            self.repo_watch_generation + 1
        };
        let mut effects: Vec<AppEffect> = Vec::new();
        effects.push(AppEffect::StopRepoWatch);
        effects
    }

    /// Moves `path` to the front of the recent repositories and asks for the
    /// settings to be saved.
    pub fn add_recent_repo(&mut self, path: String) -> (effects: Vec<AppEffect>)
        ensures
            *final(self) == (GitSparkApp { settings: final(self).settings, ..*old(self) }),
            path_views(final(self).settings.recent_repos@) == seq![path@] + without(path_views(old(self).settings.recent_repos@), path@),
            final(self).settings.ai == old(self).settings.ai,
            effects@.len() == 1 && effects@[0] == (AppEffect::SaveSettings { confirm: false }),
    {
        push_recent_repo(&mut self.settings, path);
        let mut effects: Vec<AppEffect> = Vec::new();
        effects.push(AppEffect::SaveSettings { confirm: false });
        effects
    }

    /// Reports a finished save of the settings; with `confirm`, a save that
    /// leaves no error shows "AI settings saved.".
    pub fn settings_saved(&mut self, result: Result<(), String>, confirm: bool)
        ensures
            old(self).only_messages(*final(self)),
            ({
                let err_after = match result {
                    Ok(_) => old(self).messages.error_message@,
                    Err(e) => "Failed to save settings: "@ + e@,
                };
                &&& final(self).messages.error_message@ == err_after
                &&& final(self).messages.status_message@ == (if confirm && err_after.len() == 0 {
                    "AI settings saved."@
                } else {
                    old(self).messages.status_message@
                })
            }),
    {
        match result {
            Ok(()) => {},
            Err(err) => {
                self.messages.error_message = concat2("Failed to save settings: ", err.as_str());
            },
        }
        if confirm && self.messages.error_message.as_str().is_empty() {
            self.messages.status_message = String::from_str("AI settings saved.");
        }
    }

    /// What opening `path` does: show that it loads, close the repository
    /// selector, stop the watcher, move the path to the front of the recent
    /// repositories, and ask for the settings to be saved and the repository
    /// to be loaded.
    pub open spec fn opened_repo(self, new: Self, path: Seq<char>, effects: Seq<AppEffect>) -> bool {
        &&& new == GitSparkApp {
            messages: new.messages,
            nav: NavState { show_repo_selector: false, ..self.nav },
            watched_repo_path: None,
            repo_watch_generation: next_generation(self.repo_watch_generation),
            settings: new.settings,
            ..self
        }
        &&& shows_status(new.messages, "Loading repository..."@)
        &&& path_views(new.settings.recent_repos@) == seq![path] + without(path_views(self.settings.recent_repos@), path)
        &&& new.settings.ai == self.settings.ai
        &&& effects.len() == 3
        &&& effects[0] is StopRepoWatch
        &&& effects[1] == (AppEffect::SaveSettings { confirm: false })
        &&& effects[2] matches AppEffect::LoadRepo { path: p } && p@ == path
    }

    /// Starts opening the repository at `path`.
    pub fn open_repo(&mut self, path: String) -> (effects: Vec<AppEffect>)
        ensures
            old(self).opened_repo(*final(self), path@, effects@),
    {
        self.messages.status_message = String::from_str("Loading repository...");
        self.messages.error_message = String::new();
        self.nav.show_repo_selector = false;
        let mut effects = self.stop_repo_watch();
        let mut saves = self.add_recent_repo(path.clone());
        effects.append(&mut saves);
        effects.push(AppEffect::LoadRepo { path });
        effects
    }

    /// What asking for a refresh does.
    pub open spec fn requested_refresh(self, new: Self, reason: RepoRefreshReason, effects: Seq<AppEffect>) -> bool {
        match repo_path_of(self.repo.snapshot) {
            None => self.no_repo(new, effects),
            Some(path) => {
                &&& self.only_messages(new)
                &&& new.messages.error_message@ == Seq::<char>::empty()
                &&& new.messages.status_message@ == (if reason == RepoRefreshReason::Manual {
                    "Refreshing repository..."@
                } else {
                    self.messages.status_message@
                })
                &&& effects.len() == 1
                &&& effects[0] matches AppEffect::RefreshRepo { path: p, reason: r } && p@ == path && r == reason
            },
        }
    }

    /// Asks for the open repository to be read again.
    pub fn request_repo_refresh(&mut self, reason: RepoRefreshReason) -> (effects: Vec<AppEffect>)
        ensures
            old(self).requested_refresh(*final(self), reason, effects@),
    {
        let path = match &self.repo.snapshot {
            Some(snapshot) => snapshot.repo.path.clone(),
            None => {
                self.set_error(String::from_str("No repository selected."));
                return Vec::new();
            },
        };
        if reason == RepoRefreshReason::Manual {
            self.messages.status_message = String::from_str("Refreshing repository...");
        }
        self.messages.error_message = String::new();
        let mut effects: Vec<AppEffect> = Vec::new();
        effects.push(AppEffect::RefreshRepo { path, reason });
        effects
    }

    /// Refreshes the open repository at the user's request.
    pub fn refresh_repo(&mut self) -> (effects: Vec<AppEffect>)
        ensures
            old(self).requested_refresh(*final(self), RepoRefreshReason::Manual, effects@),
    {
        self.request_repo_refresh(RepoRefreshReason::Manual)
    }

    /// The remote's name, `origin` when the snapshot names none.
    pub open spec fn remote_name(self) -> Seq<char> {
        match self.repo.snapshot {
            Some(s) => match s.repo.remote_name {
                Some(n) => n@,
                None => "origin"@,
            },
            None => "origin"@,
        }
    }

    /// What starting a remote operation does; nothing while one runs.
    pub open spec fn started_network(self, new: Self, action: NetworkAction, effects: Seq<AppEffect>) -> bool {
        if self.network.active_action is Some {
            new == self && effects.len() == 0
        } else {
            match repo_path_of(self.repo.snapshot) {
                None => self.no_repo(new, effects),
                Some(path) => {
                    let label = action.spec_verb() + self.remote_name();
                    &&& new == GitSparkApp { messages: new.messages, network: NetworkState { active_action: Some(action) }, ..self }
                    &&& shows_status(new.messages, label + "..."@)
                    &&& effects.len() == 1
                    &&& effects[0] matches AppEffect::RunNetworkAction { path: p, action: a, label: l } && p@ == path && a == action && l@ == label
                },
            }
        }
    }

    /// Starts fetch, pull or push.
    pub fn run_network_action(&mut self, action: NetworkAction) -> (effects: Vec<AppEffect>)
        ensures
            old(self).started_network(*final(self), action, effects@),
    {
        if self.network.active_action.is_some() {
            return Vec::new();
        }
        let path = match &self.repo.snapshot {
            Some(snapshot) => snapshot.repo.path.clone(),
            None => {
                self.set_error(String::from_str("No repository selected."));
                return Vec::new();
            },
        };
        let remote_name = match &self.repo.snapshot {
            Some(snapshot) => match &snapshot.repo.remote_name {
                Some(n) => n.clone(),
                None => String::from_str("origin"),
            },
            None => String::from_str("origin"),
        };
        let action_label = action.title(remote_name.as_str());
        self.set_status(concat2(action_label.as_str(), "..."));
        self.network.active_action = Some(action);
        let mut effects: Vec<AppEffect> = Vec::new();
        effects.push(AppEffect::RunNetworkAction { path, action, label: action_label });
        effects
    }

    /// Fetches from the remote.
    pub fn fetch_origin(&mut self) -> (effects: Vec<AppEffect>)
        ensures
            old(self).started_network(*final(self), NetworkAction::Fetch, effects@),
    {
        self.run_network_action(NetworkAction::Fetch)
    }

    /// Pulls from the remote.
    pub fn pull_origin(&mut self) -> (effects: Vec<AppEffect>)
        ensures
            old(self).started_network(*final(self), NetworkAction::Pull, effects@),
    {
        self.run_network_action(NetworkAction::Pull)
    }

    /// Pushes to the remote.
    pub fn push_origin(&mut self) -> (effects: Vec<AppEffect>)
        ensures
            old(self).started_network(*final(self), NetworkAction::Push, effects@),
    {
        self.run_network_action(NetworkAction::Push)
    }

    /// What starting a checkout of the branch target does.
    pub open spec fn started_switch(self, new: Self, effects: Seq<AppEffect>) -> bool {
        match repo_path_of(self.repo.snapshot) {
            None => self.no_repo(new, effects),
            Some(path) => {
                let target = trimmed(self.repo.branch_target@);
                if target.len() == 0 {
                    &&& self.only_messages(new)
                    &&& shows_error(self.messages, new.messages, "Choose a branch first."@)
                    &&& effects.len() == 0
                } else {
                    &&& self.only_messages(new)
                    &&& shows_status(new.messages, "Switching to '"@ + target + "'..."@)
                    &&& effects.len() == 1
                    &&& effects[0] matches AppEffect::SwitchBranch { path: p, target: t } && p@ == path && t@ == target
                }
            },
        }
    }

    /// Starts checking out the branch target.
    pub fn switch_branch(&mut self) -> (effects: Vec<AppEffect>)
        ensures
            old(self).started_switch(*final(self), effects@),
    {
        let path = match &self.repo.snapshot {
            Some(snapshot) => snapshot.repo.path.clone(),
            None => {
                self.set_error(String::from_str("No repository selected."));
                return Vec::new();
            },
        };
        let target = trim_string(self.repo.branch_target.as_str());
        if target.as_str().is_empty() {
            self.set_error(String::from_str("Choose a branch first."));
            return Vec::new();
        }
        self.set_status(concat3("Switching to '", target.as_str(), "'..."));
        let mut effects: Vec<AppEffect> = Vec::new();
        effects.push(AppEffect::SwitchBranch { path, target });
        effects
    }

    /// What starting a merge of the merge target does.
    pub open spec fn started_merge(self, new: Self, effects: Seq<AppEffect>) -> bool {
        match repo_path_of(self.repo.snapshot) {
            None => self.no_repo(new, effects),
            Some(path) => {
                let target = trimmed(self.repo.merge_target@);
                if target.len() == 0 {
                    &&& self.only_messages(new)
                    &&& shows_error(self.messages, new.messages, "Choose a branch to merge."@)
                    &&& effects.len() == 0
                } else {
                    &&& self.only_messages(new)
                    &&& shows_status(new.messages, "Merging '"@ + target + "'..."@)
                    &&& effects.len() == 1
                    &&& effects[0] matches AppEffect::MergeBranch { path: p, target: t } && p@ == path && t@ == target
                }
            },
        }
    }

    /// Starts merging the merge target into the current branch.
    pub fn merge_branch(&mut self) -> (effects: Vec<AppEffect>)
        ensures
            old(self).started_merge(*final(self), effects@),
    {
        let path = match &self.repo.snapshot {
            Some(snapshot) => snapshot.repo.path.clone(),
            None => {
                self.set_error(String::from_str("No repository selected."));
                return Vec::new();
            },
        };
        let target = trim_string(self.repo.merge_target.as_str());
        if target.as_str().is_empty() {
            self.set_error(String::from_str("Choose a branch to merge."));
            return Vec::new();
        }
        self.set_status(concat3("Merging '", target.as_str(), "'..."));
        let mut effects: Vec<AppEffect> = Vec::new();
        effects.push(AppEffect::MergeBranch { path, target });
        effects
    }
}

/// The commit message of a summary and a description: the trimmed summary,
/// then a blank line and the trimmed description when there is one.
pub open spec fn commit_message_of(summary: Seq<char>, body: Seq<char>) -> Seq<char> {
    if trimmed(body).len() == 0 {
        trimmed(summary)
    } else {
        trimmed(summary) + "\n\n"@ + trimmed(body)
    }
}

impl GitSparkApp {
    /// What starting a commit of all changes does.
    pub open spec fn started_commit(self, new: Self, effects: Seq<AppEffect>) -> bool {
        match repo_path_of(self.repo.snapshot) {
            None => self.no_repo(new, effects),
            Some(path) => {
                if trimmed(self.commit.summary@).len() == 0 {
                    &&& self.only_messages(new)
                    &&& shows_error(self.messages, new.messages, "Commit summary cannot be empty."@)
                    &&& effects.len() == 0
                } else {
                    &&& self.only_messages(new)
                    &&& shows_status(new.messages, "Creating commit..."@)
                    &&& effects.len() == 1
                    &&& effects[0] matches AppEffect::CommitAll { path: p, message: m } && p@ == path
                        && m@ == commit_message_of(self.commit.summary@, self.commit.body@)
                }
            },
        }
    }

    /// Starts committing all changes with the message of the commit form.
    pub fn commit_all(&mut self) -> (effects: Vec<AppEffect>)
        ensures
            old(self).started_commit(*final(self), effects@),
    {
        let path = match &self.repo.snapshot {
            Some(snapshot) => snapshot.repo.path.clone(),
            None => {
                self.set_error(String::from_str("No repository selected."));
                return Vec::new();
            },
        };
        let summary = trim_string(self.commit.summary.as_str());
        if summary.as_str().is_empty() {
            self.set_error(String::from_str("Commit summary cannot be empty."));
            return Vec::new();
        }
        let body = trim_string(self.commit.body.as_str());
        let message = if body.as_str().is_empty() {
            summary
        } else {
            concat3(summary.as_str(), "\n\n", body.as_str())
        };
        self.set_status(String::from_str("Creating commit..."));
        let mut effects: Vec<AppEffect> = Vec::new();
        effects.push(AppEffect::CommitAll { path, message });
        effects
    }

    /// What asking the AI backend for a commit message does.
    pub open spec fn started_ai_commit(self, new: Self, effects: Seq<AppEffect>) -> bool {
        if self.commit.ai_in_flight {
            new == self && effects.len() == 0
        } else {
            match self.repo.snapshot {
                None => {
                    &&& self.only_messages(new)
                    &&& shows_error(self.messages, new.messages, "Open a repository before generating a commit message."@)
                    &&& effects.len() == 0
                },
                Some(snap) => {
                    let diff = ai_diff_text(snap.diffs@);
                    if trimmed(diff).len() == 0 {
                        &&& self.only_messages(new)
                        &&& shows_error(self.messages, new.messages, "No text diff available for AI commit generation."@)
                        &&& effects.len() == 0
                    } else {
                        &&& new == GitSparkApp { messages: new.messages, commit: CommitState { ai_in_flight: true, ..self.commit }, ..self }
                        &&& shows_status(new.messages, "Generating AI commit suggestion..."@)
                        &&& effects.len() == 1
                        &&& effects[0] matches AppEffect::GenerateAiCommit { settings: st, diff: d } && st == self.settings.ai && d@ == diff
                    }
                },
            }
        }
    }

    /// Asks the AI backend for a commit message describing the text diffs.
    pub fn generate_ai_commit(&mut self) -> (effects: Vec<AppEffect>)
        ensures
            old(self).started_ai_commit(*final(self), effects@),
    {
        if self.commit.ai_in_flight {
            return Vec::new();
        }
        let diff = match &self.repo.snapshot {
            Some(snapshot) => build_ai_diff(&snapshot.diffs),
            None => {
                self.set_error(String::from_str("Open a repository before generating a commit message."));
                return Vec::new();
            },
        };
        if is_blank_str(diff.as_str()) {
            self.set_error(String::from_str("No text diff available for AI commit generation."));
            return Vec::new();
        }
        self.set_status(String::from_str("Generating AI commit suggestion..."));
        self.commit.ai_in_flight = true;
        let settings = self.settings.ai.clone();
        let mut effects: Vec<AppEffect> = Vec::new();
        effects.push(AppEffect::GenerateAiCommit { settings, diff });
        effects
    }

    /// What asking for the OpenRouter catalogue does: only with OpenRouter
    /// chosen, and only when it is neither loading nor loaded.
    pub open spec fn ensured_models(self, new: Self, effects: Seq<AppEffect>) -> bool {
        if self.settings.ai.provider != AiProvider::OpenRouter || self.filters.openrouter_models is Loading
            || self.filters.openrouter_models is Ready {
            new == self && effects.len() == 0
        } else {
            &&& new == GitSparkApp { filters: FilterState { openrouter_models: OpenRouterModelsState::Loading, ..self.filters }, ..self }
            &&& effects.len() == 1 && effects[0] is FetchOpenRouterModels
        }
    }

    /// Loads the OpenRouter catalogue when it is needed.
    pub fn ensure_openrouter_models(&mut self) -> (effects: Vec<AppEffect>)
        ensures
            old(self).ensured_models(*final(self), effects@),
    {
        if self.settings.ai.provider != AiProvider::OpenRouter {
            return Vec::new();
        }
        match self.filters.openrouter_models {
            OpenRouterModelsState::Idle | OpenRouterModelsState::Error(_) => {},
            OpenRouterModelsState::Loading | OpenRouterModelsState::Ready(_) => return Vec::new(),
        }
        self.filters.openrouter_models = OpenRouterModelsState::Loading;
        let mut effects: Vec<AppEffect> = Vec::new();
        effects.push(AppEffect::FetchOpenRouterModels);
        effects
    }
}

/// The toolbar's actions.
pub enum ToolbarAction {
    ToggleRepoSelector,
    SwitchBranch(String),
    RunNetworkAction(NetworkAction),
    FetchOrigin,
    PullOrigin,
    PushOrigin,
}

/// The sidebar's actions.
pub enum SidebarAction {
    OpenRepoDialog,
    OpenRepo(String),
    HideRepoSelector,
    SelectChange(String),
    DiscardChange(String),
    IgnorePath(String),
    IgnoreExtension(String),
    CopyFullPath(String),
    CopyRelativePath(String),
    RevealInFinder(String),
    OpenInEditor(String),
    OpenWithDefault(String),
    SelectCommit(String),
    GenerateAiCommit,
    ShowSettings,
    CommitAll,
}

/// The settings overlay's actions.
pub enum SettingsAction {
    SaveGitConfig,
    SaveAiSettings,
    ChangeProvider(AiProvider),
    SelectOpenRouterModel(String),
    RetryOpenRouterModels,
    Close,
}

/// The endpoint a provider is reached at by default.
pub open spec fn spec_default_endpoint(provider: AiProvider) -> Seq<char> {
    match provider {
        AiProvider::OpenAi => "https://api.openai.com/v1/chat/completions"@,
        AiProvider::OpenRouter => "https://openrouter.ai/api/v1/chat/completions"@,
    }
}

/// The endpoint a provider is reached at by default.
pub fn default_endpoint(provider: AiProvider) -> (res: &'static str)
    ensures
        res@ == spec_default_endpoint(provider),
{
    match provider {
        AiProvider::OpenAi => "https://api.openai.com/v1/chat/completions",
        AiProvider::OpenRouter => "https://openrouter.ai/api/v1/chat/completions",
    }
}

/// True when the effect, a file operation of the given kind, names `repo` and `relative`.
pub open spec fn is_file_effect(e: AppEffect, kind: int, repo: Seq<char>, relative: Seq<char>) -> bool {
    match e {
        AppEffect::DiscardChange { repo: r, relative: p } => kind == 0 && r@ == repo && p@ == relative,
        AppEffect::RevealInFinder { repo: r, relative: p } => kind == 1 && r@ == repo && p@ == relative,
        AppEffect::OpenInEditor { repo: r, relative: p } => kind == 2 && r@ == repo && p@ == relative,
        AppEffect::OpenWithDefault { repo: r, relative: p } => kind == 3 && r@ == repo && p@ == relative,
        AppEffect::CopyFullPath { repo: r, relative: p } => kind == 4 && r@ == repo && p@ == relative,
        _ => false,
    }
}

impl GitSparkApp {
    /// What asking to save the identity does.
    pub open spec fn started_identity_save(self, new: Self, effects: Seq<AppEffect>) -> bool {
        match repo_path_of(self.repo.snapshot) {
            None => self.no_repo(new, effects),
            Some(path) => {
                &&& new == self
                &&& effects.len() == 1
                &&& effects[0] matches AppEffect::WriteIdentity { path: p } && p@ == path
            },
        }
    }

    /// Asks for the identity to be written to the repository's Git config.
    pub fn save_git_config(&mut self) -> (effects: Vec<AppEffect>)
        ensures
            old(self).started_identity_save(*final(self), effects@),
    {
        let path = match &self.repo.snapshot {
            Some(snapshot) => snapshot.repo.path.clone(),
            None => {
                self.set_error(String::from_str("No repository selected."));
                return Vec::new();
            },
        };
        let mut effects: Vec<AppEffect> = Vec::new();
        effects.push(AppEffect::WriteIdentity { path });
        effects
    }

    /// Reports a finished write of the identity.
    pub fn identity_saved(&mut self, result: Result<(), String>)
        ensures
            old(self).only_messages(*final(self)),
            match result {
                Ok(_) => shows_status(final(self).messages, "Git config saved."@),
                Err(e) => shows_error(old(self).messages, final(self).messages, "Failed to save git config: "@ + e@),
            },
    {
        match result {
            Ok(()) => self.set_status(String::from_str("Git config saved.")),
            Err(err) => self.set_error(concat2("Failed to save git config: ", err.as_str())),
        }
    }

    /// Asks for the diff of commit `oid` when a repository is open.
    fn load_commit_diff(&self, oid: String) -> (effects: Vec<AppEffect>)
        ensures
            match repo_path_of(self.repo.snapshot) {
                None => effects@.len() == 0,
                Some(path) => effects@.len() == 1 && is_load_commit_diff(effects@[0], path, oid@),
            },
    {
        let mut effects: Vec<AppEffect> = Vec::new();
        match &self.repo.snapshot {
            Some(snapshot) => {
                effects.push(AppEffect::LoadCommitDiff { path: snapshot.repo.path.clone(), oid });
            },
            None => {},
        }
        effects
    }

    /// What selecting commit `oid` does: nothing when it is selected and its
    /// diff is loaded; else it becomes the selection and its diff is asked for.
    pub open spec fn selected_commit_post(self, new: Self, oid: Seq<char>, effects: Seq<AppEffect>) -> bool {
        if opt_str(self.selection.selected_commit) == Some(oid) && self.selection.commit_diffs is Some {
            new == self && effects.len() == 0
        } else {
            &&& new == GitSparkApp { selection: new.selection, ..self }
            &&& new.selection.selected_change == self.selection.selected_change
            &&& opt_str(new.selection.selected_commit) == Some(oid)
            &&& new.selection.selected_commit_file is None
            &&& new.selection.commit_diffs is None
            &&& match repo_path_of(self.repo.snapshot) {
                None => effects.len() == 0,
                Some(path) => effects.len() == 1 && is_load_commit_diff(effects[0], path, oid),
            }
        }
    }

    /// Shows a tab of the sidebar, as clicking it does; only the tab changes.
    pub fn select_sidebar_tab(&mut self, tab: SidebarTab)
        ensures
            *final(self) == (GitSparkApp { nav: NavState { sidebar_tab: tab, ..old(self).nav }, ..*old(self) }),
    {
        self.nav.sidebar_tab = tab;
    }

    /// Whether the sidebar highlights the row of the changed file `path`: it
    /// is the selected change.
    pub fn change_row_selected(&self, path: &str) -> (res: bool)
        ensures
            res == (opt_str(self.selection.selected_change) == Some(path@)),
    {
        match &self.selection.selected_change {
            Some(sel) => *sel == String::from_str(path),
            None => false,
        }
    }

    /// Selects a file of the selected commit's diff, as clicking its row in
    /// the commit's file list does; nothing else changes.
    pub fn select_commit_file(&mut self, path: String)
        ensures
            *final(self) == (GitSparkApp {
                selection: SelectionState { selected_commit_file: Some(path), ..old(self).selection },
                ..*old(self)
            }),
    {
        self.selection.selected_commit_file = Some(path);
    }

    /// Selects a commit of the history and asks for its diff.
    pub fn select_commit(&mut self, oid: String) -> (effects: Vec<AppEffect>)
        ensures
            old(self).selected_commit_post(*final(self), oid@, effects@),
    {
        let already_selected = match &self.selection.selected_commit {
            Some(selected) => *selected == oid,
            None => false,
        };
        if already_selected && self.selection.commit_diffs.is_some() {
            return Vec::new();
        }
        self.selection.selected_commit = Some(oid.clone());
        self.selection.selected_commit_file = None;
        self.selection.commit_diffs = None;
        self.load_commit_diff(oid)
    }

    /// What asking for a file operation on `relative` does.
    pub open spec fn started_file_op(self, new: Self, kind: int, relative: Seq<char>, effects: Seq<AppEffect>) -> bool {
        match repo_path_of(self.repo.snapshot) {
            None => self.no_repo(new, effects),
            Some(repo) => new == self && effects.len() == 1 && is_file_effect(effects[0], kind, repo, relative),
        }
    }

    fn file_op(&mut self, kind: u8, relative: &str) -> (effects: Vec<AppEffect>)
        requires
            kind <= 3,
        ensures
            old(self).started_file_op(*final(self), kind as int, relative@, effects@),
    {
        let repo = match &self.repo.snapshot {
            Some(snapshot) => snapshot.repo.path.clone(),
            None => {
                self.set_error(String::from_str("No repository selected."));
                return Vec::new();
            },
        };
        let relative = String::from_str(relative);
        let e = if kind == 0 {
            AppEffect::DiscardChange { repo, relative }
        } else if kind == 1 {
            AppEffect::RevealInFinder { repo, relative }
        } else if kind == 2 {
            AppEffect::OpenInEditor { repo, relative }
        } else {
            AppEffect::OpenWithDefault { repo, relative }
        };
        let mut effects: Vec<AppEffect> = Vec::new();
        effects.push(e);
        effects
    }

    /// Asks for the changes of a file to be discarded.
    pub fn discard_change(&mut self, relative_path: &str) -> (effects: Vec<AppEffect>)
        ensures
            old(self).started_file_op(*final(self), 0, relative_path@, effects@),
    {
        self.file_op(0, relative_path)
    }

    /// Asks for a file to be shown in the file manager.
    pub fn reveal_in_finder(&mut self, relative_path: &str) -> (effects: Vec<AppEffect>)
        ensures
            old(self).started_file_op(*final(self), 1, relative_path@, effects@),
    {
        self.file_op(1, relative_path)
    }

    /// Asks for a file to be opened in the configured editor.
    pub fn open_in_external_editor(&mut self, relative_path: &str) -> (effects: Vec<AppEffect>)
        ensures
            old(self).started_file_op(*final(self), 2, relative_path@, effects@),
    {
        self.file_op(2, relative_path)
    }

    /// Reports a finished discard.
    pub fn change_discarded(&mut self, relative_path: &str, result: Result<LoadedRepo, String>) -> (effects: Vec<AppEffect>)
        ensures
            match result {
                Ok(l) => {
                    &&& old(self).adopted_core(*final(self), l, effects@)
                    &&& shows_status(final(self).messages, "Discarded changes for '"@ + relative_path@ + "'."@)
                    &&& final(self).commit == old(self).commit && final(self).network == old(self).network
                    &&& final(self).summary_cursor == old(self).summary_cursor
                    &&& final(self).description_cursor == old(self).description_cursor
                },
                Err(e) => {
                    &&& old(self).only_messages(*final(self))
                    &&& shows_error(old(self).messages, final(self).messages, "Failed to discard changes for '"@ + relative_path@ + "': "@ + e@)
                    &&& effects@.len() == 0
                },
            },
    {
        match result {
            Ok(loaded) => {
                let effects = self.adopt_snapshot(loaded);
                self.set_status(concat3("Discarded changes for '", relative_path, "'."));
                effects
            },
            Err(err) => {
                self.set_error(concat4("Failed to discard changes for '", relative_path, "': ", err.as_str()));
                Vec::new()
            },
        }
    }

    /// What asking to append `pattern` to `.gitignore` does.
    pub open spec fn started_ignore(self, new: Self, pattern: Seq<char>, shown: Seq<char>, effects: Seq<AppEffect>) -> bool {
        match repo_path_of(self.repo.snapshot) {
            None => self.no_repo(new, effects),
            Some(repo) => {
                &&& new == self
                &&& effects.len() == 1
                &&& effects[0] matches AppEffect::AppendGitignore { repo: r, pattern: p, shown: s }
                    && r@ == repo && p@ == pattern && s@ == shown
            },
        }
    }

    /// Asks for a path to be added to `.gitignore`, with `/` as separator.
    pub fn ignore_path(&mut self, relative_path: &str) -> (effects: Vec<AppEffect>)
        ensures
            old(self).started_ignore(*final(self), replace_char(relative_path@, '\\', "/"@), relative_path@, effects@),
    {
        let repo = match &self.repo.snapshot {
            Some(snapshot) => snapshot.repo.path.clone(),
            None => {
                self.set_error(String::from_str("No repository selected."));
                return Vec::new();
            },
        };
        let pattern = replace_char_exec(relative_path, '\\', "/");
        let mut effects: Vec<AppEffect> = Vec::new();
        effects.push(AppEffect::AppendGitignore { repo, pattern, shown: String::from_str(relative_path) });
        effects
    }

    /// Asks for every file with extension `ext` to be ignored.
    pub fn ignore_extension(&mut self, ext: &str) -> (effects: Vec<AppEffect>)
        ensures
            old(self).started_ignore(*final(self), "*."@ + ext@, "*."@ + ext@, effects@),
    {
        let repo = match &self.repo.snapshot {
            Some(snapshot) => snapshot.repo.path.clone(),
            None => {
                self.set_error(String::from_str("No repository selected."));
                return Vec::new();
            },
        };
        let pattern = concat2("*.", ext);
        let shown = pattern.clone();
        let mut effects: Vec<AppEffect> = Vec::new();
        effects.push(AppEffect::AppendGitignore { repo, pattern, shown });
        effects
    }

    /// Reports a finished append to `.gitignore`.
    pub fn ignore_added(&mut self, shown: &str, result: Result<LoadedRepo, String>) -> (effects: Vec<AppEffect>)
        ensures
            match result {
                Ok(l) => {
                    &&& old(self).adopted_core(*final(self), l, effects@)
                    &&& shows_status(final(self).messages, "Added '"@ + shown@ + "' to .gitignore."@)
                    &&& final(self).commit == old(self).commit && final(self).network == old(self).network
                    &&& final(self).summary_cursor == old(self).summary_cursor
                    &&& final(self).description_cursor == old(self).description_cursor
                },
                Err(e) => {
                    &&& old(self).only_messages(*final(self))
                    &&& shows_error(old(self).messages, final(self).messages, "Failed to ignore '"@ + shown@ + "': "@ + e@)
                    &&& effects@.len() == 0
                },
            },
    {
        match result {
            Ok(loaded) => {
                let effects = self.adopt_snapshot(loaded);
                self.set_status(concat3("Added '", shown, "' to .gitignore."));
                effects
            },
            Err(err) => {
                self.set_error(concat4("Failed to ignore '", shown, "': ", err.as_str()));
                Vec::new()
            },
        }
    }

    /// Reports a finished reveal in the file manager.
    pub fn revealed(&mut self, relative_path: &str, result: Result<(), String>)
        ensures
            old(self).only_messages(*final(self)),
            match result {
                Ok(_) => shows_status(final(self).messages, "Revealed '"@ + relative_path@ + "' in Finder."@),
                Err(e) => shows_error(old(self).messages, final(self).messages, "Failed to reveal '"@ + relative_path@ + "': "@ + e@),
            },
    {
        match result {
            Ok(()) => self.set_status(concat3("Revealed '", relative_path, "' in Finder.")),
            Err(err) => self.set_error(concat4("Failed to reveal '", relative_path, "': ", err.as_str())),
        }
    }

    /// Reports a finished start of the external editor.
    pub fn opened_in_editor(&mut self, relative_path: &str, result: Result<(), String>)
        ensures
            old(self).only_messages(*final(self)),
            match result {
                Ok(_) => shows_status(final(self).messages, "Opened '"@ + relative_path@ + "' in external editor."@),
                Err(e) => shows_error(old(self).messages, final(self).messages, "Failed to open '"@ + relative_path@ + "' in external editor: "@ + e@),
            },
    {
        match result {
            Ok(()) => self.set_status(concat3("Opened '", relative_path, "' in external editor.")),
            Err(err) => {
                let mut msg = concat3("Failed to open '", relative_path, "' in external editor: ");
                msg.append(err.as_str());
                self.set_error(msg);
            },
        }
    }

    /// Reports a finished open with the default program.
    pub fn opened_with_default(&mut self, relative_path: &str, result: Result<(), String>)
        ensures
            old(self).only_messages(*final(self)),
            match result {
                Ok(_) => shows_status(final(self).messages, "Opened '"@ + relative_path@ + "' with the default program."@),
                Err(e) => shows_error(old(self).messages, final(self).messages, "Failed to open '"@ + relative_path@ + "' with default program: "@ + e@),
            },
    {
        match result {
            Ok(()) => self.set_status(concat3("Opened '", relative_path, "' with the default program.")),
            Err(err) => {
                let mut msg = concat3("Failed to open '", relative_path, "' with default program: ");
                msg.append(err.as_str());
                self.set_error(msg);
            },
        }
    }
}

impl GitSparkApp {
    /// What a toolbar action does.
    pub open spec fn after_toolbar(self, new: Self, action: ToolbarAction, effects: Seq<AppEffect>) -> bool {
        match action {
            ToolbarAction::ToggleRepoSelector => {
                &&& new == GitSparkApp { nav: NavState { show_repo_selector: !self.nav.show_repo_selector, ..self.nav }, ..self }
                &&& effects.len() == 0
            },
            ToolbarAction::SwitchBranch(name) => (GitSparkApp { repo: RepoState { branch_target: name, ..self.repo }, ..self }).started_switch(new, effects),
            ToolbarAction::RunNetworkAction(a) => self.started_network(new, a, effects),
            ToolbarAction::FetchOrigin => self.started_network(new, NetworkAction::Fetch, effects),
            ToolbarAction::PullOrigin => self.started_network(new, NetworkAction::Pull, effects),
            ToolbarAction::PushOrigin => self.started_network(new, NetworkAction::Push, effects),
        }
    }

    /// Carries out a toolbar action.
    pub fn handle_toolbar_action(&mut self, action: ToolbarAction) -> (effects: Vec<AppEffect>)
        ensures
            old(self).after_toolbar(*final(self), action, effects@),
    {
        match action {
            ToolbarAction::ToggleRepoSelector => {
                self.nav.show_repo_selector = !self.nav.show_repo_selector;
                Vec::new()
            },
            ToolbarAction::SwitchBranch(name) => {
                self.repo.branch_target = name;
                self.switch_branch()
            },
            ToolbarAction::RunNetworkAction(net_action) => self.run_network_action(net_action),
            ToolbarAction::FetchOrigin => self.fetch_origin(),
            ToolbarAction::PullOrigin => self.pull_origin(),
            ToolbarAction::PushOrigin => self.push_origin(),
        }
    }

    /// What a sidebar action does.
    pub open spec fn after_sidebar(self, new: Self, action: SidebarAction, effects: Seq<AppEffect>) -> bool {
        match action {
            SidebarAction::OpenRepoDialog => new == self && effects.len() == 1 && effects[0] is OpenRepoDialog,
            SidebarAction::OpenRepo(path) => self.opened_repo(new, path@, effects),
            SidebarAction::HideRepoSelector => {
                &&& new == GitSparkApp { nav: NavState { show_repo_selector: false, ..self.nav }, ..self }
                &&& effects.len() == 0
            },
            SidebarAction::SelectChange(path) => {
                &&& new == GitSparkApp { selection: SelectionState { selected_change: Some(path), ..self.selection }, ..self }
                &&& effects.len() == 0
            },
            SidebarAction::DiscardChange(path) => self.started_file_op(new, 0, path@, effects),
            SidebarAction::IgnorePath(path) => self.started_ignore(new, replace_char(path@, '\\', "/"@), path@, effects),
            SidebarAction::IgnoreExtension(ext) => self.started_ignore(new, "*."@ + ext@, "*."@ + ext@, effects),
            SidebarAction::CopyFullPath(path) => match repo_path_of(self.repo.snapshot) {
                None => new == self && effects.len() == 0,
                Some(repo) => {
                    &&& self.only_messages(new)
                    &&& shows_status(new.messages, "Copied absolute path for '"@ + path@ + "'."@)
                    &&& effects.len() == 1 && is_file_effect(effects[0], 4, repo, path@)
                },
            },
            SidebarAction::CopyRelativePath(path) => {
                &&& self.only_messages(new)
                &&& shows_status(new.messages, "Copied relative path for '"@ + path@ + "'."@)
                &&& effects.len() == 1
                &&& effects[0] matches AppEffect::CopyText { text: t } && t@ == path@
            },
            SidebarAction::RevealInFinder(path) => self.started_file_op(new, 1, path@, effects),
            SidebarAction::OpenInEditor(path) => self.started_file_op(new, 2, path@, effects),
            SidebarAction::OpenWithDefault(path) => match repo_path_of(self.repo.snapshot) {
                None => new == self && effects.len() == 0,
                Some(repo) => new == self && effects.len() == 1 && is_file_effect(effects[0], 3, repo, path@),
            },
            SidebarAction::SelectCommit(oid) => self.selected_commit_post(new, oid@, effects),
            SidebarAction::GenerateAiCommit => self.started_ai_commit(new, effects),
            SidebarAction::ShowSettings => {
                &&& new == GitSparkApp { nav: NavState { show_settings: true, ..self.nav }, ..self }
                &&& effects.len() == 0
            },
            SidebarAction::CommitAll => self.started_commit(new, effects),
        }
    }

    /// Carries out a sidebar action.
    pub fn handle_sidebar_action(&mut self, action: SidebarAction) -> (effects: Vec<AppEffect>)
        ensures
            old(self).after_sidebar(*final(self), action, effects@),
    {
        match action {
            SidebarAction::OpenRepoDialog => {
                let mut effects: Vec<AppEffect> = Vec::new();
                effects.push(AppEffect::OpenRepoDialog);
                effects
            },
            SidebarAction::OpenRepo(path) => self.open_repo(path),
            SidebarAction::HideRepoSelector => {
                self.nav.show_repo_selector = false;
                Vec::new()
            },
            SidebarAction::SelectChange(path) => {
                self.selection.selected_change = Some(path);
                Vec::new()
            },
            SidebarAction::DiscardChange(path) => self.discard_change(path.as_str()),
            SidebarAction::IgnorePath(path) => self.ignore_path(path.as_str()),
            SidebarAction::IgnoreExtension(ext) => self.ignore_extension(ext.as_str()),
            SidebarAction::CopyFullPath(path) => {
                let repo = match &self.repo.snapshot {
                    Some(snapshot) => snapshot.repo.path.clone(),
                    None => return Vec::new(),
                };
                self.set_status(concat3("Copied absolute path for '", path.as_str(), "'."));
                let mut effects: Vec<AppEffect> = Vec::new();
                effects.push(AppEffect::CopyFullPath { repo, relative: path });
                effects
            },
            SidebarAction::CopyRelativePath(path) => {
                self.set_status(concat3("Copied relative path for '", path.as_str(), "'."));
                let mut effects: Vec<AppEffect> = Vec::new();
                effects.push(AppEffect::CopyText { text: path });
                effects
            },
            SidebarAction::RevealInFinder(path) => self.reveal_in_finder(path.as_str()),
            SidebarAction::OpenInEditor(path) => self.open_in_external_editor(path.as_str()),
            SidebarAction::OpenWithDefault(path) => {
                let repo = match &self.repo.snapshot {
                    Some(snapshot) => snapshot.repo.path.clone(),
                    None => return Vec::new(),
                };
                let mut effects: Vec<AppEffect> = Vec::new();
                effects.push(AppEffect::OpenWithDefault { repo, relative: path });
                effects
            },
            SidebarAction::SelectCommit(oid) => self.select_commit(oid),
            SidebarAction::GenerateAiCommit => self.generate_ai_commit(),
            SidebarAction::ShowSettings => {
                self.nav.show_settings = true;
                Vec::new()
            },
            SidebarAction::CommitAll => self.commit_all(),
        }
    }

    /// The state with `provider` chosen, its default endpoint set and the
    /// model filter cleared.
    pub open spec fn with_provider(self, new: Self, provider: AiProvider) -> bool {
        &&& new == GitSparkApp { settings: new.settings, filters: new.filters, ..self }
        &&& new.settings.recent_repos == self.settings.recent_repos
        &&& new.settings.ai.provider == provider
        &&& new.settings.ai.endpoint@ == spec_default_endpoint(provider)
        &&& new.settings.ai.model == self.settings.ai.model
        &&& new.settings.ai.api_key == self.settings.ai.api_key
        &&& new.settings.ai.system_prompt == self.settings.ai.system_prompt
        &&& new.filters.openrouter_model_filter@ == Seq::<char>::empty()
        &&& new.filters.filter_text == self.filters.filter_text
        &&& new.filters.change_filters == self.filters.change_filters
        &&& new.filters.repo_filter_text == self.filters.repo_filter_text
        &&& new.filters.openrouter_models == self.filters.openrouter_models
    }

    /// What a settings action does.
    pub open spec fn after_settings(self, new: Self, action: SettingsAction, effects: Seq<AppEffect>) -> bool {
        match action {
            SettingsAction::SaveGitConfig => self.started_identity_save(new, effects),
            SettingsAction::SaveAiSettings => {
                &&& new == GitSparkApp { settings: new.settings, ..self }
                &&& new.settings.recent_repos == self.settings.recent_repos
                &&& new.settings.ai.provider == self.settings.ai.provider
                &&& new.settings.ai.endpoint@ == spec_default_endpoint(self.settings.ai.provider)
                &&& new.settings.ai.model == self.settings.ai.model
                &&& new.settings.ai.api_key == self.settings.ai.api_key
                &&& new.settings.ai.system_prompt == self.settings.ai.system_prompt
                &&& effects.len() == 1 && effects[0] == (AppEffect::SaveSettings { confirm: true })
            },
            SettingsAction::ChangeProvider(provider) => {
                if provider == AiProvider::OpenRouter {
                    exists|mid: Self| #[trigger] self.with_provider(mid, provider) && mid.ensured_models(new, effects)
                } else {
                    self.with_provider(new, provider) && effects.len() == 0
                }
            },
            SettingsAction::SelectOpenRouterModel(model_id) => {
                &&& new == GitSparkApp { settings: AppSettings { ai: AiSettings { model: model_id, ..self.settings.ai }, ..self.settings }, ..self }
                &&& effects.len() == 0
            },
            SettingsAction::RetryOpenRouterModels => (GitSparkApp {
                filters: FilterState { openrouter_models: OpenRouterModelsState::Idle, ..self.filters },
                ..self
            }).ensured_models(new, effects),
            SettingsAction::Close => {
                &&& new == GitSparkApp { nav: NavState { show_settings: false, ..self.nav }, ..self }
                &&& effects.len() == 0
            },
        }
    }

    /// Carries out a settings action.
    pub fn handle_settings_action(&mut self, action: SettingsAction) -> (effects: Vec<AppEffect>)
        ensures
            old(self).after_settings(*final(self), action, effects@),
    {
        match action {
            SettingsAction::SaveGitConfig => self.save_git_config(),
            SettingsAction::SaveAiSettings => {
                self.settings.ai.endpoint = String::from_str(default_endpoint(self.settings.ai.provider));
                let mut effects: Vec<AppEffect> = Vec::new();
                effects.push(AppEffect::SaveSettings { confirm: true });
                effects
            },
            SettingsAction::ChangeProvider(provider) => {
                self.settings.ai.provider = provider;
                self.settings.ai.endpoint = String::from_str(default_endpoint(provider));
                self.filters.openrouter_model_filter = String::new();
                let ghost mid = *self;
                if provider == AiProvider::OpenRouter {
                    let effects = self.ensure_openrouter_models();
                    assert(old(self).with_provider(mid, provider));
                    effects
                } else {
                    Vec::new()
                }
            },
            SettingsAction::SelectOpenRouterModel(model_id) => {
                self.settings.ai.model = model_id;
                Vec::new()
            },
            SettingsAction::RetryOpenRouterModels => {
                self.filters.openrouter_models = OpenRouterModelsState::Idle;
                self.ensure_openrouter_models()
            },
            SettingsAction::Close => {
                self.nav.show_settings = false;
                Vec::new()
            },
        }
    }
}

impl GitSparkApp {
    /// Both text cursors are byte offsets on character boundaries of their fields.
    pub open spec fn cursors_ok(self) -> bool {
        &&& cursor_ok(self.commit.summary@, self.summary_cursor as int)
        &&& cursor_ok(self.commit.body@, self.description_cursor as int)
    }

    /// `after` is `before` with the key press applied to the summary field
    /// (`changed` tells whether anything changed), as `handle_summary_key`
    /// does it.
    pub open spec fn summary_key_step(
        before: GitSparkApp,
        key: KeyInput,
        clipboard: Option<String>,
        after: GitSparkApp,
        changed: bool,
    ) -> bool {
        let r = edit_after_key(
            bytes_of(before.commit.summary@),
            before.summary_cursor as int,
            key.key@,
            key.secondary,
            key.control,
            opt_chars(key.key_char),
            opt_chars(clipboard),
            false,
        );
        &&& bytes_of(after.commit.summary@) == r.0
        &&& after.summary_cursor as int == r.1
        &&& changed == r.2
        &&& cursor_ok(after.commit.summary@, after.summary_cursor as int)
        &&& after == (GitSparkApp {
            commit: CommitState { summary: after.commit.summary, ..before.commit },
            summary_cursor: after.summary_cursor,
            ..before
        })
    }

    /// The summary stays a single line: whatever key is pressed in the
    /// summary field, as `handle_summary_key` applies it, a summary without a
    /// line break, with its cursor on a character boundary, has none after.
    pub proof fn law_summary_stays_single_line(
        before: GitSparkApp,
        key: KeyInput,
        clipboard: Option<String>,
        after: GitSparkApp,
        changed: bool,
    )
        requires
            cursor_ok(before.commit.summary@, before.summary_cursor as int),
            !before.commit.summary@.contains('\n'),
            Self::summary_key_step(before, key, clipboard, after, changed),
        ensures
            !after.commit.summary@.contains('\n'),
    {
        law_single_line_stays_single(
            before.commit.summary@,
            before.summary_cursor as int,
            key.key@,
            key.secondary,
            key.control,
            opt_chars(key.key_char),
            opt_chars(clipboard),
            after.commit.summary@,
        );
    }

    /// Applies a key press to the summary field, a single line.
    pub fn handle_summary_key(&mut self, key: &KeyInput, clipboard: Option<String>) -> (changed: bool)
        requires
            cursor_ok(old(self).commit.summary@, old(self).summary_cursor as int),
            bytes_of(old(self).commit.summary@).len() + typed_len(opt_chars(key.key_char), opt_chars(clipboard)) <= usize::MAX,
        ensures
            ({
                let r = edit_after_key(
                    bytes_of(old(self).commit.summary@),
                    old(self).summary_cursor as int,
                    key.key@,
                    key.secondary,
                    key.control,
                    opt_chars(key.key_char),
                    opt_chars(clipboard),
                    false,
                );
                &&& bytes_of(final(self).commit.summary@) == r.0
                &&& final(self).summary_cursor as int == r.1
                &&& changed == r.2
            }),
            cursor_ok(final(self).commit.summary@, final(self).summary_cursor as int),
            *final(self) == (GitSparkApp {
                commit: CommitState { summary: final(self).commit.summary, ..old(self).commit },
                summary_cursor: final(self).summary_cursor,
                ..*old(self)
            }),
            Self::summary_key_step(*old(self), *key, clipboard, *final(self), changed),
    {
        apply_key(&mut self.commit.summary, &mut self.summary_cursor, key, clipboard, false)
    }

    /// `after` is `before` with the key press applied to the description field
    /// (`changed` tells whether anything changed), as `handle_description_key`
    /// does it.
    pub open spec fn description_key_step(
        before: GitSparkApp,
        key: KeyInput,
        clipboard: Option<String>,
        after: GitSparkApp,
        changed: bool,
    ) -> bool {
        let r = edit_after_key(
            bytes_of(before.commit.body@),
            before.description_cursor as int,
            key.key@,
            key.secondary,
            key.control,
            opt_chars(key.key_char),
            opt_chars(clipboard),
            true,
        );
        &&& bytes_of(after.commit.body@) == r.0
        &&& after.description_cursor as int == r.1
        &&& changed == r.2
        &&& cursor_ok(after.commit.body@, after.description_cursor as int)
        &&& after == (GitSparkApp {
            commit: CommitState { body: after.commit.body, ..before.commit },
            description_cursor: after.description_cursor,
            ..before
        })
    }

    /// Applies a key press to the description field, which takes several lines.
    pub fn handle_description_key(&mut self, key: &KeyInput, clipboard: Option<String>) -> (changed: bool)
        requires
            cursor_ok(old(self).commit.body@, old(self).description_cursor as int),
            bytes_of(old(self).commit.body@).len() + typed_len(opt_chars(key.key_char), opt_chars(clipboard)) <= usize::MAX,
        ensures
            ({
                let r = edit_after_key(
                    bytes_of(old(self).commit.body@),
                    old(self).description_cursor as int,
                    key.key@,
                    key.secondary,
                    key.control,
                    opt_chars(key.key_char),
                    opt_chars(clipboard),
                    true,
                );
                &&& bytes_of(final(self).commit.body@) == r.0
                &&& final(self).description_cursor as int == r.1
                &&& changed == r.2
            }),
            cursor_ok(final(self).commit.body@, final(self).description_cursor as int),
            *final(self) == (GitSparkApp {
                commit: CommitState { body: final(self).commit.body, ..old(self).commit },
                description_cursor: final(self).description_cursor,
                ..*old(self)
            }),
            Self::description_key_step(*old(self), *key, clipboard, *final(self), changed),
    {
        apply_key(&mut self.commit.body, &mut self.description_cursor, key, clipboard, true)
    }

    /// In the description field, typing one character and then pressing
    /// backspace gives back the text and the cursor as they were, and nothing
    /// else changes: for any app state whose description is `x + y` with the
    /// cursor after `x`, a key press that types `c` (no modifier, not one of
    /// the editing keys), followed by backspace, as `handle_description_key`
    /// applies them.
    pub proof fn law_description_backspace_undoes_typing(
        s0: GitSparkApp,
        s1: GitSparkApp,
        s2: GitSparkApp,
        x: Seq<char>,
        y: Seq<char>,
        c: char,
        typing: KeyInput,
        backspace: KeyInput,
        clip1: Option<String>,
        clip2: Option<String>,
        changed1: bool,
        changed2: bool,
    )
        requires
            s0.commit.body@ == x + y,
            s0.description_cursor as int == bytes_of(x).len(),
            !typing.secondary,
            !typing.control,
            typing.key@ != "backspace"@,
            typing.key@ != "delete"@,
            typing.key@ != "left"@,
            typing.key@ != "right"@,
            typing.key@ != "home"@,
            typing.key@ != "end"@,
            typing.key@ != "enter"@,
            opt_chars(typing.key_char) == Some(seq![c]),
            backspace.key@ == "backspace"@,
            !backspace.secondary,
            Self::description_key_step(s0, typing, clip1, s1, changed1),
            Self::description_key_step(s1, backspace, clip2, s2, changed2),
        ensures
            s1.commit.body@ == x + seq![c] + y,
            s1.description_cursor as int == bytes_of(x + seq![c]).len(),
            s2.commit.body@ == s0.commit.body@,
            s2.description_cursor == s0.description_cursor,
            s2 == (GitSparkApp { commit: CommitState { body: s2.commit.body, ..s0.commit }, ..s0 }),
    {
        law_backspace_undoes_typing(x, y, c, typing.key@, opt_chars(clip1), true);
        vstd::utf8::encode_utf8_decode_utf8(x + seq![c] + y);
        vstd::utf8::encode_utf8_decode_utf8(s1.commit.body@);
        vstd::utf8::encode_utf8_decode_utf8(x + y);
        vstd::utf8::encode_utf8_decode_utf8(s2.commit.body@);
    }

    /// Keeps each cursor within its field, as drawing the form does.
    pub fn clamp_cursors(&mut self)
        requires
            bytes_of(old(self).commit.summary@).len() <= usize::MAX,
            bytes_of(old(self).commit.body@).len() <= usize::MAX,
        ensures
            final(self).summary_cursor as int == if old(self).summary_cursor <= bytes_of(old(self).commit.summary@).len() {
                old(self).summary_cursor as int
            } else {
                bytes_of(old(self).commit.summary@).len() as int
            },
            final(self).description_cursor as int == if old(self).description_cursor <= bytes_of(old(self).commit.body@).len() {
                old(self).description_cursor as int
            } else {
                bytes_of(old(self).commit.body@).len() as int
            },
            *final(self) == (GitSparkApp {
                summary_cursor: final(self).summary_cursor,
                description_cursor: final(self).description_cursor,
                ..*old(self)
            }),
    {
        let sl = self.commit.summary.as_str().len();
        let bl = self.commit.body.as_str().len();
        if self.summary_cursor > sl {
            self.summary_cursor = sl;
        }
        if self.description_cursor > bl {
            self.description_cursor = bl;
        }
    }
}

/// What the toolbar shows: the repository, the branch, the ahead and behind
/// counts, the network action with its label, and when it last fetched.
pub struct ToolbarView {
    pub repo_name: String,
    pub branch_name: String,
    pub ahead: usize,
    pub behind: usize,
    pub network_action: NetworkAction,
    pub network_label: String,
    pub last_fetched: Option<String>,
}

/// The remote the network button names: the repository's, else "origin".
pub open spec fn remote_of(snapshot: Option<RepoSnapshot>) -> Seq<char> {
    match snapshot {
        Some(s) => match s.repo.remote_name {
            Some(r) => r@,
            None => "origin"@,
        },
        None => "origin"@,
    }
}

/// The network action the toolbar offers: from the counts, or fetch.
pub open spec fn toolbar_action(snapshot: Option<RepoSnapshot>) -> NetworkAction {
    match snapshot {
        Some(s) => NetworkAction::spec_from_counts(s.repo.ahead, s.repo.behind),
        None => NetworkAction::Fetch,
    }
}

/// What the workspace shows: the diffs of the list in view (the working
/// tree's on the changes tab, the selected commit's on the history tab), the
/// selected file and its diff, and whether the commit's file list is shown.
pub struct WorkspaceView<'a> {
    pub diffs: Option<&'a Vec<DiffEntry>>,
    pub selected_file: Option<&'a String>,
    pub selected_diff: Option<&'a DiffEntry>,
    pub show_file_list: bool,
}

/// The diffs in view, as a sequence.
pub open spec fn opt_diffs(d: Option<&Vec<DiffEntry>>) -> Seq<DiffEntry> {
    match d {
        Some(v) => v@,
        None => Seq::<DiffEntry>::empty(),
    }
}

impl GitSparkApp {
    /// The diffs of the list in view.
    pub open spec fn diffs_in_view(self) -> Seq<DiffEntry> {
        match self.nav.sidebar_tab {
            SidebarTab::Changes => match self.repo.snapshot {
                Some(s) => s.diffs@,
                None => Seq::<DiffEntry>::empty(),
            },
            SidebarTab::History => match self.selection.commit_diffs {
                Some(v) => v@,
                None => Seq::<DiffEntry>::empty(),
            },
        }
    }

    /// The file selected in the list in view.
    pub open spec fn file_in_view(self) -> Option<String> {
        match self.nav.sidebar_tab {
            SidebarTab::Changes => self.selection.selected_change,
            SidebarTab::History => self.selection.selected_commit_file,
        }
    }

    /// Works out what the toolbar shows.
    pub fn toolbar_view(&self) -> (res: ToolbarView)
        ensures
            res.repo_name@ == (match self.repo.snapshot {
                Some(s) => s.repo.name@,
                None => "Choose repository"@,
            }),
            res.branch_name@ == (match self.repo.snapshot {
                Some(s) => s.repo.current_branch@,
                None => "No branch"@,
            }),
            res.ahead == (match self.repo.snapshot {
                Some(s) => s.repo.ahead,
                None => 0,
            }),
            res.behind == (match self.repo.snapshot {
                Some(s) => s.repo.behind,
                None => 0,
            }),
            res.network_action == toolbar_action(self.repo.snapshot),
            res.network_label@ == (if self.network.active_action is Some {
                toolbar_action(self.repo.snapshot).spec_pending_verb()
            } else {
                toolbar_action(self.repo.snapshot).spec_verb()
            }) + remote_of(self.repo.snapshot),
            opt_str(res.last_fetched) == (match self.repo.snapshot {
                Some(s) => opt_str(s.repo.last_fetched),
                None => None,
            }),
    {
        match &self.repo.snapshot {
            Some(s) => {
                let action = NetworkAction::from_snapshot(s);
                let remote = match &s.repo.remote_name {
                    Some(r) => r.as_str(),
                    None => "origin",
                };
                let label = if self.network.active_action.is_some() {
                    action.pending_title(remote)
                } else {
                    action.title(remote)
                };
                let last_fetched = match &s.repo.last_fetched {
                    Some(v) => Some(v.clone()),
                    None => None,
                };
                ToolbarView {
                    repo_name: s.repo.name.clone(),
                    branch_name: s.repo.current_branch.clone(),
                    ahead: s.repo.ahead,
                    behind: s.repo.behind,
                    network_action: action,
                    network_label: label,
                    last_fetched,
                }
            },
            None => {
                let action = NetworkAction::Fetch;
                let label = if self.network.active_action.is_some() {
                    action.pending_title("origin")
                } else {
                    action.title("origin")
                };
                ToolbarView {
                    repo_name: String::from_str("Choose repository"),
                    branch_name: String::from_str("No branch"),
                    ahead: 0,
                    behind: 0,
                    network_action: action,
                    network_label: label,
                    last_fetched: None,
                }
            },
        }
    }

    /// Works out what the workspace shows.
    pub fn workspace_view(&self) -> (res: WorkspaceView<'_>)
        ensures
            opt_diffs(res.diffs) == self.diffs_in_view(),
            opt_str(match res.selected_file { Some(f) => Some(*f), None => None }) == opt_str(self.file_in_view()),
            match self.file_in_view() {
                Some(f) => match res.selected_diff {
                    Some(d) => find_diff(self.diffs_in_view(), f@) == Some(*d),
                    None => find_diff(self.diffs_in_view(), f@) is None,
                },
                None => res.selected_diff is None,
            },
            res.show_file_list == (self.nav.sidebar_tab == SidebarTab::History && self.diffs_in_view().len() > 0),
    {
        let (diffs, selected) = match self.nav.sidebar_tab {
            SidebarTab::Changes => {
                let d = match &self.repo.snapshot {
                    Some(s) => Some(&s.diffs),
                    None => None,
                };
                (d, self.selection.selected_change.as_ref())
            },
            SidebarTab::History => (self.selection.commit_diffs.as_ref(), self.selection.selected_commit_file.as_ref()),
        };
        let selected_diff = match (diffs, selected) {
            (Some(d), Some(f)) => find_diff_exec(d, f),
            _ => None,
        };
        let count = match diffs {
            Some(d) => d.len(),
            None => 0,
        };
        let show_file_list = match self.nav.sidebar_tab {
            SidebarTab::History => count > 0,
            SidebarTab::Changes => false,
        };
        WorkspaceView { diffs, selected_file: selected, selected_diff, show_file_list }
    }

    /// The message the workspace shows in place of a diff, or none when it
    /// shows the diff's lines.
    pub open spec fn spec_workspace_message(selected_file: Option<&str>, diff: Option<&DiffEntry>) -> Option<Seq<char>> {
        match selected_file {
            None => Some("Select a file to view its diff"@),
            Some(_) => match diff {
                Some(d) => if d.is_binary {
                    Some("Binary file changed."@)
                } else if trimmed(d.diff@).len() == 0 {
                    Some("No diff text available."@)
                } else {
                    None
                },
                None => Some("No diff available for this file."@),
            },
        }
    }

    /// Chooses what the workspace shows for the selected file and its diff:
    /// a message, or (none) the diff's lines.
    pub fn workspace_message(selected_file: Option<&str>, diff: Option<&DiffEntry>) -> (res: Option<String>)
        ensures
            opt_str(res) == Self::spec_workspace_message(selected_file, diff),
    {
        match selected_file {
            None => Some(String::from_str("Select a file to view its diff")),
            Some(_) => match diff {
                Some(d) => {
                    if d.is_binary {
                        Some(String::from_str("Binary file changed."))
                    } else if is_blank_str(d.diff.as_str()) {
                        Some(String::from_str("No diff text available."))
                    } else {
                        None
                    }
                },
                None => Some(String::from_str("No diff available for this file.")),
            },
        }
    }

    /// The label of the commit button: "Commit to " and the current branch,
    /// or "main" without a repository.
    pub fn commit_button_label(&self) -> (res: String)
        ensures
            res@ == "Commit to "@ + (match self.repo.snapshot {
                Some(s) => s.repo.current_branch@,
                None => "main"@,
            }),
    {
        match &self.repo.snapshot {
            Some(s) => concat2("Commit to ", s.repo.current_branch.as_str()),
            None => concat2("Commit to ", "main"),
        }
    }
}

impl GitSparkApp {
    /// Shows a page of the settings overlay; only the page changes.
    pub fn select_settings_section(&mut self, section: SettingsSection)
        ensures
            *final(self) == (GitSparkApp { nav: NavState { settings_section: section, ..old(self).nav }, ..*old(self) }),
    {
        self.nav.settings_section = section;
    }
}

/// Adopting a snapshot keeps the selected commit when the new history still
/// holds a commit with its id; only when it does not (or none was selected)
/// does the newest commit become selected, and none when the history is
/// empty. The diff of the commit selected afterwards is asked for last.
pub proof fn law_adopting_keeps_the_selected_commit(s: GitSparkApp, new: GitSparkApp, loaded: LoadedRepo, effects: Seq<AppEffect>)
    requires
        s.adopted_core(new, loaded, effects),
    ensures
        ({
            let h = loaded.snapshot.history@;
            let kept = s.selection.selected_commit matches Some(o) && exists|i: int|
                0 <= i < h.len() && #[trigger] h[i].oid@ == o@;
            &&& kept ==> opt_str(new.selection.selected_commit) == opt_str(s.selection.selected_commit)
            &&& !kept && h.len() > 0 ==> opt_str(new.selection.selected_commit) == Some(h[0].oid@)
            &&& !kept && h.len() == 0 ==> new.selection.selected_commit is None
            &&& new.selection.selected_commit matches Some(o) ==> effects.len() > 0
                && is_load_commit_diff(effects.last(), loaded.snapshot.repo.path@, o@)
        }),
{
    let path = loaded.snapshot.repo.path@;
    let h = loaded.snapshot.history@;
    let next = next_selected_commit(opt_str(s.selection.selected_commit), h);
    let already = choose|already: bool|
        #[trigger] watch_answer(s.watched_repo_path, path, already) && s.watch_step(new, path, next, effects, already);
    assert(watch_answer(s.watched_repo_path, path, already) && s.watch_step(new, path, next, effects, already));
    if let Some(o) = s.selection.selected_commit {
        if exists|i: int| 0 <= i < h.len() && #[trigger] h[i].oid@ == o@ {
            let i = choose|i: int| 0 <= i < h.len() && #[trigger] h[i].oid@ == o@;
            assert(history_has(h, o@));
        }
    }
}

proof fn lemma_merge_candidate(branches: Seq<BranchInfo>)
    ensures
        (exists|i: int|
            0 <= i < branches.len() && !(#[trigger] branches[i]).is_current && !branches[i].is_remote
                && (forall|j: int| 0 <= j < i ==> (#[trigger] branches[j]).is_current || branches[j].is_remote)
                && merge_candidate(branches) == branches[i].name@)
        || ((forall|j: int| 0 <= j < branches.len() ==> (#[trigger] branches[j]).is_current || branches[j].is_remote)
            && merge_candidate(branches) == Seq::<char>::empty()),
    decreases branches.len(),
{
    if branches.len() > 0 {
        let rest = branches.drop_first();
        lemma_merge_candidate(rest);
        if !branches[0].is_current && !branches[0].is_remote {
            assert(forall|j: int| 0 <= j < 0 ==> (#[trigger] branches[j]).is_current || branches[j].is_remote);
        } else if exists|i: int|
            0 <= i < rest.len() && !(#[trigger] rest[i]).is_current && !rest[i].is_remote
                && (forall|j: int| 0 <= j < i ==> (#[trigger] rest[j]).is_current || rest[j].is_remote)
                && merge_candidate(rest) == rest[i].name@ {
            let i = choose|i: int|
                0 <= i < rest.len() && !(#[trigger] rest[i]).is_current && !rest[i].is_remote
                    && (forall|j: int| 0 <= j < i ==> (#[trigger] rest[j]).is_current || rest[j].is_remote)
                    && merge_candidate(rest) == rest[i].name@;
            assert(branches[i + 1] == rest[i]);
            assert forall|j: int| 0 <= j < i + 1 implies (#[trigger] branches[j]).is_current || branches[j].is_remote by {
                if j > 0 {
                    assert(branches[j] == rest[j - 1]);
                }
            }
        } else {
            assert forall|j: int| 0 <= j < branches.len() implies (#[trigger] branches[j]).is_current || branches[j].is_remote by {
                if j > 0 {
                    assert(branches[j] == rest[j - 1]);
                }
            }
        }
    }
}

/// Adopting a snapshot selects its first changed file (none when nothing
/// changed), targets its current branch for checkout, and offers as merge
/// source the first branch that is neither the current one nor a remote
/// one, or nothing when there is none.
pub proof fn law_adopting_selects_first_change_and_merge_source(
    s: GitSparkApp,
    new: GitSparkApp,
    loaded: LoadedRepo,
    effects: Seq<AppEffect>,
)
    requires
        s.adopted_core(new, loaded, effects),
    ensures
        ({
            let snap = loaded.snapshot;
            let br = snap.branches@;
            &&& snap.changes@.len() > 0 ==> opt_str(new.selection.selected_change) == Some(snap.changes@[0].path@)
            &&& snap.changes@.len() == 0 ==> new.selection.selected_change is None
            &&& new.repo.branch_target@ == snap.repo.current_branch@
            &&& (exists|i: int|
                0 <= i < br.len() && !(#[trigger] br[i]).is_current && !br[i].is_remote
                    && (forall|j: int| 0 <= j < i ==> (#[trigger] br[j]).is_current || br[j].is_remote)
                    && new.repo.merge_target@ == br[i].name@)
                || ((forall|j: int| 0 <= j < br.len() ==> (#[trigger] br[j]).is_current || br[j].is_remote)
                    && new.repo.merge_target@ == Seq::<char>::empty())
        }),
{
    lemma_merge_candidate(loaded.snapshot.branches@);
}

/// A new watch ends the earlier watcher: when adopting a snapshot starts
/// watching its path, the new watcher's token is the generation afterwards,
/// which differs from the generation before, so the watcher that ran until
/// then stops; when the path is already watched (compared as paths), the
/// generation and so the running watcher stay.
pub proof fn law_new_watch_ends_the_earlier(s: GitSparkApp, new: GitSparkApp, loaded: LoadedRepo, effects: Seq<AppEffect>)
    requires
        s.adopted_core(new, loaded, effects),
    ensures
        effects.len() > 0 && effects[0] is WatchRepo ==> {
            &&& watcher_runs(new, effects[0]->token)
            &&& !watcher_runs(new, s.repo_watch_generation)
        },
        !(effects.len() > 0 && effects[0] is WatchRepo) ==> new.repo_watch_generation == s.repo_watch_generation,
{
    let path = loaded.snapshot.repo.path@;
    let next = next_selected_commit(opt_str(s.selection.selected_commit), loaded.snapshot.history@);
    let already = choose|already: bool|
        #[trigger] watch_answer(s.watched_repo_path, path, already) && s.watch_step(new, path, next, effects, already);
    assert(watch_answer(s.watched_repo_path, path, already) && s.watch_step(new, path, next, effects, already));
    if !already {
        assert(is_watch(effects[0], path, new.repo_watch_generation));
    } else if next is Some {
        assert(is_load_commit_diff(effects[0], path, next.unwrap()));
    }
}

/// Every finished background job leaves both text cursors on character
/// boundaries of their fields (given, for an AI suggestion, texts whose byte
/// length fits in `usize`).
pub proof fn law_events_keep_cursors(s: GitSparkApp, new: GitSparkApp, event: AppEvent, effects: Seq<AppEffect>)
    requires
        s.cursors_ok(),
        s.after_event(new, event, effects),
        event matches AppEvent::AiCommitGenerated(Ok(sug)) ==> byte_len(sug.subject@) <= usize::MAX
            && byte_len(sug.body@) <= usize::MAX,
    ensures
        new.cursors_ok(),
{
    lemma_boundary_ends(new.commit.summary@);
    lemma_boundary_ends(new.commit.body@);
}

} // verus!
