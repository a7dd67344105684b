//! Repository, commit, network and selection state.
use vstd::prelude::*;

use crate::models::{CommitSuggestion, DiffEntry, GitIdentity, RepoSnapshot};

verus! {

/// The remote operation offered by the toolbar's network button.
#[derive(Clone, Copy, PartialEq, Eq, Structural)]
pub enum NetworkAction {
    Fetch,
    Pull,
    Push,
}

impl NetworkAction {
    /// Pull when behind the remote, else push when ahead, else fetch.
    pub open spec fn spec_from_counts(ahead: usize, behind: usize) -> NetworkAction {
        if behind > 0 {
            NetworkAction::Pull
        } else if ahead > 0 {
            NetworkAction::Push
        } else {
            NetworkAction::Fetch
        }
    }

    /// The verb that names the action.
    pub open spec fn spec_verb(self) -> Seq<char> {
        match self {
            NetworkAction::Fetch => "Fetch "@,
            NetworkAction::Pull => "Pull "@,
            NetworkAction::Push => "Push "@,
        }
    }

    /// The verb that names the action while it runs.
    pub open spec fn spec_pending_verb(self) -> Seq<char> {
        match self {
            NetworkAction::Fetch => "Fetching "@,
            NetworkAction::Pull => "Pulling "@,
            NetworkAction::Push => "Pushing "@,
        }
    }

    /// The icon that names the action.
    pub open spec fn spec_icon_name(self) -> Seq<char> {
        match self {
            NetworkAction::Fetch => "arrow-clockwise"@,
            NetworkAction::Pull => "arrow-down"@,
            NetworkAction::Push => "arrow-up"@,
        }
    }

    /// Picks the action that the snapshot's ahead/behind counts call for.
    pub fn from_snapshot(snapshot: &RepoSnapshot) -> (res: Self)
        ensures
            res == Self::spec_from_counts(snapshot.repo.ahead, snapshot.repo.behind),
    {
        if snapshot.repo.behind > 0 {
            NetworkAction::Pull
        } else if snapshot.repo.ahead > 0 {
            NetworkAction::Push
        } else {
            NetworkAction::Fetch
        }
    }

    /// "Fetch origin", "Pull origin" or "Push origin" for the given remote.
    pub fn title(self, remote_name: &str) -> (res: String)
        ensures
            res@ == self.spec_verb() + remote_name@,
    {
        let mut s = match self {
            NetworkAction::Fetch => String::from_str("Fetch "),
            NetworkAction::Pull => String::from_str("Pull "),
            NetworkAction::Push => String::from_str("Push "),
        };
        s.append(remote_name);
        s
    }

    /// "Fetching origin" and the like, while the action runs.
    pub fn pending_title(self, remote_name: &str) -> (res: String)
        ensures
            res@ == self.spec_pending_verb() + remote_name@,
    {
        let mut s = match self {
            NetworkAction::Fetch => String::from_str("Fetching "),
            NetworkAction::Pull => String::from_str("Pulling "),
            NetworkAction::Push => String::from_str("Pushing "),
        };
        s.append(remote_name);
        s
    }

    /// The name of the icon drawn beside the action.
    pub fn icon_name(self) -> (res: &'static str)
        ensures
            res@ == self.spec_icon_name(),
    {
        match self {
            NetworkAction::Fetch => "arrow-clockwise",
            NetworkAction::Pull => "arrow-down",
            NetworkAction::Push => "arrow-up",
        }
    }
}

/// The open repository and the branch targets chosen for it.
pub struct RepoState {
    pub snapshot: Option<RepoSnapshot>,
    pub identity: GitIdentity,
    pub branch_target: String,
    pub merge_target: String,
}

impl Default for RepoState {
    fn default() -> (res: Self)
        ensures
            res.snapshot is None,
            res.identity.is_unset(),
            res.branch_target@ == Seq::<char>::empty(),
            res.merge_target@ == Seq::<char>::empty(),
    {
        RepoState {
            snapshot: None,
            identity: GitIdentity::unset(),
            branch_target: String::new(),
            merge_target: String::new(),
        }
    }
}

/// The commit form.
pub struct CommitState {
    pub summary: String,
    pub body: String,
    pub ai_preview: Option<CommitSuggestion>,
    pub ai_in_flight: bool,
}

impl Default for CommitState {
    fn default() -> (res: Self)
        ensures
            res.summary@ == Seq::<char>::empty(),
            res.body@ == Seq::<char>::empty(),
            res.ai_preview is None,
            !res.ai_in_flight,
    {
        CommitState {
            summary: String::new(),
            body: String::new(),
            ai_preview: None,
            ai_in_flight: false,
        }
    }
}

/// The remote operation that is running, if any.
pub struct NetworkState {
    pub active_action: Option<NetworkAction>,
}

impl Default for NetworkState {
    fn default() -> (res: Self)
        ensures
            res.active_action is None,
    {
        NetworkState { active_action: None }
    }
}

/// The selected change, commit and commit file.
pub struct SelectionState {
    pub selected_change: Option<String>,
    pub selected_commit: Option<String>,
    pub selected_commit_file: Option<String>,
    pub commit_diffs: Option<Vec<DiffEntry>>,
}

impl Default for SelectionState {
    fn default() -> (res: Self)
        ensures
            res.selected_change is None,
            res.selected_commit is None,
            res.selected_commit_file is None,
            res.commit_diffs is None,
    {
        SelectionState {
            selected_change: None,
            selected_commit: None,
            selected_commit_file: None,
            commit_diffs: None,
        }
    }
}

} // verus!
