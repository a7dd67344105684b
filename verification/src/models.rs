//! Plain data that the Git and AI backends hand to the user interface.
use vstd::prelude::*;

verus! {

/// Identity and metadata of an opened repository.
pub struct RepoInfo {
    pub name: String,
    pub path: String,
    pub current_branch: String,
    pub ahead: usize,
    pub behind: usize,
    pub remote_name: Option<String>,
    pub last_fetched: Option<String>,
}

/// One changed file in the working tree, with its porcelain status code.
pub struct ChangeEntry {
    pub path: String,
    pub status: String,
}

impl Clone for ChangeEntry {
    fn clone(&self) -> (res: Self)
        ensures
            res == *self,
    {
        ChangeEntry { path: self.path.clone(), status: self.status.clone() }
    }
}

/// A local or remote branch.
pub struct BranchInfo {
    pub name: String,
    pub is_current: bool,
    pub is_remote: bool,
}

/// The unified diff of one file.
pub struct DiffEntry {
    pub path: String,
    pub diff: String,
    pub is_binary: bool,
}

impl Clone for DiffEntry {
    fn clone(&self) -> (res: Self)
        ensures
            res == *self,
    {
        DiffEntry { path: self.path.clone(), diff: self.diff.clone(), is_binary: self.is_binary }
    }
}

/// One commit of the history list.
pub struct CommitInfo {
    pub oid: String,
    pub short_oid: String,
    pub summary: String,
    pub author_name: String,
    pub date: String,
    pub is_head: bool,
    pub tags: Vec<String>,
}

/// Everything the interface shows about a repository at one moment.
pub struct RepoSnapshot {
    pub repo: RepoInfo,
    pub changes: Vec<ChangeEntry>,
    pub branches: Vec<BranchInfo>,
    pub diffs: Vec<DiffEntry>,
    pub history: Vec<CommitInfo>,
}

/// A commit message proposed by the AI backend.
pub struct CommitSuggestion {
    pub subject: String,
    pub body: String,
}

impl Clone for CommitSuggestion {
    fn clone(&self) -> (res: Self)
        ensures
            res == *self,
    {
        CommitSuggestion { subject: self.subject.clone(), body: self.body.clone() }
    }
}

/// The repository-local Git identity settings.
pub struct GitIdentity {
    pub user_name: String,
    pub user_email: String,
    pub default_branch: Option<String>,
    pub pull_rebase: Option<bool>,
}

impl GitIdentity {
    /// True of the identity with nothing set.
    pub open spec fn is_unset(self) -> bool {
        &&& self.user_name@ == Seq::<char>::empty()
        &&& self.user_email@ == Seq::<char>::empty()
        &&& self.default_branch is None
        &&& self.pull_rebase is None
    }

    /// The identity with nothing set.
    pub fn unset() -> (res: GitIdentity)
        ensures
            res.is_unset(),
    {
        GitIdentity {
            user_name: String::new(),
            user_email: String::new(),
            default_branch: None,
            pull_rebase: None,
        }
    }
}

impl Clone for GitIdentity {
    fn clone(&self) -> (res: Self)
        ensures
            res == *self,
    {
        let default_branch = match &self.default_branch {
            Some(b) => Some(b.clone()),
            None => None,
        };
        GitIdentity {
            user_name: self.user_name.clone(),
            user_email: self.user_email.clone(),
            default_branch,
            pull_rebase: self.pull_rebase,
        }
    }
}

/// A model offered by the OpenRouter catalogue.
pub struct RemoteModelOption {
    pub id: String,
    pub name: String,
}

/// The AI backends the client can talk to.
#[derive(Clone, Copy, PartialEq, Eq, Structural, Debug)]
pub enum AiProvider {
    OpenAi,
    OpenRouter,
}

/// AI backend configuration.
pub struct AiSettings {
    pub provider: AiProvider,
    pub endpoint: String,
    pub model: String,
    pub api_key: String,
    pub system_prompt: String,
}

impl Clone for AiSettings {
    fn clone(&self) -> (res: Self)
        ensures
            res == *self,
    {
        AiSettings {
            provider: self.provider,
            endpoint: self.endpoint.clone(),
            model: self.model.clone(),
            api_key: self.api_key.clone(),
            system_prompt: self.system_prompt.clone(),
        }
    }
}

/// Persisted application settings.
pub struct AppSettings {
    pub recent_repos: Vec<String>,
    pub ai: AiSettings,
}

} // verus!
