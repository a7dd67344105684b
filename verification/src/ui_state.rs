//! Navigation, filter and message state of the interface.
use vstd::prelude::*;

use crate::models::RemoteModelOption;

verus! {

/// The two lists of the sidebar.
#[derive(Clone, Copy, PartialEq, Eq, Structural)]
pub enum SidebarTab {
    Changes,
    History,
}

/// The pages of the settings overlay.
#[derive(Clone, Copy, PartialEq, Eq, Structural)]
pub enum SettingsSection {
    Git,
    Ai,
}

/// The main area's tabs.
#[derive(Clone, Copy, PartialEq, Eq, Structural)]
pub enum MainTab {
    Workspace,
}

/// Loading state of the OpenRouter model catalogue.
pub enum OpenRouterModelsState {
    Idle,
    Loading,
    Ready(Vec<RemoteModelOption>),
    Error(String),
}

/// Which tab, overlay and menu is open.
pub struct NavState {
    pub main_tab: MainTab,
    pub sidebar_tab: SidebarTab,
    pub show_settings: bool,
    pub show_repo_selector: bool,
    pub show_branch_selector: bool,
    pub show_network_dropdown: bool,
    pub settings_section: SettingsSection,
}

impl NavState {
    /// The navigation state of a freshly started client.
    pub open spec fn is_initial(self) -> bool {
        &&& self.main_tab == MainTab::Workspace
        &&& self.sidebar_tab == SidebarTab::Changes
        &&& !self.show_settings
        &&& !self.show_repo_selector
        &&& !self.show_branch_selector
        &&& !self.show_network_dropdown
        &&& self.settings_section == SettingsSection::Git
    }
}

impl Default for NavState {
    fn default() -> (res: Self)
        ensures
            res.is_initial(),
    {
        NavState {
            main_tab: MainTab::Workspace,
            sidebar_tab: SidebarTab::Changes,
            show_settings: false,
            show_repo_selector: false,
            show_branch_selector: false,
            show_network_dropdown: false,
            settings_section: SettingsSection::Git,
        }
    }
}

/// Which kinds of changed files the change list is narrowed to.
#[derive(Clone, Copy)]
pub struct ChangeFilterOptions {
    pub included_in_commit: bool,
    pub excluded_from_commit: bool,
    pub new_files: bool,
    pub modified_files: bool,
    pub deleted_files: bool,
}

/// 1 for a set flag, 0 otherwise.
pub open spec fn flag_count(b: bool) -> nat {
    if b {
        1
    } else {
        0
    }
}

impl ChangeFilterOptions {
    /// The number of filters that are switched on.
    pub open spec fn spec_active_count(self) -> nat {
        flag_count(self.included_in_commit) + flag_count(self.excluded_from_commit) + flag_count(
            self.new_files,
        ) + flag_count(self.modified_files) + flag_count(self.deleted_files)
    }

    /// All filters off.
    pub fn none() -> (res: Self)
        ensures
            res.spec_active_count() == 0,
            !res.included_in_commit && !res.excluded_from_commit && !res.new_files
                && !res.modified_files && !res.deleted_files,
    {
        ChangeFilterOptions {
            included_in_commit: false,
            excluded_from_commit: false,
            new_files: false,
            modified_files: false,
            deleted_files: false,
        }
    }

    /// Counts the filters that are switched on.
    pub fn active_count(self) -> (n: usize)
        ensures
            n == self.spec_active_count(),
            n <= 5,
    {
        let flags = [
            self.included_in_commit,
            self.excluded_from_commit,
            self.new_files,
            self.modified_files,
            self.deleted_files,
        ];
        let mut n: usize = 0;
        let mut i: usize = 0;
        while i < 5
            invariant
                0 <= i <= 5,
                flags@ == seq![
                    self.included_in_commit,
                    self.excluded_from_commit,
                    self.new_files,
                    self.modified_files,
                    self.deleted_files,
                ],
                n <= i,
                n == (if i >= 1 { flag_count(self.included_in_commit) } else { 0 }) + (if i >= 2 {
                    flag_count(self.excluded_from_commit)
                } else {
                    0
                }) + (if i >= 3 { flag_count(self.new_files) } else { 0 }) + (if i >= 4 {
                    flag_count(self.modified_files)
                } else {
                    0
                }) + (if i >= 5 { flag_count(self.deleted_files) } else { 0 }),
            decreases 5 - i,
        {
            if flags[i] {
                n = n + 1;
            }
            i = i + 1;
        }
        n
    }
}

impl Default for ChangeFilterOptions {
    fn default() -> (res: Self)
        ensures
            res.spec_active_count() == 0,
    {
        ChangeFilterOptions::none()
    }
}

/// Text filters and the model catalogue state.
pub struct FilterState {
    pub filter_text: String,
    pub change_filters: ChangeFilterOptions,
    pub repo_filter_text: String,
    pub openrouter_model_filter: String,
    pub openrouter_models: OpenRouterModelsState,
}

impl Default for FilterState {
    fn default() -> (res: Self)
        ensures
            res.filter_text@ == Seq::<char>::empty(),
            res.change_filters.spec_active_count() == 0,
            res.repo_filter_text@ == Seq::<char>::empty(),
            res.openrouter_model_filter@ == Seq::<char>::empty(),
            res.openrouter_models is Idle,
    {
        FilterState {
            filter_text: String::new(),
            change_filters: ChangeFilterOptions::none(),
            repo_filter_text: String::new(),
            openrouter_model_filter: String::new(),
            openrouter_models: OpenRouterModelsState::Idle,
        }
    }
}

/// The status line's two messages; a non-empty error is shown in place of the status.
pub struct MessageState {
    pub status_message: String,
    pub error_message: String,
}

impl MessageState {
    /// Builds the messages from a status text and an error text.
    pub fn new(status: &str, error: String) -> (res: Self)
        ensures
            res.status_message@ == status@,
            res.error_message == error,
    {
        MessageState { status_message: String::from_str(status), error_message: error }
    }
}

impl Default for MessageState {
    fn default() -> (res: Self)
        ensures
            res.status_message@ == "Open a repository to get started."@,
            res.error_message@ == Seq::<char>::empty(),
    {
        MessageState::new("Open a repository to get started.", String::new())
    }
}

} // verus!
