//! The inputs of the reusable views (commit panel, diff viewer, history
//! list, buttons) and what those views show for them.
use vstd::prelude::*;

use crate::labels::{
    history_meta, history_summary, spec_commit_footer, spec_history_meta, spec_history_summary,
    spec_stash_label, spec_truncate, stash_label, truncate, truncate_commit_footer,
};
use crate::models::{CommitInfo, CommitSuggestion, DiffEntry};
use crate::text::{concat2, is_blank_str, trimmed};

verus! {

/// The kinds of buttons.
#[derive(Clone, Copy, PartialEq, Eq, Structural, Debug)]
pub enum ButtonVariant {
    Primary,
    Secondary,
    Danger,
    Ghosted,
    Icon,
}

/// The theme colour a button is filled with.
#[derive(Clone, Copy, PartialEq, Eq, Structural, Debug)]
pub enum FillRole {
    AccentMuted,
    Surface,
    Danger,
    Transparent,
}

/// The outline of a button.
#[derive(Clone, Copy, PartialEq, Eq, Structural, Debug)]
pub enum StrokeRole {
    NoStroke,
    Border,
}

/// The theme colour of a button's label.
#[derive(Clone, Copy, PartialEq, Eq, Structural, Debug)]
pub enum TextRole {
    White,
    Main,
}

impl ButtonVariant {
    /// The fill: accent for primary, surface for secondary, danger for
    /// danger, none for ghosted and icon buttons.
    pub fn fill(self) -> (res: FillRole)
        ensures
            res == (match self {
                ButtonVariant::Primary => FillRole::AccentMuted,
                ButtonVariant::Secondary => FillRole::Surface,
                ButtonVariant::Danger => FillRole::Danger,
                ButtonVariant::Ghosted | ButtonVariant::Icon => FillRole::Transparent,
            }),
    {
        match self {
            ButtonVariant::Primary => FillRole::AccentMuted,
            ButtonVariant::Secondary => FillRole::Surface,
            ButtonVariant::Danger => FillRole::Danger,
            ButtonVariant::Ghosted | ButtonVariant::Icon => FillRole::Transparent,
        }
    }

    /// The outline: only secondary buttons have a border.
    pub fn stroke(self) -> (res: StrokeRole)
        ensures
            res == (if self == ButtonVariant::Secondary { StrokeRole::Border } else { StrokeRole::NoStroke }),
    {
        match self {
            ButtonVariant::Primary | ButtonVariant::Ghosted | ButtonVariant::Icon => StrokeRole::NoStroke,
            ButtonVariant::Secondary => StrokeRole::Border,
            ButtonVariant::Danger => StrokeRole::NoStroke,
        }
    }

    /// The label colour: white on primary and danger buttons, else the main text colour.
    pub fn text_color(self) -> (res: TextRole)
        ensures
            res == (if self == ButtonVariant::Primary || self == ButtonVariant::Danger {
                TextRole::White
            } else {
                TextRole::Main
            }),
    {
        match self {
            ButtonVariant::Primary | ButtonVariant::Danger => TextRole::White,
            ButtonVariant::Secondary | ButtonVariant::Ghosted => TextRole::Main,
            ButtonVariant::Icon => TextRole::Main,
        }
    }
}

/// What the commit panel asks for.
#[derive(Clone, Copy, PartialEq, Eq, Structural, Debug)]
pub enum CommitPanelAction {
    GenerateAiCommit,
    ShowSettings,
    CommitAll,
}

/// The inputs of the commit panel. The panel edits the summary and the
/// description in place.
pub struct CommitPanelProps<'a> {
    pub summary: &'a mut String,
    pub body: &'a mut String,
    pub ai_in_flight: bool,
    pub ai_preview: Option<&'a CommitSuggestion>,
    pub branch_label: &'a str,
    pub stash_count: usize,
    pub avatar_letter: &'a str,
}

/// What the commit panel reports after a frame.
pub struct CommitPanelOutput {
    pub action: Option<CommitPanelAction>,
}

/// The controls of the commit panel that were clicked in a frame.
#[derive(Clone, Copy, PartialEq, Eq, Structural, Debug)]
pub struct CommitPanelClicks {
    /// The "Generate with AI" button, which is there only while no
    /// generation is running.
    pub generate: bool,
    /// The "Commit settings" button.
    pub settings: bool,
    /// The "Commit to ..." button.
    pub commit: bool,
}

/// The action a frame of the commit panel reports: the commit button wins
/// over the settings button, which wins over generating with AI; the AI
/// button counts only while no generation is running.
pub open spec fn spec_panel_action(ai_in_flight: bool, clicks: CommitPanelClicks) -> Option<CommitPanelAction> {
    if clicks.commit {
        Some(CommitPanelAction::CommitAll)
    } else if clicks.settings {
        Some(CommitPanelAction::ShowSettings)
    } else if clicks.generate && !ai_in_flight {
        Some(CommitPanelAction::GenerateAiCommit)
    } else {
        None
    }
}

/// The texts of the commit panel.
pub struct CommitPanelTexts {
    /// "AI: " and the subject of the preview, when there is one.
    pub ai_preview: Option<String>,
    /// The stash row's label, when there are stashes.
    pub stash: Option<String>,
    /// "Commit to " and the branch.
    pub commit_button: String,
    /// The summary under the commit button.
    pub footer: String,
}

impl<'a> CommitPanelProps<'a> {
    /// What the panel reports after a frame in which `clicks` were clicked.
    pub fn output(&self, clicks: CommitPanelClicks) -> (res: CommitPanelOutput)
        ensures
            res.action == spec_panel_action(self.ai_in_flight, clicks),
    {
        let mut action: Option<CommitPanelAction> = None;
        if !self.ai_in_flight && clicks.generate {
            action = Some(CommitPanelAction::GenerateAiCommit);
        }
        if clicks.settings {
            action = Some(CommitPanelAction::ShowSettings);
        }
        if clicks.commit {
            action = Some(CommitPanelAction::CommitAll);
        }
        CommitPanelOutput { action }
    }

    /// Works out the texts that the commit panel shows.
    pub fn texts(&self) -> (res: CommitPanelTexts)
        ensures
            match self.ai_preview {
                Some(p) => res.ai_preview matches Some(t) && t@ == "AI: "@ + p.subject@,
                None => res.ai_preview is None,
            },
            match spec_stash_label(self.stash_count as nat) {
                Some(l) => res.stash matches Some(t) && t@ == l,
                None => res.stash is None,
            },
            res.commit_button@ == "Commit to "@ + self.branch_label@,
            res.footer@ == spec_commit_footer(old(self.summary)@),
    {
        let ai_preview = match self.ai_preview {
            Some(p) => Some(concat2("AI: ", p.subject.as_str())),
            None => None,
        };
        CommitPanelTexts {
            ai_preview,
            stash: stash_label(self.stash_count),
            commit_button: concat2("Commit to ", self.branch_label),
            footer: truncate_commit_footer(self.summary.as_str()),
        }
    }
}

/// The inputs of the diff viewer.
pub struct DiffViewerProps<'a> {
    pub selected_change: Option<&'a str>,
    pub selected_diff: Option<&'a DiffEntry>,
}

/// What the diff viewer shows.
#[derive(Clone, Copy, PartialEq, Eq, Structural, Debug)]
pub enum DiffViewerContent {
    /// "No file selected".
    NoFileSelected,
    /// "Binary file changed.".
    Binary,
    /// "No diff text available.".
    NoText,
    /// The diff text itself.
    Text,
    /// "No diff available for this file.".
    Missing,
}

impl<'a> DiffViewerProps<'a> {
    /// Chooses what the diff viewer shows.
    pub fn content(&self) -> (res: DiffViewerContent)
        ensures
            res == (match self.selected_change {
                None => DiffViewerContent::NoFileSelected,
                Some(_) => match self.selected_diff {
                    Some(d) => if d.is_binary {
                        DiffViewerContent::Binary
                    } else if trimmed(d.diff@).len() == 0 {
                        DiffViewerContent::NoText
                    } else {
                        DiffViewerContent::Text
                    },
                    None => DiffViewerContent::Missing,
                },
            }),
    {
        match self.selected_change {
            None => DiffViewerContent::NoFileSelected,
            Some(_) => match self.selected_diff {
                Some(d) => {
                    if d.is_binary {
                        DiffViewerContent::Binary
                    } else if is_blank_str(d.diff.as_str()) {
                        DiffViewerContent::NoText
                    } else {
                        DiffViewerContent::Text
                    }
                },
                None => DiffViewerContent::Missing,
            },
        }
    }
}

/// The inputs of the history list.
pub struct HistoryListProps<'a> {
    pub history: &'a [CommitInfo],
    pub selected_commit: Option<&'a str>,
}

/// The texts of one history row.
pub struct HistoryRowTexts {
    pub summary: String,
    pub meta: String,
    pub is_selected: bool,
}

/// The summary of a history row: the trimmed summary (or a placeholder),
/// cut to 54 characters.
pub open spec fn spec_history_row_summary(c: CommitInfo) -> Seq<char> {
    spec_truncate(spec_history_summary(c.summary@), 54)
}

/// The meta line of a history row, cut to 72 characters.
pub open spec fn spec_history_row_meta(c: CommitInfo) -> Seq<char> {
    spec_truncate(spec_history_meta(c), 72)
}

/// True when the row's commit is the selected one.
pub open spec fn spec_is_selected(selected: Option<&str>, c: CommitInfo) -> bool {
    match selected {
        Some(s) => s@ == c.oid@,
        None => false,
    }
}

/// Works out the texts of a history row.
pub fn history_row_texts(commit: &CommitInfo, selected: Option<&str>) -> (res: HistoryRowTexts)
    ensures
        res.summary@ == spec_history_row_summary(*commit),
        res.meta@ == spec_history_row_meta(*commit),
        res.is_selected == spec_is_selected(selected, *commit),
{
    let summary = history_summary(commit);
    let meta = history_meta(commit);
    let is_selected = match selected {
        Some(s) => {
            let a = String::from_str(s);
            a == commit.oid
        },
        None => false,
    };
    HistoryRowTexts {
        summary: truncate(summary.as_str(), 54),
        meta: truncate(meta.as_str(), 72),
        is_selected,
    }
}

impl<'a> HistoryListProps<'a> {
    /// Works out the texts of every row, in history order.
    pub fn rows(&self) -> (res: Vec<HistoryRowTexts>)
        ensures
            res@.len() == self.history@.len(),
            forall|i: int|
                0 <= i < res@.len() ==> {
                    &&& (#[trigger] res@[i]).summary@ == spec_history_row_summary(self.history@[i])
                    &&& res@[i].meta@ == spec_history_row_meta(self.history@[i])
                    &&& res@[i].is_selected == spec_is_selected(self.selected_commit, self.history@[i])
                },
    {
        let mut rows: Vec<HistoryRowTexts> = Vec::new();
        let mut i: usize = 0;
        while i < self.history.len()
            invariant
                i <= self.history@.len(),
                rows@.len() == i,
                forall|j: int|
                    0 <= j < i ==> {
                        &&& (#[trigger] rows@[j]).summary@ == spec_history_row_summary(self.history@[j])
                        &&& rows@[j].meta@ == spec_history_row_meta(self.history@[j])
                        &&& rows@[j].is_selected == spec_is_selected(self.selected_commit, self.history@[j])
                    },
            decreases self.history@.len() - i,
        {
            rows.push(history_row_texts(&self.history[i], self.selected_commit));
            i = i + 1;
        }
        rows
    }

    /// The commit whose row was clicked in a frame, given which rows were
    /// clicked (one flag per row): the last clicked row wins.
    pub fn clicked_oid(&self, clicked: &Vec<bool>) -> (res: Option<String>)
        requires
            clicked@.len() == self.history@.len(),
        ensures
            last_true(clicked@) < 0 ==> res is None,
            last_true(clicked@) >= 0 ==> (res matches Some(o) && o@ == self.history@[last_true(clicked@)].oid@),
    {
        let mut res: Option<String> = None;
        let mut i: usize = 0;
        while i < clicked.len()
            invariant
                i <= clicked@.len(),
                clicked@.len() == self.history@.len(),
                last_true(clicked@.take(i as int)) < 0 ==> res is None,
                last_true(clicked@.take(i as int)) >= 0 ==> (res matches Some(o) && o@
                    == self.history@[last_true(clicked@.take(i as int))].oid@),
            decreases clicked@.len() - i,
        {
            proof {
                assert(clicked@.take(i as int + 1).drop_last() =~= clicked@.take(i as int));
                lemma_last_true(clicked@.take(i as int));
            }
            if clicked[i] {
                res = Some(self.history[i].oid.clone());
            }
            i = i + 1;
        }
        proof {
            assert(clicked@.take(i as int) =~= clicked@);
        }
        res
    }
}

/// The position of the last `true` flag, or -1.
pub open spec fn last_true(flags: Seq<bool>) -> int
    decreases flags.len(),
{
    if flags.len() == 0 {
        -1
    } else if flags.last() {
        flags.len() - 1
    } else {
        last_true(flags.drop_last())
    }
}

proof fn lemma_last_true(flags: Seq<bool>)
    ensures
        -1 <= last_true(flags) < flags.len(),
    decreases flags.len(),
{
    if flags.len() > 0 {
        lemma_last_true(flags.drop_last());
    }
}

/// The icons bundled with the application, found by path.
pub struct AppAssets;

/// The asset source of the window: the bundled icons first, then those of
/// the component library.
pub struct CombinedAssets;

/// The paths of `paths` that start with `prefix`, in order.
pub open spec fn paths_under(paths: Seq<Seq<char>>, prefix: Seq<char>) -> Seq<Seq<char>>
    decreases paths.len(),
{
    if paths.len() == 0 {
        paths
    } else if crate::text::has_prefix(paths.last(), prefix) {
        paths_under(paths.drop_last(), prefix).push(paths.last())
    } else {
        paths_under(paths.drop_last(), prefix)
    }
}

impl CombinedAssets {
    /// The data of an asset: the bundled file when there is one, else what the
    /// component library gives.
    pub fn load(bundled: Option<Vec<u8>>, library: Result<Option<Vec<u8>>, String>) -> (res: Result<Option<Vec<u8>>, String>)
        ensures
            match bundled {
                Some(d) => res == Ok::<Option<Vec<u8>>, String>(Some(d)),
                None => res == library,
            },
    {
        match bundled {
            Some(data) => Ok(Some(data)),
            None => library,
        }
    }

    /// The asset paths under `prefix`: the bundled ones that start with it,
    /// in order, then those the component library lists; its failure is
    /// passed on.
    pub fn list(bundled: &Vec<String>, prefix: &str, library: Result<Vec<String>, String>) -> (res: Result<Vec<String>, String>)
        ensures
            match library {
                Ok(l) => res matches Ok(v) && crate::app::path_views(v@) == paths_under(
                    crate::app::path_views(bundled@),
                    prefix@,
                ) + crate::app::path_views(l@),
                Err(e) => res == Err::<Vec<String>, String>(e),
            },
    {
        let pre = crate::text::chars_of(prefix);
        let mut items: Vec<String> = Vec::new();
        let ghost all = crate::app::path_views(bundled@);
        let mut i: usize = 0;
        while i < bundled.len()
            invariant
                i <= bundled@.len(),
                all == crate::app::path_views(bundled@),
                pre@ == prefix@,
                crate::app::path_views(items@) == paths_under(all.take(i as int), prefix@),
            decreases bundled@.len() - i,
        {
            proof {
                assert(all.take(i + 1).drop_last() =~= all.take(i as int));
                assert(all.take(i + 1).last() == bundled@[i as int]@);
            }
            let p = crate::text::chars_of(bundled[i].as_str());
            let ghost before = items@;
            if crate::text::starts_with(p.as_slice(), pre.as_slice()) {
                items.push(bundled[i].clone());
                assert(crate::app::path_views(items@) =~= crate::app::path_views(before).push(bundled@[i as int]@));
            }
            i = i + 1;
        }
        assert(all.take(all.len() as int) =~= all);
        match library {
            Ok(mut more) => {
                let ghost first = items@;
                let ghost rest = more@;
                items.append(&mut more);
                assert(crate::app::path_views(items@) =~= crate::app::path_views(first) + crate::app::path_views(rest));
                Ok(items)
            },
            Err(e) => Err(e),
        }
    }
}

} // verus!
