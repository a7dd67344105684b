//! The texts and tones that the views show for repository data.
use vstd::prelude::*;

use crate::models::{BranchInfo, CommitInfo};
use crate::text::{
    ascii_lower, ascii_lowercase, is_space, leading_space, occurs_at, trailing_space, chars_of, concat2, concat3, contains_chars, contains_seq, decimal,
    decimal_string, has_prefix, starts_with, string_of, to_ascii_lowercase, trim_chars, trimmed,
};

verus! {

/// Whether a changed file's path passes the text filter: the trimmed filter
/// is empty, or it occurs in the path, ASCII letters compared without case.
pub open spec fn spec_matches_filter(filter: Seq<char>, path: Seq<char>) -> bool {
    let f = trimmed(filter);
    f.len() == 0 || contains_seq(ascii_lowercase(path), ascii_lowercase(f))
}

/// ASCII lower-case letters mapped to upper case, other characters unchanged.
pub open spec fn ascii_upper(c: char) -> char {
    if 'a' <= c <= 'z' {
        ((c as u32) - 32) as char
    } else {
        c
    }
}

/// `s` with ASCII letters in upper case.
pub open spec fn ascii_uppercase(s: Seq<char>) -> Seq<char> {
    s.map_values(|c: char| ascii_upper(c))
}

proof fn lemma_upper_char(c: char)
    ensures
        ascii_lower(ascii_upper(c)) == ascii_lower(c),
        is_space(ascii_upper(c)) == is_space(c),
{
    if 'a' <= c <= 'z' {
        let u = ascii_upper(c);
        assert(u as u32 == (c as u32) - 32);
        assert('A' <= u <= 'Z');
        assert(ascii_lower(u) as u32 == c as u32);
    }
}

proof fn lemma_upper_spaces(s: Seq<char>)
    ensures
        leading_space(ascii_uppercase(s)) == leading_space(s),
        trailing_space(ascii_uppercase(s)) == trailing_space(s),
    decreases s.len(),
{
    if s.len() > 0 {
        lemma_upper_char(s[0]);
        lemma_upper_char(s.last());
        assert(ascii_uppercase(s).drop_first() =~= ascii_uppercase(s.drop_first()));
        assert(ascii_uppercase(s).drop_last() =~= ascii_uppercase(s.drop_last()));
        lemma_upper_spaces(s.drop_first());
        lemma_upper_spaces(s.drop_last());
    }
}

proof fn lemma_upper_lower(s: Seq<char>)
    ensures
        ascii_lowercase(ascii_uppercase(s)) == ascii_lowercase(s),
        trimmed(ascii_uppercase(s)) == ascii_uppercase(trimmed(s)),
{
    assert forall|i: int| 0 <= i < s.len() implies ascii_lowercase(ascii_uppercase(s))[i] == ascii_lowercase(s)[i] by {
        lemma_upper_char(s[i]);
    }
    assert(ascii_lowercase(ascii_uppercase(s)) =~= ascii_lowercase(s));
    lemma_upper_spaces(s);
    let a = leading_space(s);
    crate::text::lemma_leading_space_bound(s);
    let rest = s.skip(a as int);
    assert(ascii_uppercase(s).skip(a as int) =~= ascii_uppercase(rest));
    lemma_upper_spaces(rest);
    crate::text::lemma_trailing_space_bound(rest);
    assert(trimmed(ascii_uppercase(s)) =~= ascii_uppercase(trimmed(s)));
}

proof fn lemma_lower_keeps_occurrence(hay: Seq<char>, needle: Seq<char>, i: int)
    requires
        occurs_at(hay, needle, i),
    ensures
        occurs_at(ascii_lowercase(hay), ascii_lowercase(needle), i),
{
    assert(ascii_lowercase(hay).subrange(i, i + needle.len()) =~= ascii_lowercase(needle));
}

/// The change list's filter ignores ASCII case on both sides: a path passes
/// a filter exactly when it passes with its ASCII letters in upper case, and
/// exactly when it passes the filter with its ASCII letters in upper case;
/// and a path in which the trimmed filter occurs as it is always passes.
pub proof fn law_filter_ignores_ascii_case(filter: Seq<char>, path: Seq<char>)
    ensures
        spec_matches_filter(filter, ascii_uppercase(path)) == spec_matches_filter(filter, path),
        spec_matches_filter(ascii_uppercase(filter), path) == spec_matches_filter(filter, path),
        contains_seq(path, trimmed(filter)) ==> spec_matches_filter(filter, path),
{
    lemma_upper_lower(path);
    lemma_upper_lower(filter);
    lemma_upper_lower(trimmed(filter));
    assert(trimmed(ascii_uppercase(filter)).len() == trimmed(filter).len());
    if contains_seq(path, trimmed(filter)) {
        let i = choose|i: int| occurs_at(path, trimmed(filter), i);
        lemma_lower_keeps_occurrence(path, trimmed(filter), i);
    }
}

/// Tests a path against the change list's text filter.
pub fn matches_filter(filter: &str, path: &str) -> (res: bool)
    ensures
        res == spec_matches_filter(filter@, path@),
{
    let f = chars_of(filter);
    let f = trim_chars(f.as_slice());
    if f.len() == 0 {
        return true;
    }
    let p = chars_of(path);
    let lp = to_ascii_lowercase(p.as_slice());
    let lf = to_ascii_lowercase(f.as_slice());
    contains_chars(lp.as_slice(), lf.as_slice())
}

/// The colour role of a status badge.
#[derive(Clone, Copy, PartialEq, Eq, Structural, Debug)]
pub enum StatusTone {
    Success,
    Warning,
    Danger,
    Muted,
}

/// Untracked or added files are a success, modified ones a warning, deleted or
/// conflicted ones a danger.
pub open spec fn spec_status_tone(status: Seq<char>) -> StatusTone {
    if status.contains('?') || status.contains('A') {
        StatusTone::Success
    } else if status.contains('M') {
        StatusTone::Warning
    } else if status.contains('D') || status.contains('U') {
        StatusTone::Danger
    } else {
        StatusTone::Muted
    }
}

fn has_char(s: &[char], c: char) -> (res: bool)
    ensures
        res == s@.contains(c),
{
    let mut i: usize = 0;
    while i < s.len()
        invariant
            i <= s@.len(),
            forall|j: int| 0 <= j < i ==> s@[j] != c,
        decreases s@.len() - i,
    {
        if s[i] == c {
            return true;
        }
        i = i + 1;
    }
    false
}

/// The colour role of a change's status code.
pub fn status_color(status: &str) -> (res: StatusTone)
    ensures
        res == spec_status_tone(status@),
{
    let s = chars_of(status);
    if has_char(s.as_slice(), '?') || has_char(s.as_slice(), 'A') {
        StatusTone::Success
    } else if has_char(s.as_slice(), 'M') {
        StatusTone::Warning
    } else if has_char(s.as_slice(), 'D') || has_char(s.as_slice(), 'U') {
        StatusTone::Danger
    } else {
        StatusTone::Muted
    }
}

/// The symbol drawn in a change's status badge.
pub open spec fn spec_status_symbol(status: Seq<char>) -> Seq<char> {
    if status.contains('?') || status.contains('A') {
        "+"@
    } else if status.contains('M') {
        "●"@
    } else if status.contains('D') {
        "−"@
    } else if status.contains('U') {
        "!"@
    } else {
        "•"@
    }
}

/// The symbol of a change's status code.
pub fn status_symbol(status: &str) -> (res: &'static str)
    ensures
        res@ == spec_status_symbol(status@),
{
    let s = chars_of(status);
    if has_char(s.as_slice(), '?') || has_char(s.as_slice(), 'A') {
        "+"
    } else if has_char(s.as_slice(), 'M') {
        "●"
    } else if has_char(s.as_slice(), 'D') {
        "−"
    } else if has_char(s.as_slice(), 'U') {
        "!"
    } else {
        "•"
    }
}

/// The one-letter label of a change's status code.
pub open spec fn spec_status_label(status: Seq<char>) -> Seq<char> {
    if status.contains('?') || status.contains('A') {
        "A"@
    } else if status.contains('M') {
        "M"@
    } else if status.contains('D') {
        "D"@
    } else if status.contains('U') {
        "U"@
    } else {
        "?"@
    }
}

/// The label of a change's status code.
pub fn status_label(status: &str) -> (res: &'static str)
    ensures
        res@ == spec_status_label(status@),
{
    let s = chars_of(status);
    if has_char(s.as_slice(), '?') || has_char(s.as_slice(), 'A') {
        "A"
    } else if has_char(s.as_slice(), 'M') {
        "M"
    } else if has_char(s.as_slice(), 'D') {
        "D"
    } else if has_char(s.as_slice(), 'U') {
        "U"
    } else {
        "?"
    }
}

/// The colour role of a status tag.
#[derive(Clone, Copy, PartialEq, Eq, Structural, Debug)]
pub enum TagTone {
    Success,
    Warning,
    Danger,
    Secondary,
}

/// The tag colour of a status label.
pub open spec fn spec_status_tag_tone(label: Seq<char>) -> TagTone {
    if label == "A"@ {
        TagTone::Success
    } else if label == "M"@ {
        TagTone::Warning
    } else if label == "D"@ {
        TagTone::Danger
    } else {
        TagTone::Secondary
    }
}

/// Chooses the colour of a status tag.
pub fn status_tag_tone(label: &str) -> (res: TagTone)
    ensures
        res == spec_status_tag_tone(label@),
{
    let l = String::from_str(label);
    if l == String::from_str("A") {
        TagTone::Success
    } else if l == String::from_str("M") {
        TagTone::Warning
    } else if l == String::from_str("D") {
        TagTone::Danger
    } else {
        TagTone::Secondary
    }
}

/// `input` shortened to `max_chars` characters by an ellipsis in the middle:
/// the first half, "…", and as many final characters as fit.
pub open spec fn spec_truncate_middle(input: Seq<char>, max_chars: nat) -> Seq<char> {
    if input.len() <= max_chars {
        input
    } else {
        let head = max_chars / 2;
        let tail: nat = if head + 1 <= max_chars { (max_chars - (head + 1)) as nat } else { 0 };
        let start: int = if tail <= input.len() { input.len() - tail } else { 0 };
        input.take(head as int) + "…"@ + input.skip(start)
    }
}

/// Shortens a path in the middle.
pub fn truncate_middle(input: &str, max_chars: usize) -> (res: String)
    ensures
        res@ == spec_truncate_middle(input@, max_chars as nat),
{
    let chars = chars_of(input);
    if chars.len() <= max_chars {
        return String::from_str(input);
    }
    let head = max_chars / 2;
    let tail = max_chars.saturating_sub(head + 1);
    let start = chars.len().saturating_sub(tail);
    let first = string_of(&chars.as_slice()[0..head]);
    let last = string_of(&chars.as_slice()[start..chars.len()]);
    assert(chars@.subrange(0, head as int) =~= chars@.take(head as int));
    assert(chars@.subrange(start as int, chars@.len() as int) =~= chars@.skip(start as int));
    concat3(first.as_str(), "…", last.as_str())
}

/// `text` trimmed and cut to `max_chars` characters, with "..." when cut.
pub open spec fn spec_truncate(text: Seq<char>, max_chars: nat) -> Seq<char> {
    let t = trimmed(text);
    if t.len() > max_chars {
        t.take(max_chars as int) + "..."@
    } else {
        t
    }
}

/// Trims a text and cuts it to `max_chars` characters.
pub fn truncate(text: &str, max_chars: usize) -> (res: String)
    ensures
        res@ == spec_truncate(text@, max_chars as nat),
{
    let c = chars_of(text);
    let t = trim_chars(c.as_slice());
    if t.len() > max_chars {
        let s = string_of(&t.as_slice()[0..max_chars]);
        assert(t@.subrange(0, max_chars as int) =~= t@.take(max_chars as int));
        concat2(s.as_str(), "...")
    } else {
        string_of(t.as_slice())
    }
}

/// The last commit's summary under the commit button: cut to 34 characters,
/// or a placeholder when empty.
pub open spec fn spec_commit_footer(summary: Seq<char>) -> Seq<char> {
    if trimmed(summary).len() == 0 {
        "No commit message yet"@
    } else {
        spec_truncate(summary, 34)
    }
}

/// The text under the commit button.
pub fn truncate_commit_footer(summary: &str) -> (res: String)
    ensures
        res@ == spec_commit_footer(summary@),
{
    let c = chars_of(summary);
    let t = trim_chars(c.as_slice());
    if t.len() == 0 {
        return String::from_str("No commit message yet");
    }
    truncate(summary, 34)
}

/// A branch's name with " (current)" and " [remote]" markers.
pub open spec fn spec_branch_label(branch: BranchInfo) -> Seq<char> {
    branch.name@ + (if branch.is_current { " (current)"@ } else { Seq::<char>::empty() }) + (if branch.is_remote {
        " [remote]"@
    } else {
        Seq::<char>::empty()
    })
}

/// The label of a branch in the branch picker.
pub fn branch_label(branch: &BranchInfo) -> (res: String)
    ensures
        res@ == spec_branch_label(*branch),
{
    let mut label = branch.name.clone();
    if branch.is_current {
        label.append(" (current)");
    }
    if branch.is_remote {
        label.append(" [remote]");
    }
    proof {
        assert(Seq::<char>::empty() + Seq::<char>::empty() =~= Seq::<char>::empty());
        assert(branch.name@ + Seq::<char>::empty() =~= branch.name@);
        assert(branch.name@ + " (current)"@ + Seq::<char>::empty() =~= branch.name@ + " (current)"@);
        assert(branch.name@ + Seq::<char>::empty() + " [remote]"@ =~= branch.name@ + " [remote]"@);
        assert(branch.name@ + Seq::<char>::empty() + Seq::<char>::empty() =~= branch.name@);
    }
    label
}

/// The summary line of a history row: the trimmed summary, or a placeholder.
pub open spec fn spec_history_summary(summary: Seq<char>) -> Seq<char> {
    if trimmed(summary).len() == 0 {
        "Empty commit message"@
    } else {
        trimmed(summary)
    }
}

/// The summary shown for a commit in the history list.
pub fn history_summary(commit: &CommitInfo) -> (res: String)
    ensures
        res@ == spec_history_summary(commit.summary@),
{
    let c = chars_of(commit.summary.as_str());
    let t = trim_chars(c.as_slice());
    if t.len() == 0 {
        String::from_str("Empty commit message")
    } else {
        string_of(t.as_slice())
    }
}

/// The meta line of a history row: "HEAD" for the head commit, then the short
/// id, the author and the date, separated by " • ".
pub open spec fn spec_history_meta(commit: CommitInfo) -> Seq<char> {
    let rest = commit.short_oid@ + " • "@ + commit.author_name@ + " • "@ + commit.date@;
    if commit.is_head {
        "HEAD"@ + " • "@ + rest
    } else {
        rest
    }
}

/// The meta line of a commit in the history list.
pub fn history_meta(commit: &CommitInfo) -> (res: String)
    ensures
        res@ == spec_history_meta(*commit),
{
    let mut s = if commit.is_head {
        String::from_str("HEAD • ")
    } else {
        String::new()
    };
    s.append(commit.short_oid.as_str());
    s.append(" • ");
    s.append(commit.author_name.as_str());
    s.append(" • ");
    s.append(commit.date.as_str());
    proof {
        reveal_strlit("HEAD • ");
        reveal_strlit("HEAD");
        reveal_strlit(" • ");
        assert("HEAD • "@ =~= "HEAD"@ + " • "@);
    }
    s
}

/// The meta line of a sidebar history row: author and date.
pub fn history_row_meta(commit: &CommitInfo) -> (res: String)
    ensures
        res@ == commit.author_name@ + " · "@ + commit.date@,
{
    concat3(commit.author_name.as_str(), " · ", commit.date.as_str())
}

/// The label of the stash row: none without stashes, a count from two on.
pub open spec fn spec_stash_label(count: nat) -> Option<Seq<char>> {
    if count == 0 {
        None
    } else if count == 1 {
        Some("▸ Stashed Changes"@)
    } else {
        Some("▸ Stashed Changes ("@ + decimal(count) + ")"@)
    }
}

/// The label of the stash row.
pub fn stash_label(stash_count: usize) -> (res: Option<String>)
    ensures
        match res {
            Some(s) => spec_stash_label(stash_count as nat) == Some(s@),
            None => spec_stash_label(stash_count as nat) is None,
        },
{
    if stash_count == 0 {
        None
    } else if stash_count == 1 {
        Some(String::from_str("▸ Stashed Changes"))
    } else {
        let n = decimal_string(stash_count);
        Some(concat3("▸ Stashed Changes (", n.as_str(), ")"))
    }
}

/// The text of a count badge; none for zero.
pub fn count_badge_text(count: usize) -> (res: Option<String>)
    ensures
        count == 0 ==> res is None,
        count > 0 ==> (res matches Some(s) && s@ == decimal(count as nat)),
{
    if count == 0 {
        None
    } else {
        Some(decimal_string(count))
    }
}

/// "N changed files".
pub fn changed_files_label(count: usize) -> (res: String)
    ensures
        res@ == decimal(count as nat) + " changed files"@,
{
    let n = decimal_string(count);
    concat2(n.as_str(), " changed files")
}

/// The text and tone of the status bar: the error when there is one, else the status.
pub fn status_bar_text(status_message: &str, error_message: &str) -> (res: (String, bool))
    ensures
        error_message@.len() > 0 ==> res.0@ == error_message@ && res.1,
        error_message@.len() == 0 ==> res.0@ == status_message@ && !res.1,
{
    if !error_message.is_empty() {
        (String::from_str(error_message), true)
    } else {
        (String::from_str(status_message), false)
    }
}

/// A settings value as shown: "(not set)" when empty.
pub fn settings_display_value(value: &str) -> (res: String)
    ensures
        value@.len() == 0 ==> res@ == "(not set)"@,
        value@.len() > 0 ==> res@ == value@,
{
    if value.is_empty() {
        String::from_str("(not set)")
    } else {
        String::from_str(value)
    }
}

/// The icons of the toolbar.
#[derive(Clone, Copy, PartialEq, Eq, Structural, Debug)]
pub enum ToolbarIcon {
    ArrowUp,
    ArrowDown,
    Loader,
    LoaderCircle,
    ChevronUp,
    ChevronDown,
}

/// The icon that hints at a network label's action.
pub open spec fn spec_network_icon(label: Seq<char>) -> ToolbarIcon {
    let lower = ascii_lowercase(label);
    if has_prefix(lower, "push"@) {
        ToolbarIcon::ArrowUp
    } else if has_prefix(lower, "pull"@) {
        ToolbarIcon::ArrowDown
    } else {
        ToolbarIcon::Loader
    }
}

/// Picks the icon of the network button from its label.
pub fn network_icon_for_label(label: &str) -> (res: ToolbarIcon)
    ensures
        res == spec_network_icon(label@),
{
    let c = chars_of(label);
    let lower = to_ascii_lowercase(c.as_slice());
    let push = chars_of("push");
    let pull = chars_of("pull");
    if starts_with(lower.as_slice(), push.as_slice()) {
        ToolbarIcon::ArrowUp
    } else if starts_with(lower.as_slice(), pull.as_slice()) {
        ToolbarIcon::ArrowDown
    } else {
        ToolbarIcon::Loader
    }
}

/// How a toolbar section is drawn: on the active background exactly while
/// its dropdown is open, with a spinner while busy, else a caret pointing up
/// while open and down while closed.
pub struct SectionLook {
    pub active_background: bool,
    pub caret: ToolbarIcon,
}

/// Works out how a toolbar section is drawn.
pub fn section_look(is_open: bool, is_in_progress: bool) -> (res: SectionLook)
    ensures
        res.active_background == is_open,
        is_in_progress ==> res.caret == ToolbarIcon::LoaderCircle,
        !is_in_progress && is_open ==> res.caret == ToolbarIcon::ChevronUp,
        !is_in_progress && !is_open ==> res.caret == ToolbarIcon::ChevronDown,
{
    let caret = if is_in_progress {
        ToolbarIcon::LoaderCircle
    } else if is_open {
        ToolbarIcon::ChevronUp
    } else {
        ToolbarIcon::ChevronDown
    };
    SectionLook { active_background: is_open, caret }
}

/// The texts of the network button: when it was last fetched, and the
/// ahead and behind badges ("2↑", "1↓") when they are not zero; its icon;
/// and its caret zone, on the active background with the caret up exactly
/// while the dropdown is shown.
pub struct NetworkParts {
    pub description: String,
    pub ahead_badge: Option<String>,
    pub behind_badge: Option<String>,
    pub icon: ToolbarIcon,
    pub caret_active: bool,
    pub caret: ToolbarIcon,
}

/// Works out the texts and icon of the network button.
pub fn network_parts(
    action_label: &str,
    ahead: usize,
    behind: usize,
    last_fetched: Option<&str>,
    is_in_flight: bool,
    show_dropdown: bool,
) -> (res: NetworkParts)
    ensures
        match last_fetched {
            Some(v) => res.description@ == "Last fetched "@ + v@,
            None => res.description@ == "Never fetched"@,
        },
        ahead == 0 ==> res.ahead_badge is None,
        ahead > 0 ==> (res.ahead_badge matches Some(s) && s@ == decimal(ahead as nat) + "↑"@),
        behind == 0 ==> res.behind_badge is None,
        behind > 0 ==> (res.behind_badge matches Some(s) && s@ == decimal(behind as nat) + "↓"@),
        res.icon == (if is_in_flight { ToolbarIcon::LoaderCircle } else { spec_network_icon(action_label@) }),
        res.caret_active == show_dropdown,
        res.caret == (if show_dropdown { ToolbarIcon::ChevronUp } else { ToolbarIcon::ChevronDown }),
{
    let description = match last_fetched {
        Some(v) => concat2("Last fetched ", v),
        None => String::from_str("Never fetched"),
    };
    let ahead_badge = if ahead > 0 {
        let n = decimal_string(ahead);
        Some(concat2(n.as_str(), "↑"))
    } else {
        None
    };
    let behind_badge = if behind > 0 {
        let n = decimal_string(behind);
        Some(concat2(n.as_str(), "↓"))
    } else {
        None
    };
    let icon = if is_in_flight {
        ToolbarIcon::LoaderCircle
    } else {
        network_icon_for_label(action_label)
    };
    let caret = if show_dropdown {
        ToolbarIcon::ChevronUp
    } else {
        ToolbarIcon::ChevronDown
    };
    NetworkParts { description, ahead_badge, behind_badge, icon, caret_active: show_dropdown, caret }
}


/// Shortening a text that is longer than the limit, for a limit of at least
/// one character, gives exactly `max_chars` characters: the first half of
/// the limit from the start, the ellipsis, and the rest from the end.
pub proof fn law_truncate_middle_length(input: Seq<char>, max_chars: nat)
    requires
        input.len() > max_chars,
        max_chars >= 1,
    ensures
        spec_truncate_middle(input, max_chars).len() == max_chars,
        spec_truncate_middle(input, max_chars).take((max_chars / 2) as int) == input.take((max_chars / 2) as int),
        spec_truncate_middle(input, max_chars).skip((max_chars / 2) as int + 1) == input.skip(
            input.len() - (max_chars - (max_chars / 2) - 1),
        ),
{
    reveal_strlit("…");
    let head = max_chars / 2;
    let r = spec_truncate_middle(input, max_chars);
    assert(head + 1 <= max_chars);
    assert("…"@.len() == 1);
    assert(r.take(head as int) =~= input.take(head as int));
    assert(r.skip(head as int + 1) =~= input.skip(input.len() - (max_chars - head - 1)));
}

} // verus!
