//! Parsing of unified diffs into numbered, classified lines, with paired
//! delete/add blocks shown as modified lines carrying intra-line highlights.
use vstd::prelude::*;

use crate::text::{
    chars_of, find_chars, first_occurrence, has_prefix, lines_of, occurs_at, parse_usize,
    parsed_usize, split_lines, starts_with, string_of,
};

verus! {

/// Lines longer than this get no intra-line highlight.
pub const MAX_INTRA_LINE_CHARS: usize = 1024;

/// A span of character positions, `start` inclusive, `end` exclusive.
#[derive(Clone, Copy, PartialEq, Eq, Structural, Debug)]
pub struct CharRange {
    pub start: usize,
    pub end: usize,
}

/// The length of the longest common prefix of `a` and `b`.
pub open spec fn common_prefix_len(a: Seq<char>, b: Seq<char>) -> nat
    decreases a.len(),
{
    if a.len() > 0 && b.len() > 0 && a[0] == b[0] {
        1 + common_prefix_len(a.drop_first(), b.drop_first())
    } else {
        0
    }
}

/// The `i`-th character of `s` counted from its end, starting at 0.
pub open spec fn rev_at(s: Seq<char>, i: int) -> char {
    s[s.len() - 1 - i]
}

/// The length of the longest common suffix of `a` and `b`.
pub open spec fn common_suffix_len(a: Seq<char>, b: Seq<char>) -> nat
    decreases a.len(),
{
    if a.len() > 0 && b.len() > 0 && a.last() == b.last() {
        1 + common_suffix_len(a.drop_last(), b.drop_last())
    } else {
        0
    }
}

/// Where the changed span of the pair starts: after the common prefix.
pub open spec fn change_start(a: Seq<char>, b: Seq<char>) -> nat {
    common_prefix_len(a, b)
}

/// The length of the common suffix that lies after the common prefix.
pub open spec fn change_suffix(a: Seq<char>, b: Seq<char>) -> nat {
    let p = change_start(a, b) as int;
    common_suffix_len(a.skip(p), b.skip(p))
}

/// The changed span of `s`, if it is not empty.
pub open spec fn change_range(s: Seq<char>, start: nat, suffix: nat) -> Option<CharRange> {
    if start < s.len() - suffix {
        Some(CharRange { start: start as usize, end: (s.len() - suffix) as usize })
    } else {
        None
    }
}

/// The changed spans of an old and a new line: what remains of each after the
/// longest common prefix and then the longest common suffix are taken off; no
/// spans when either line is longer than `MAX_INTRA_LINE_CHARS`.
pub open spec fn changed_ranges(a: Seq<char>, b: Seq<char>) -> (
    Option<CharRange>,
    Option<CharRange>,
) {
    if a.len() > MAX_INTRA_LINE_CHARS || b.len() > MAX_INTRA_LINE_CHARS {
        (None, None)
    } else {
        let p = change_start(a, b);
        let s = change_suffix(a, b);
        (change_range(a, p, s), change_range(b, p, s))
    }
}

proof fn lemma_common_prefix_skip(a: Seq<char>, b: Seq<char>, k: int)
    requires
        0 <= k <= a.len(),
        k <= b.len(),
        forall|i: int| 0 <= i < k ==> a[i] == b[i],
    ensures
        common_prefix_len(a, b) == k + common_prefix_len(a.skip(k), b.skip(k)),
    decreases k,
{
    if k > 0 {
        assert(a.drop_first().skip(k - 1) =~= a.skip(k));
        assert(b.drop_first().skip(k - 1) =~= b.skip(k));
        lemma_common_prefix_skip(a.drop_first(), b.drop_first(), k - 1);
    } else {
        assert(a.skip(0) =~= a);
        assert(b.skip(0) =~= b);
    }
}

proof fn lemma_common_suffix_take(a: Seq<char>, b: Seq<char>, k: int)
    requires
        0 <= k <= a.len(),
        k <= b.len(),
        forall|i: int| 0 <= i < k ==> #[trigger] rev_at(a, i) == rev_at(b, i),
    ensures
        common_suffix_len(a, b) == k + common_suffix_len(
            a.take(a.len() - k),
            b.take(b.len() - k),
        ),
    decreases k,
{
    if k > 0 {
        assert(a.drop_last().take(a.len() - k) =~= a.take(a.len() - k));
        assert(b.drop_last().take(b.len() - k) =~= b.take(b.len() - k));
        assert forall|i: int| 0 <= i < k - 1 implies #[trigger] rev_at(a.drop_last(), i)
            == rev_at(b.drop_last(), i) by {
            assert(rev_at(a.drop_last(), i) == rev_at(a, i + 1));
            assert(rev_at(b.drop_last(), i) == rev_at(b, i + 1));
        }
        assert(a.last() == b.last()) by {
            assert(rev_at(a, 0) == rev_at(b, 0));
        }
        lemma_common_suffix_take(a.drop_last(), b.drop_last(), k - 1);
    } else {
        assert(a.take(a.len() as int) =~= a);
        assert(b.take(b.len() as int) =~= b);
    }
}

/// Finds the changed character spans of an old and a new line.
pub fn find_changed_ranges_chars(old_chars: &[char], new_chars: &[char]) -> (res: (
    Option<CharRange>,
    Option<CharRange>,
))
    ensures
        res == changed_ranges(old_chars@, new_chars@),
{
    let a = old_chars;
    let b = new_chars;
    if a.len() > MAX_INTRA_LINE_CHARS || b.len() > MAX_INTRA_LINE_CHARS {
        return (None, None);
    }
    let mut prefix: usize = 0;
    while prefix < a.len() && prefix < b.len() && a[prefix] == b[prefix]
        invariant
            prefix <= a.len(),
            prefix <= b.len(),
            forall|i: int| 0 <= i < prefix ==> a@[i] == b@[i],
        decreases a.len() - prefix,
    {
        prefix = prefix + 1;
    }
    proof {
        lemma_common_prefix_skip(a@, b@, prefix as int);
        if prefix < a.len() && prefix < b.len() {
            assert(a@.skip(prefix as int)[0] == a@[prefix as int]);
            assert(b@.skip(prefix as int)[0] == b@[prefix as int]);
        }
    }
    let ghost a2 = a@.skip(prefix as int);
    let ghost b2 = b@.skip(prefix as int);
    let mut suffix: usize = 0;
    while suffix < a.len() - prefix && suffix < b.len() - prefix && a[a.len() - 1 - suffix]
        == b[b.len() - 1 - suffix]
        invariant
            prefix <= a.len(),
            prefix <= b.len(),
            a2 == a@.skip(prefix as int),
            b2 == b@.skip(prefix as int),
            suffix <= a.len() - prefix,
            suffix <= b.len() - prefix,
            forall|i: int| 0 <= i < suffix ==> #[trigger] rev_at(a2, i) == rev_at(b2, i),
        decreases a.len() - suffix,
    {
        assert(rev_at(a2, suffix as int) == a@[a.len() - 1 - suffix]);
        assert(rev_at(b2, suffix as int) == b@[b.len() - 1 - suffix]);
        suffix = suffix + 1;
    }
    proof {
        lemma_common_suffix_take(a2, b2, suffix as int);
        let ta = a2.take(a2.len() - suffix);
        let tb = b2.take(b2.len() - suffix);
        if suffix < a.len() - prefix && suffix < b.len() - prefix {
            assert(ta.last() == a@[a.len() - 1 - suffix]);
            assert(tb.last() == b@[b.len() - 1 - suffix]);
        }
    }
    let old_end = a.len() - suffix;
    let new_end = b.len() - suffix;
    let old_range = if prefix < old_end {
        Some(CharRange { start: prefix, end: old_end })
    } else {
        None
    };
    let new_range = if prefix < new_end {
        Some(CharRange { start: prefix, end: new_end })
    } else {
        None
    };
    (old_range, new_range)
}

/// Finds the character spans that differ between an old and a new line.
///
/// Returns `(old_range, new_range)` where each range marks the changed
/// character span. If a line is too long, returns `(None, None)`.
pub fn find_changed_ranges(old_line: &str, new_line: &str) -> (res: (
    Option<CharRange>,
    Option<CharRange>,
))
    ensures
        res == changed_ranges(old_line@, new_line@),
{
    let a = chars_of(old_line);
    let b = chars_of(new_line);
    find_changed_ranges_chars(a.as_slice(), b.as_slice())
}

pub proof fn lemma_common_prefix_facts(a: Seq<char>, b: Seq<char>)
    ensures
        common_prefix_len(a, b) <= a.len(),
        common_prefix_len(a, b) <= b.len(),
        forall|i: int| 0 <= i < common_prefix_len(a, b) ==> #[trigger] a[i] == b[i],
        common_prefix_len(a, b) < a.len() && common_prefix_len(a, b) < b.len() ==> a[common_prefix_len(a, b) as int]
            != b[common_prefix_len(a, b) as int],
    decreases a.len(),
{
    if a.len() > 0 && b.len() > 0 && a[0] == b[0] {
        lemma_common_prefix_facts(a.drop_first(), b.drop_first());
        assert forall|i: int| 0 <= i < common_prefix_len(a, b) implies #[trigger] a[i] == b[i] by {
            if i > 0 {
                assert(a[i] == a.drop_first()[i - 1]);
                assert(b[i] == b.drop_first()[i - 1]);
            }
        }
    }
}

pub proof fn lemma_common_suffix_facts(a: Seq<char>, b: Seq<char>)
    ensures
        common_suffix_len(a, b) <= a.len(),
        common_suffix_len(a, b) <= b.len(),
        forall|i: int|
            0 <= i < common_suffix_len(a, b) ==> #[trigger] rev_at(a, i) == rev_at(b, i),
    decreases a.len(),
{
    if a.len() > 0 && b.len() > 0 && a.last() == b.last() {
        lemma_common_suffix_facts(a.drop_last(), b.drop_last());
        assert forall|i: int| 0 <= i < common_suffix_len(a, b) implies #[trigger] rev_at(a, i)
            == rev_at(b, i) by {
            if i > 0 {
                assert(rev_at(a, i) == rev_at(a.drop_last(), i - 1));
                assert(rev_at(b, i) == rev_at(b.drop_last(), i - 1));
            }
        }
    }
}

/// Replacing the old line's changed span by the new line's changed span turns
/// the old line into the new one: both lines agree before the spans start and
/// after they end, and when lines short enough to be highlighted have no
/// span, they are equal.
pub proof fn law_changed_ranges_rebuild_new_line(a: Seq<char>, b: Seq<char>)
    ensures
        ({
            let p = change_start(a, b) as int;
            let s = change_suffix(a, b) as int;
            &&& p + s <= a.len()
            &&& p + s <= b.len()
            &&& b == a.take(p) + b.subrange(p, b.len() - s) + a.skip(a.len() - s)
            &&& a == b.take(p) + a.subrange(p, a.len() - s) + b.skip(b.len() - s)
        }),
        a.len() <= MAX_INTRA_LINE_CHARS && b.len() <= MAX_INTRA_LINE_CHARS && changed_ranges(a, b).0 is None
            && changed_ranges(a, b).1 is None ==> a == b,
{
    let p = change_start(a, b) as int;
    let s = change_suffix(a, b) as int;
    lemma_common_prefix_facts(a, b);
    let a2 = a.skip(p);
    let b2 = b.skip(p);
    lemma_common_suffix_facts(a2, b2);
    assert forall|i: int| 0 <= i < s implies rev_at(a, i) == rev_at(b, i) by {
        assert(rev_at(a2, i) == rev_at(b2, i));
    }
    assert(b =~= a.take(p) + b.subrange(p, b.len() - s) + a.skip(a.len() - s)) by {
        assert forall|k: int| 0 <= k < b.len() implies b[k] == (a.take(p) + b.subrange(
            p,
            b.len() - s,
        ) + a.skip(a.len() - s))[k] by {
            if k >= b.len() - s {
                let i = b.len() - 1 - k;
                assert(rev_at(a, i) == rev_at(b, i));
            }
        }
    }
    assert(a =~= b.take(p) + a.subrange(p, a.len() - s) + b.skip(b.len() - s)) by {
        assert forall|k: int| 0 <= k < a.len() implies a[k] == (b.take(p) + a.subrange(
            p,
            a.len() - s,
        ) + b.skip(b.len() - s))[k] by {
            if k >= a.len() - s {
                let i = a.len() - 1 - k;
                assert(rev_at(a, i) == rev_at(b, i));
            }
        }
    }
}

/// How a line of a diff is shown.
#[derive(Clone, Copy, Debug)]
pub enum DiffLineKind {
    Context,
    Added,
    Deleted,
    HunkHeader,
    /// A modified line has paired old/new content with optional intra-line highlights.
    Modified { old_highlight: Option<CharRange>, new_highlight: Option<CharRange> },
}

/// A classified diff line with its line numbers.
pub struct DiffLine {
    pub kind: DiffLineKind,
    pub content: String,
    /// For Modified lines, the new (added) content.
    pub new_content: Option<String>,
    pub old_line: Option<usize>,
    pub new_line: Option<usize>,
}

/// A diff line as the specification speaks of it.
pub struct DiffLineView {
    pub kind: DiffLineKind,
    pub content: Seq<char>,
    pub new_content: Option<Seq<char>>,
    pub old_line: Option<int>,
    pub new_line: Option<int>,
}

/// The number, if any, as a mathematical integer.
pub open spec fn opt_int(n: Option<usize>) -> Option<int> {
    match n {
        Some(v) => Some(v as int),
        None => None,
    }
}

/// The text, if any, as a character sequence.
pub open spec fn opt_view(s: Option<String>) -> Option<Seq<char>> {
    match s {
        Some(v) => Some(v@),
        None => None,
    }
}

impl View for DiffLine {
    type V = DiffLineView;

    open spec fn view(&self) -> DiffLineView {
        DiffLineView {
            kind: self.kind,
            content: self.content@,
            new_content: opt_view(self.new_content),
            old_line: opt_int(self.old_line),
            new_line: opt_int(self.new_line),
        }
    }
}

/// The body lines of a hunk.
#[derive(Clone, Copy, PartialEq, Eq, Structural)]
pub enum RawKind {
    Add,
    Del,
    Ctx,
}

/// A line after the first pass: a hunk header, or a body line with its kind,
/// its text without the marker, and its numbers in the old and new file.
pub struct RawEntry {
    pub is_header: bool,
    pub kind: RawKind,
    pub content: Seq<char>,
    pub old_line: Option<int>,
    pub new_line: Option<int>,
}

/// `s` up to the first `c`, as `s.split(c).next()` gives it.
pub open spec fn before_char(s: Seq<char>, c: char) -> Seq<char> {
    match first_occurrence(s, seq![c]) {
        Some(i) => s.take(i),
        None => s,
    }
}

/// The number that `s` parses to, or 1.
pub open spec fn number_or_one(s: Seq<char>) -> int {
    match parsed_usize(s) {
        Some(v) => v as int,
        None => 1,
    }
}

/// The old and new starting line numbers after a `@@ -a,b +c,d @@` header; a
/// header of another shape leaves the numbers as they were.
pub open spec fn hunk_numbers(line: Seq<char>, old: int, new: int) -> (int, int) {
    if has_prefix(line, seq!['@', '@', ' ', '-']) {
        let rest = line.skip(4);
        match first_occurrence(rest, seq![' ', '+']) {
            Some(i) => {
                let old_part = rest.take(i);
                let new_part = before_char(rest.skip(i + 2), ' ');
                (number_or_one(before_char(old_part, ',')), number_or_one(before_char(new_part, ',')))
            },
            None => (old, new),
        }
    } else {
        (old, new)
    }
}

/// The file header lines of a diff, which are not shown.
pub open spec fn is_meta_line(line: Seq<char>) -> bool {
    ||| has_prefix(line, "diff --git"@)
    ||| has_prefix(line, "index "@)
    ||| has_prefix(line, "+++"@)
    ||| has_prefix(line, "---"@)
}

/// A body line of the given kind.
pub open spec fn body_entry(kind: RawKind, content: Seq<char>, old_line: Option<int>, new_line: Option<int>) -> RawEntry {
    RawEntry { is_header: false, kind, content, old_line, new_line }
}

/// A hunk header line.
pub open spec fn header_entry(text: Seq<char>) -> RawEntry {
    RawEntry { is_header: true, kind: RawKind::Ctx, content: text, old_line: None, new_line: None }
}

/// The first pass over the lines: the entries, and the old and new line
/// counters after the last line.
pub open spec fn first_pass(lines: Seq<Seq<char>>) -> (Seq<RawEntry>, int, int)
    decreases lines.len(),
{
    if lines.len() == 0 {
        (Seq::<RawEntry>::empty(), 0, 0)
    } else {
        let prev = first_pass(lines.drop_last());
        let raw = prev.0;
        let old = prev.1;
        let new = prev.2;
        let line = lines.last();
        if has_prefix(line, seq!['@', '@']) {
            let nums = hunk_numbers(line, old, new);
            (raw.push(header_entry(line)), nums.0, nums.1)
        } else if is_meta_line(line) {
            (raw, old, new)
        } else if has_prefix(line, seq!['+']) {
            (raw.push(body_entry(RawKind::Add, line.skip(1), None, Some(new))), old, new + 1)
        } else if has_prefix(line, seq!['-']) {
            (raw.push(body_entry(RawKind::Del, line.skip(1), Some(old), None)), old + 1, new)
        } else {
            let content = if has_prefix(line, seq![' ']) {
                line.skip(1)
            } else {
                line
            };
            (raw.push(body_entry(RawKind::Ctx, content, Some(old), Some(new))), old + 1, new + 1)
        }
    }
}

/// True when neither line counter passes `usize::MAX` while the lines are read.
pub open spec fn counters_fit(lines: Seq<Seq<char>>) -> bool {
    forall|k: int|
        #![trigger first_pass(lines.take(k))]
        0 <= k <= lines.len() ==> first_pass(lines.take(k)).1 <= usize::MAX
            && first_pass(lines.take(k)).2 <= usize::MAX
}

/// True when the line numbers of the diff text fit in `usize`.
pub open spec fn diff_numbers_fit(raw: Seq<char>) -> bool {
    counters_fit(lines_of(raw))
}

/// The number of body lines of the given kind that `s` begins with.
pub open spec fn leading_count(s: Seq<RawEntry>, kind: RawKind) -> nat
    decreases s.len(),
{
    if s.len() > 0 && !s[0].is_header && s[0].kind == kind {
        1 + leading_count(s.drop_first(), kind)
    } else {
        0
    }
}

pub proof fn lemma_leading_count(s: Seq<RawEntry>, kind: RawKind)
    ensures
        leading_count(s, kind) <= s.len(),
        forall|i: int|
            0 <= i < leading_count(s, kind) ==> !(#[trigger] s[i]).is_header && s[i].kind == kind,
        leading_count(s, kind) < s.len() ==> (s[leading_count(s, kind) as int].is_header
            || s[leading_count(s, kind) as int].kind != kind),
    decreases s.len(),
{
    if s.len() > 0 && !s[0].is_header && s[0].kind == kind {
        lemma_leading_count(s.drop_first(), kind);
        assert forall|i: int| 0 <= i < leading_count(s, kind) implies !(#[trigger] s[i]).is_header
            && s[i].kind == kind by {
            if i > 0 {
                assert(s[i] == s.drop_first()[i - 1]);
            }
        }
    }
}

/// A hunk header shown as it is.
pub open spec fn header_view(e: RawEntry) -> DiffLineView {
    DiffLineView { kind: DiffLineKind::HunkHeader, content: e.content, new_content: None, old_line: None, new_line: None }
}

/// An added line.
pub open spec fn added_view(e: RawEntry) -> DiffLineView {
    DiffLineView { kind: DiffLineKind::Added, content: e.content, new_content: None, old_line: None, new_line: e.new_line }
}

/// A deleted line.
pub open spec fn deleted_view(e: RawEntry) -> DiffLineView {
    DiffLineView { kind: DiffLineKind::Deleted, content: e.content, new_content: None, old_line: e.old_line, new_line: None }
}

/// An unchanged line.
pub open spec fn context_view(e: RawEntry) -> DiffLineView {
    DiffLineView { kind: DiffLineKind::Context, content: e.content, new_content: None, old_line: e.old_line, new_line: e.new_line }
}

/// A deleted line paired with the added line that replaces it.
pub open spec fn modified_view(d: RawEntry, a: RawEntry) -> DiffLineView {
    let r = changed_ranges(d.content, a.content);
    DiffLineView {
        kind: DiffLineKind::Modified { old_highlight: r.0, new_highlight: r.1 },
        content: d.content,
        new_content: Some(a.content),
        old_line: d.old_line,
        new_line: a.new_line,
    }
}

/// The lines shown for a run of `d` deleted lines followed by `a` added
/// lines at the start of `raw`: pairs when the runs are equally long, else
/// the deleted lines and then the added lines.
pub open spec fn change_block(raw: Seq<RawEntry>, d: nat, a: nat) -> Seq<DiffLineView> {
    if d == a {
        Seq::new(d, |j: int| modified_view(raw[j], raw[d + j]))
    } else {
        Seq::new(d, |j: int| deleted_view(raw[j])) + Seq::new(a, |j: int| added_view(raw[d + j]))
    }
}

/// The length of the run of deleted lines at the start of `raw`.
pub open spec fn del_run(raw: Seq<RawEntry>) -> nat {
    leading_count(raw, RawKind::Del)
}

/// The length of the run of added lines that follows the deleted lines.
pub open spec fn add_run(raw: Seq<RawEntry>) -> nat {
    leading_count(raw.skip(del_run(raw) as int), RawKind::Add)
}

/// The second pass: paired delete/add runs become modified lines.
pub open spec fn pair_lines(raw: Seq<RawEntry>) -> Seq<DiffLineView>
    decreases raw.len(),
    via pair_lines_decreases
{
    if raw.len() == 0 {
        Seq::<DiffLineView>::empty()
    } else {
        let e = raw[0];
        if e.is_header {
            seq![header_view(e)] + pair_lines(raw.drop_first())
        } else if e.kind == RawKind::Del {
            let d = del_run(raw);
            let a = add_run(raw);
            change_block(raw, d, a) + pair_lines(raw.skip((d + a) as int))
        } else if e.kind == RawKind::Add {
            seq![added_view(e)] + pair_lines(raw.drop_first())
        } else {
            seq![context_view(e)] + pair_lines(raw.drop_first())
        }
    }
}

#[via_fn]
proof fn pair_lines_decreases(raw: Seq<RawEntry>) {
    if raw.len() > 0 {
        lemma_leading_count(raw, RawKind::Del);
        lemma_leading_count(raw.skip(del_run(raw) as int), RawKind::Add);
        if !raw[0].is_header && raw[0].kind == RawKind::Del {
            assert(del_run(raw) >= 1);
        }
    }
}

/// The classified lines of a unified diff.
pub open spec fn parsed_diff(raw: Seq<char>) -> Seq<DiffLineView> {
    pair_lines(first_pass(lines_of(raw)).0)
}

/// A first-pass line held by the executable code.
struct RawLine {
    is_header: bool,
    kind: RawKind,
    content: Vec<char>,
    old_line: Option<usize>,
    new_line: Option<usize>,
}

impl View for RawLine {
    type V = RawEntry;

    closed spec fn view(&self) -> RawEntry {
        RawEntry {
            is_header: self.is_header,
            kind: self.kind,
            content: self.content@,
            old_line: opt_int(self.old_line),
            new_line: opt_int(self.new_line),
        }
    }
}

/// The views of a vector of diff lines.
pub open spec fn line_views(v: Seq<DiffLine>) -> Seq<DiffLineView> {
    v.map_values(|l: DiffLine| l@)
}


pub fn before_char_exec(s: &[char], c: char) -> (res: Vec<char>)
    ensures
        res@ == before_char(s@, c),
{
    let pat: Vec<char> = vec![c];
    assert(pat@ =~= seq![c]);
    match find_chars(s, pat.as_slice()) {
        Some(i) => {
            let r = vstd::slice::slice_to_vec(&s[0..i]);
            assert(first_occurrence(s@, seq![c]) == Some(i as int)) by {
                let w = choose|k: int| occurs_at(s@, seq![c], k) && forall|j: int| 0 <= j < k ==> !occurs_at(s@, seq![c], j);
                assert(occurs_at(s@, seq![c], i as int));
                if w < i {
                } else if w > i {
                }
            }
            assert(r@ =~= s@.take(i as int));
            r
        },
        None => vstd::slice::slice_to_vec(s),
    }
}

fn number_or_one_exec(s: &[char]) -> (res: usize)
    ensures
        res as int == number_or_one(s@),
{
    match parse_usize(s) {
        Some(v) => v,
        None => 1,
    }
}

fn hunk_numbers_exec(line: &[char], old: usize, new: usize) -> (res: (usize, usize))
    ensures
        res.0 as int == hunk_numbers(line@, old as int, new as int).0,
        res.1 as int == hunk_numbers(line@, old as int, new as int).1,
{
    let marker: Vec<char> = vec!['@', '@', ' ', '-'];
    assert(marker@ =~= seq!['@', '@', ' ', '-']);
    if !starts_with(line, marker.as_slice()) {
        return (old, new);
    }
    let rest = &line[4..line.len()];
    assert(rest@ =~= line@.skip(4));
    let sep: Vec<char> = vec![' ', '+'];
    assert(sep@ =~= seq![' ', '+']);
    match find_chars(rest, sep.as_slice()) {
        Some(i) => {
            assert(first_occurrence(rest@, seq![' ', '+']) == Some(i as int)) by {
                let w = choose|k: int| occurs_at(rest@, seq![' ', '+'], k) && forall|j: int| 0 <= j < k ==> !occurs_at(rest@, seq![' ', '+'], j);
                assert(occurs_at(rest@, seq![' ', '+'], i as int));
                if w < i {
                } else if w > i {
                }
            }
            let old_part = &rest[0..i];
            assert(old_part@ =~= rest@.take(i as int));
            let after = &rest[i + 2..rest.len()];
            assert(after@ =~= rest@.skip(i + 2));
            let new_part = before_char_exec(after, ' ');
            let old_digits = before_char_exec(old_part, ',');
            let new_digits = before_char_exec(new_part.as_slice(), ',');
            (number_or_one_exec(old_digits.as_slice()), number_or_one_exec(new_digits.as_slice()))
        },
        None => (old, new),
    }
}

proof fn lemma_first_pass_step(ls: Seq<Seq<char>>, i: int)
    requires
        0 <= i < ls.len(),
    ensures
        ls.take(i + 1).drop_last() == ls.take(i),
        ls.take(i + 1).last() == ls[i],
        ls.take(i + 1).len() > 0,
{
    assert(ls.take(i + 1).drop_last() =~= ls.take(i));
}

proof fn lemma_leading_count_skip(s: Seq<RawEntry>, kind: RawKind, m: int)
    requires
        0 <= m <= s.len(),
        forall|j: int| 0 <= j < m ==> !(#[trigger] s[j]).is_header && s[j].kind == kind,
    ensures
        leading_count(s, kind) == m + leading_count(s.skip(m), kind),
    decreases m,
{
    if m > 0 {
        assert(s.drop_first().skip(m - 1) =~= s.skip(m));
        assert forall|j: int| 0 <= j < m - 1 implies !(#[trigger] s.drop_first()[j]).is_header
            && s.drop_first()[j].kind == kind by {
            assert(s.drop_first()[j] == s[j + 1]);
        }
        lemma_leading_count_skip(s.drop_first(), kind, m - 1);
    } else {
        assert(s.skip(0) =~= s);
    }
}

fn to_diff_line(e: &RawLine, kind: DiffLineKind) -> (res: DiffLine)
    ensures
        res.kind == kind,
        res.content@ == e.content@,
        res.new_content is None,
        res.old_line is None,
        res.new_line is None,
{
    DiffLine {
        kind,
        content: string_of(e.content.as_slice()),
        new_content: None,
        old_line: None,
        new_line: None,
    }
}

spec fn entry_views(v: Seq<RawLine>) -> Seq<RawEntry> {
    v.map_values(|l: RawLine| l@)
}

spec fn line_seqs(v: Seq<Vec<char>>) -> Seq<Seq<char>> {
    v.map_values(|l: Vec<char>| l@)
}

/// The shown line of an entry that is not a deleted line.
spec fn single_view(e: RawEntry) -> DiffLineView {
    if e.is_header {
        header_view(e)
    } else if e.kind == RawKind::Add {
        added_view(e)
    } else {
        context_view(e)
    }
}

#[verifier::spinoff_prover]
#[verifier::rlimit(50)]
fn first_pass_exec(lines: &Vec<Vec<char>>) -> (res: Option<Vec<RawLine>>)
    ensures
        res is Some <==> counters_fit(line_seqs(lines@)),
        res matches Some(v) ==> entry_views(v@) == first_pass(line_seqs(lines@)).0,
{
    let ghost ls = line_seqs(lines@);
    let p_diff: Vec<char> = chars_of("diff --git");
    let p_index: Vec<char> = chars_of("index ");
    let p_plus3: Vec<char> = chars_of("+++");
    let p_minus3: Vec<char> = chars_of("---");
    let p_at: Vec<char> = vec!['@', '@'];
    let p_plus: Vec<char> = vec!['+'];
    let p_minus: Vec<char> = vec!['-'];
    let p_space: Vec<char> = vec![' '];
    assert(p_at@ =~= seq!['@', '@']);
    assert(p_plus@ =~= seq!['+']);
    assert(p_minus@ =~= seq!['-']);
    assert(p_space@ =~= seq![' ']);
    let mut entries: Vec<RawLine> = Vec::new();
    let mut old_num: usize = 0;
    let mut new_num: usize = 0;
    let mut i: usize = 0;
    assert(entry_views(entries@) =~= first_pass(ls.take(0)).0);
    while i < lines.len()
        invariant
            i <= lines@.len(),
            ls == line_seqs(lines@),
            p_diff@ == "diff --git"@,
            p_index@ == "index "@,
            p_plus3@ == "+++"@,
            p_minus3@ == "---"@,
            p_at@ == seq!['@', '@'],
            p_plus@ == seq!['+'],
            p_minus@ == seq!['-'],
            p_space@ == seq![' '],
            entry_views(entries@) == first_pass(ls.take(i as int)).0,
            old_num as int == first_pass(ls.take(i as int)).1,
            new_num as int == first_pass(ls.take(i as int)).2,
            forall|k: int|
                #![trigger first_pass(ls.take(k))]
                0 <= k <= i ==> first_pass(ls.take(k)).1 <= usize::MAX && first_pass(
                    ls.take(k),
                ).2 <= usize::MAX,
        decreases lines@.len() - i,
    {
        proof {
            lemma_first_pass_step(ls, i as int);
        }
        let line = &lines[i];
        assert(line@ == ls[i as int]);
        let ghost prev_entries = entries@;
        let ghost next = first_pass(ls.take(i + 1));
        if starts_with(line.as_slice(), p_at.as_slice()) {
            let nums = hunk_numbers_exec(line.as_slice(), old_num, new_num);
            let e = RawLine {
                is_header: true,
                kind: RawKind::Ctx,
                content: line.clone(),
                old_line: None,
                new_line: None,
            };
            entries.push(e);
            assert(entry_views(entries@) =~= entry_views(prev_entries).push(e@));
            old_num = nums.0;
            new_num = nums.1;
        } else if starts_with(line.as_slice(), p_diff.as_slice()) || starts_with(
            line.as_slice(),
            p_index.as_slice(),
        ) || starts_with(line.as_slice(), p_plus3.as_slice()) || starts_with(
            line.as_slice(),
            p_minus3.as_slice(),
        ) {
        } else if starts_with(line.as_slice(), p_plus.as_slice()) {
            let content = vstd::slice::slice_to_vec(&line.as_slice()[1..line.len()]);
            assert(content@ =~= line@.skip(1));
            let e = RawLine {
                is_header: false,
                kind: RawKind::Add,
                content,
                old_line: None,
                new_line: Some(new_num),
            };
            entries.push(e);
            assert(entry_views(entries@) =~= entry_views(prev_entries).push(e@));
            match new_num.checked_add(1) {
                Some(v) => {
                    new_num = v;
                },
                None => {
                    assert(!(next.1 <= usize::MAX && next.2 <= usize::MAX));
                    assert(!counters_fit(ls));
                    return None;
                },
            }
        } else if starts_with(line.as_slice(), p_minus.as_slice()) {
            let content = vstd::slice::slice_to_vec(&line.as_slice()[1..line.len()]);
            assert(content@ =~= line@.skip(1));
            let e = RawLine {
                is_header: false,
                kind: RawKind::Del,
                content,
                old_line: Some(old_num),
                new_line: None,
            };
            entries.push(e);
            assert(entry_views(entries@) =~= entry_views(prev_entries).push(e@));
            match old_num.checked_add(1) {
                Some(v) => {
                    old_num = v;
                },
                None => {
                    assert(!(next.1 <= usize::MAX && next.2 <= usize::MAX));
                    assert(!counters_fit(ls));
                    return None;
                },
            }
        } else {
            let content = if starts_with(line.as_slice(), p_space.as_slice()) {
                let c = vstd::slice::slice_to_vec(&line.as_slice()[1..line.len()]);
                assert(c@ =~= line@.skip(1));
                c
            } else {
                line.clone()
            };
            let e = RawLine {
                is_header: false,
                kind: RawKind::Ctx,
                content,
                old_line: Some(old_num),
                new_line: Some(new_num),
            };
            entries.push(e);
            assert(entry_views(entries@) =~= entry_views(prev_entries).push(e@));
            match (old_num.checked_add(1), new_num.checked_add(1)) {
                (Some(a), Some(b)) => {
                    old_num = a;
                    new_num = b;
                },
                _ => {
                    assert(!(next.1 <= usize::MAX && next.2 <= usize::MAX));
                    assert(!counters_fit(ls));
                    return None;
                },
            }
        }
        i = i + 1;
    }
    proof {
        assert(ls.take(lines@.len() as int) =~= ls);
        assert(counters_fit(ls));
    }
    Some(entries)
}

proof fn lemma_pair_single(si: Seq<RawEntry>)
    requires
        si.len() > 0,
        si[0].is_header || si[0].kind != RawKind::Del,
    ensures
        pair_lines(si) == seq![single_view(si[0])] + pair_lines(si.drop_first()),
{
}

fn push_single(entries: &Vec<RawLine>, i: usize, result: &mut Vec<DiffLine>)
    requires
        i < entries@.len(),
        entries@[i as int].is_header || entries@[i as int].kind != RawKind::Del,
    ensures
        line_views(final(result)@) == line_views(old(result)@).push(single_view(entries@[i as int]@)),
{
    let e = &entries[i];
    let ghost prev = result@;
    if e.is_header {
        let l = to_diff_line(e, DiffLineKind::HunkHeader);
        result.push(l);
        assert(line_views(result@) =~= line_views(prev).push(l@));
    } else if e.kind == RawKind::Add {
        let mut l = to_diff_line(e, DiffLineKind::Added);
        l.new_line = e.new_line;
        result.push(l);
        assert(line_views(result@) =~= line_views(prev).push(l@));
    } else {
        let mut l = to_diff_line(e, DiffLineKind::Context);
        l.old_line = e.old_line;
        l.new_line = e.new_line;
        result.push(l);
        assert(line_views(result@) =~= line_views(prev).push(l@));
    }
}

fn push_block(
    entries: &Vec<RawLine>,
    del_start: usize,
    del_end: usize,
    add_end: usize,
    result: &mut Vec<DiffLine>,
)
    requires
        del_start <= del_end <= add_end <= entries@.len(),
    ensures
        line_views(final(result)@) == line_views(old(result)@) + change_block(
            entry_views(entries@).skip(del_start as int),
            (del_end - del_start) as nat,
            (add_end - del_end) as nat,
        ),
{
    let ghost rv = entry_views(entries@);
    let ghost si = rv.skip(del_start as int);
    let d = del_end - del_start;
    let a = add_end - del_end;
    let ghost block = change_block(si, d as nat, a as nat);
    let ghost before = line_views(result@);
    if d == a {
        let mut j: usize = 0;
        while j < d
            invariant
                rv == entry_views(entries@),
                si == rv.skip(del_start as int),
                d == a,
                del_start + d == del_end,
                del_end + a == add_end,
                add_end <= entries@.len(),
                block == change_block(si, d as nat, a as nat),
                j <= d,
                line_views(result@) == before + block.take(j as int),
            decreases d - j,
        {
            let de = &entries[del_start + j];
            let ae = &entries[del_end + j];
            let ghost prev = result@;
            let ranges = find_changed_ranges_chars(de.content.as_slice(), ae.content.as_slice());
            let l = DiffLine {
                kind: DiffLineKind::Modified { old_highlight: ranges.0, new_highlight: ranges.1 },
                content: string_of(de.content.as_slice()),
                new_content: Some(string_of(ae.content.as_slice())),
                old_line: de.old_line,
                new_line: ae.new_line,
            };
            result.push(l);
            proof {
                assert(si[j as int] == entries@[del_start + j]@);
                assert(si[d + j] == entries@[del_end + j]@);
                assert(block[j as int] == modified_view(si[j as int], si[d + j]));
                assert(line_views(result@) =~= line_views(prev).push(l@));
                assert(line_views(result@) =~= before + block.take(j + 1));
            }
            j = j + 1;
        }
        assert(block.take(d as int) =~= block);
    } else {
        let mut j: usize = 0;
        while j < d
            invariant
                rv == entry_views(entries@),
                si == rv.skip(del_start as int),
                d != a,
                del_start + d == del_end,
                del_end + a == add_end,
                add_end <= entries@.len(),
                block == change_block(si, d as nat, a as nat),
                j <= d,
                line_views(result@) == before + block.take(j as int),
            decreases d - j,
        {
            let de = &entries[del_start + j];
            let ghost prev = result@;
            let mut l = to_diff_line(de, DiffLineKind::Deleted);
            l.old_line = de.old_line;
            result.push(l);
            proof {
                assert(si[j as int] == entries@[del_start + j]@);
                assert(block[j as int] == deleted_view(si[j as int]));
                assert(line_views(result@) =~= line_views(prev).push(l@));
                assert(line_views(result@) =~= before + block.take(j + 1));
            }
            j = j + 1;
        }
        let mut j: usize = 0;
        while j < a
            invariant
                rv == entry_views(entries@),
                si == rv.skip(del_start as int),
                d != a,
                del_start + d == del_end,
                del_end + a == add_end,
                add_end <= entries@.len(),
                block == change_block(si, d as nat, a as nat),
                j <= a,
                line_views(result@) == before + block.take(d + j),
            decreases a - j,
        {
            let ae = &entries[del_end + j];
            let ghost prev = result@;
            let mut l = to_diff_line(ae, DiffLineKind::Added);
            l.new_line = ae.new_line;
            result.push(l);
            proof {
                assert(si[d + j] == entries@[del_end + j]@);
                assert(block[d + j] == added_view(si[d + j]));
                assert(line_views(result@) =~= line_views(prev).push(l@));
                assert(line_views(result@) =~= before + block.take(d + j + 1));
            }
            j = j + 1;
        }
        assert(block.take(d + a) =~= block);
    }
}

fn run_end(entries: &Vec<RawLine>, start: usize, kind: RawKind) -> (end: usize)
    requires
        start <= entries@.len(),
    ensures
        start <= end <= entries@.len(),
        leading_count(entry_views(entries@).skip(start as int), kind) == end - start,
{
    let ghost rv = entry_views(entries@);
    let mut end = start;
    while end < entries.len() && !entries[end].is_header && entries[end].kind == kind
        invariant
            rv == entry_views(entries@),
            start <= end <= entries@.len(),
            forall|j: int| start <= j < end ==> !(#[trigger] rv[j]).is_header && rv[j].kind == kind,
        decreases entries@.len() - end,
    {
        assert(rv[end as int] == entries@[end as int]@);
        end = end + 1;
    }
    proof {
        let si = rv.skip(start as int);
        let m = (end - start) as int;
        assert forall|j: int| 0 <= j < m implies !(#[trigger] si[j]).is_header && si[j].kind == kind by {
            assert(si[j] == rv[start + j]);
        }
        lemma_leading_count_skip(si, kind, m);
        assert(si.skip(m) =~= rv.skip(end as int));
        if end < entries@.len() {
            assert(rv[end as int] == entries@[end as int]@);
            assert(rv.skip(end as int)[0] == rv[end as int]);
        }
    }
    end
}

#[verifier::spinoff_prover]
#[verifier::rlimit(50)]
fn pair_pass(entries: &Vec<RawLine>) -> (res: Vec<DiffLine>)
    ensures
        line_views(res@) == pair_lines(entry_views(entries@)),
{
    let ghost rv = entry_views(entries@);
    let n = entries.len();
    let mut result: Vec<DiffLine> = Vec::new();
    let mut i: usize = 0;
    assert(rv.skip(0) =~= rv);
    assert(line_views(result@) =~= Seq::<DiffLineView>::empty());
    while i < n
        invariant
            rv == entry_views(entries@),
            n == entries@.len(),
            i <= n,
            line_views(result@) + pair_lines(rv.skip(i as int)) == pair_lines(rv),
        decreases n - i,
    {
        let ghost si = rv.skip(i as int);
        let ghost before = line_views(result@);
        assert(si[0] == entries@[i as int]@);
        assert(si.drop_first() =~= rv.skip(i + 1));
        if entries[i].is_header || entries[i].kind != RawKind::Del {
            push_single(entries, i, &mut result);
            proof {
                lemma_pair_single(si);
                assert(before + (seq![single_view(si[0])] + pair_lines(si.drop_first())) =~= before.push(single_view(si[0])) + pair_lines(si.drop_first()));
            }
            i = i + 1;
        } else {
            let del_end = run_end(entries, i, RawKind::Del);
            let add_end = run_end(entries, del_end, RawKind::Add);
            proof {
                assert(del_run(si) == del_end - i);
                assert(si.skip((del_end - i) as int) =~= rv.skip(del_end as int));
                assert(add_run(si) == add_end - del_end);
                assert(si.skip((add_end - i) as int) =~= rv.skip(add_end as int));
                assert(pair_lines(si) == change_block(si, (del_end - i) as nat, (add_end - del_end) as nat) + pair_lines(rv.skip(add_end as int)));
            }
            push_block(entries, i, del_end, add_end, &mut result);
            proof {
                let block = change_block(si, (del_end - i) as nat, (add_end - del_end) as nat);
                assert(before + (block + pair_lines(rv.skip(add_end as int))) =~= (before + block) + pair_lines(rv.skip(add_end as int)));
            }
            i = add_end;
        }
    }
    proof {
        assert(rv.skip(n as int) =~= Seq::<RawEntry>::empty());
        assert(line_views(result@) + Seq::<DiffLineView>::empty() =~= line_views(result@));
    }
    result
}

/// Parses a unified diff into classified lines with line numbers, or gives
/// `None` when a line counter would pass `usize::MAX`.
///
/// Detects paired delete/add blocks of equal length and converts them to
/// `Modified` lines with intra-line character-level diff highlights.
pub fn parse_diff_checked(raw: &str) -> (res: Option<Vec<DiffLine>>)
    ensures
        res is Some <==> diff_numbers_fit(raw@),
        res matches Some(v) ==> line_views(v@) == parsed_diff(raw@),
{
    let chars = chars_of(raw);
    let lines = split_lines(chars.as_slice());
    assert(line_seqs(lines@) =~= lines_of(raw@));
    match first_pass_exec(&lines) {
        Some(entries) => Some(pair_pass(&entries)),
        None => None,
    }
}

/// Parses a unified diff string into classified lines with line numbers.
///
/// Detects paired delete/add blocks of equal length and converts them to
/// `Modified` lines with intra-line character-level diff highlights.
pub fn parse_diff(raw: &str) -> (res: Vec<DiffLine>)
    requires
        diff_numbers_fit(raw@),
    ensures
        line_views(res@) == parsed_diff(raw@),
{
    match parse_diff_checked(raw) {
        Some(v) => v,
        None => Vec::new(),
    }
}


/// The smaller of two numbers.
pub open spec fn min_nat(a: nat, b: nat) -> nat {
    if a <= b {
        a
    } else {
        b
    }
}

/// The three spans of a highlighted text: before the range, the range, and
/// after it, each bound cut to the text's length.
pub open spec fn highlight_spans(text: Seq<char>, range: CharRange) -> (Seq<char>, Seq<char>, Seq<char>) {
    let s = min_nat(range.start as nat, text.len());
    let e = min_nat(range.end as nat, text.len());
    (text.take(s as int), text.subrange(s as int, e as int), text.skip(e as int))
}

/// Splits a text into the spans before, inside and after a highlighted
/// range. Put back together, the spans give the text.
pub fn split_highlight(text: &str, range: &CharRange) -> (res: (String, String, String))
    requires
        min_nat(range.start as nat, text@.len()) <= min_nat(range.end as nat, text@.len()),
    ensures
        res.0@ == highlight_spans(text@, *range).0,
        res.1@ == highlight_spans(text@, *range).1,
        res.2@ == highlight_spans(text@, *range).2,
        res.0@ + res.1@ + res.2@ == text@,
{
    let chars = chars_of(text);
    let n = chars.len();
    let s = if range.start <= n {
        range.start
    } else {
        n
    };
    let e = if range.end <= n {
        range.end
    } else {
        n
    };
    let before = string_of(&chars.as_slice()[0..s]);
    let mid = string_of(&chars.as_slice()[s..e]);
    let after = string_of(&chars.as_slice()[e..n]);
    proof {
        assert(chars@.subrange(0, s as int) =~= chars@.take(s as int));
        assert(chars@.subrange(e as int, n as int) =~= chars@.skip(e as int));
        assert(chars@.take(s as int) + chars@.subrange(s as int, e as int) + chars@.skip(e as int) =~= chars@);
    }
    (before, mid, after)
}

/// The text of a line-number gutter: the number, or nothing.
pub open spec fn gutter_text(n: Option<usize>) -> Seq<char> {
    match n {
        Some(v) => crate::text::decimal(v as nat),
        None => Seq::<char>::empty(),
    }
}

/// The old and new line-number texts of a diff line; hunk headers have none.
pub fn line_number_texts(line: &DiffLine) -> (res: (String, String))
    ensures
        res.0@ == gutter_text(line.old_line),
        res.1@ == gutter_text(line.new_line),
{
    let old = match line.old_line {
        Some(n) => crate::text::decimal_string(n),
        None => String::new(),
    };
    let new = match line.new_line {
        Some(n) => crate::text::decimal_string(n),
        None => String::new(),
    };
    (old, new)
}


/// The line numbers (and new text) that a shown line of the given kind
/// carries: none for hunk headers, the new number for added lines, the old
/// number for deleted lines, both for unchanged lines, and both with the new
/// text for modified lines.
pub open spec fn numbered_as_kind(l: DiffLineView) -> bool {
    match l.kind {
        DiffLineKind::HunkHeader => l.old_line is None && l.new_line is None && l.new_content is None,
        DiffLineKind::Added => l.old_line is None && l.new_line is Some && l.new_content is None,
        DiffLineKind::Deleted => l.old_line is Some && l.new_line is None && l.new_content is None,
        DiffLineKind::Context => l.old_line is Some && l.new_line is Some && l.new_content is None,
        DiffLineKind::Modified { .. } => l.old_line is Some && l.new_line is Some && l.new_content is Some,
    }
}

/// The numbers a first-pass body line carries for its kind.
spec fn raw_numbered(e: RawEntry) -> bool {
    if e.is_header {
        e.old_line is None && e.new_line is None
    } else {
        match e.kind {
        RawKind::Add => e.old_line is None && e.new_line is Some,
        RawKind::Del => e.old_line is Some && e.new_line is None,
        RawKind::Ctx => e.old_line is Some && e.new_line is Some,
        }
    }
}

proof fn lemma_first_pass_numbered(lines: Seq<Seq<char>>)
    ensures
        forall|i: int| 0 <= i < first_pass(lines).0.len() ==> raw_numbered(#[trigger] first_pass(lines).0[i]),
    decreases lines.len(),
{
    if lines.len() > 0 {
        lemma_first_pass_numbered(lines.drop_last());
        let prev = first_pass(lines.drop_last()).0;
        assert forall|i: int| 0 <= i < first_pass(lines).0.len() implies raw_numbered(
            #[trigger] first_pass(lines).0[i],
        ) by {
            if i < prev.len() {
                assert(first_pass(lines).0[i] == prev[i]);
            }
        }
    }
}

proof fn lemma_pair_lines_numbered(raw: Seq<RawEntry>)
    requires
        forall|i: int| 0 <= i < raw.len() ==> raw_numbered(#[trigger] raw[i]),
    ensures
        forall|i: int| 0 <= i < pair_lines(raw).len() ==> numbered_as_kind(#[trigger] pair_lines(raw)[i]),
    decreases raw.len(),
{
    if raw.len() > 0 {
        let e = raw[0];
        assert(raw_numbered(raw[0]));
        if e.is_header || e.kind != RawKind::Del {
            let rest = raw.drop_first();
            assert forall|i: int| 0 <= i < rest.len() implies raw_numbered(#[trigger] rest[i]) by {
                assert(rest[i] == raw[i + 1]);
            }
            lemma_pair_lines_numbered(rest);
            let head = if e.is_header {
                header_view(e)
            } else if e.kind == RawKind::Add {
                added_view(e)
            } else {
                context_view(e)
            };
            assert(pair_lines(raw) == seq![head] + pair_lines(rest));
            assert forall|i: int| 0 <= i < pair_lines(raw).len() implies numbered_as_kind(
                #[trigger] pair_lines(raw)[i],
            ) by {
                if i > 0 {
                    assert(pair_lines(raw)[i] == pair_lines(rest)[i - 1]);
                }
            }
        } else {
            let d = del_run(raw);
            let a = add_run(raw);
            lemma_leading_count(raw, RawKind::Del);
            lemma_leading_count(raw.skip(d as int), RawKind::Add);
            let rest = raw.skip((d + a) as int);
            assert forall|i: int| 0 <= i < rest.len() implies raw_numbered(#[trigger] rest[i]) by {
                assert(rest[i] == raw[i + d + a]);
            }
            lemma_pair_lines_numbered(rest);
            let block = change_block(raw, d, a);
            assert forall|j: int| 0 <= j < d implies !(#[trigger] raw[j]).is_header && raw[j].kind == RawKind::Del by {}
            assert forall|j: int| 0 <= j < a implies !(#[trigger] raw[d + j]).is_header && raw[d + j].kind == RawKind::Add by {
                assert(raw.skip(d as int)[j] == raw[d + j]);
            }
            assert forall|j: int| 0 <= j < block.len() implies numbered_as_kind(#[trigger] block[j]) by {
                if d == a {
                    assert(raw_numbered(raw[j]));
                    assert(raw_numbered(raw[d + j]));
                } else if j < d {
                    assert(raw_numbered(raw[j]));
                } else {
                    assert(raw_numbered(raw[d + (j - d)]));
                }
            }
            assert(pair_lines(raw) == block + pair_lines(rest));
            assert forall|i: int| 0 <= i < pair_lines(raw).len() implies numbered_as_kind(
                #[trigger] pair_lines(raw)[i],
            ) by {
                if i >= block.len() {
                    assert(pair_lines(raw)[i] == pair_lines(rest)[i - block.len()]);
                } else {
                    assert(pair_lines(raw)[i] == block[i]);
                }
            }
        }
    }
}

/// Every line of a parsed diff carries the numbers of its kind: hunk
/// headers none, added lines only a new number, deleted lines only an old
/// number, unchanged lines both, and modified lines both and the new text.
pub proof fn law_parsed_lines_numbered_by_kind(raw: Seq<char>)
    ensures
        forall|i: int| 0 <= i < parsed_diff(raw).len() ==> numbered_as_kind(#[trigger] parsed_diff(raw)[i]),
{
    let lines = lines_of(raw);
    lemma_first_pass_numbered(lines);
    lemma_pair_lines_numbered(first_pass(lines).0);
}


/// The texts of the hunk headers among the shown lines, in order.
pub open spec fn header_texts(v: Seq<DiffLineView>) -> Seq<Seq<char>>
    decreases v.len(),
{
    if v.len() == 0 {
        Seq::<Seq<char>>::empty()
    } else if v.last().kind is HunkHeader {
        header_texts(v.drop_last()).push(v.last().content)
    } else {
        header_texts(v.drop_last())
    }
}

/// The lines that begin with `@@`, in order.
pub open spec fn at_lines(lines: Seq<Seq<char>>) -> Seq<Seq<char>>
    decreases lines.len(),
{
    if lines.len() == 0 {
        Seq::<Seq<char>>::empty()
    } else if has_prefix(lines.last(), seq!['@', '@']) {
        at_lines(lines.drop_last()).push(lines.last())
    } else {
        at_lines(lines.drop_last())
    }
}

/// The texts of the header entries of the first pass, in order.
spec fn raw_header_texts(v: Seq<RawEntry>) -> Seq<Seq<char>>
    decreases v.len(),
{
    if v.len() == 0 {
        Seq::<Seq<char>>::empty()
    } else if v.last().is_header {
        raw_header_texts(v.drop_last()).push(v.last().content)
    } else {
        raw_header_texts(v.drop_last())
    }
}

proof fn lemma_header_texts_add(a: Seq<DiffLineView>, b: Seq<DiffLineView>)
    ensures
        header_texts(a + b) == header_texts(a) + header_texts(b),
    decreases b.len(),
{
    if b.len() == 0 {
        assert(a + b =~= a);
        assert(header_texts(a) + header_texts(b) =~= header_texts(a));
    } else {
        assert((a + b).drop_last() =~= a + b.drop_last());
        assert((a + b).last() == b.last());
        lemma_header_texts_add(a, b.drop_last());
        if b.last().kind is HunkHeader {
            assert(header_texts(a) + header_texts(b) =~= (header_texts(a) + header_texts(b.drop_last())).push(b.last().content));
        }
    }
}

proof fn lemma_raw_header_texts_add(a: Seq<RawEntry>, b: Seq<RawEntry>)
    ensures
        raw_header_texts(a + b) == raw_header_texts(a) + raw_header_texts(b),
    decreases b.len(),
{
    if b.len() == 0 {
        assert(a + b =~= a);
        assert(raw_header_texts(a) + raw_header_texts(b) =~= raw_header_texts(a));
    } else {
        assert((a + b).drop_last() =~= a + b.drop_last());
        assert((a + b).last() == b.last());
        lemma_raw_header_texts_add(a, b.drop_last());
        if b.last().is_header {
            assert(raw_header_texts(a) + raw_header_texts(b) =~= (raw_header_texts(a) + raw_header_texts(b.drop_last())).push(
                b.last().content,
            ));
        }
    }
}

proof fn lemma_no_headers(v: Seq<DiffLineView>)
    requires
        forall|i: int| 0 <= i < v.len() ==> !((#[trigger] v[i]).kind is HunkHeader),
    ensures
        header_texts(v) == Seq::<Seq<char>>::empty(),
    decreases v.len(),
{
    if v.len() > 0 {
        assert(!(v[v.len() - 1].kind is HunkHeader));
        assert forall|i: int| 0 <= i < v.drop_last().len() implies !((#[trigger] v.drop_last()[i]).kind is HunkHeader) by {
            assert(v.drop_last()[i] == v[i]);
        }
        lemma_no_headers(v.drop_last());
    }
}

proof fn lemma_no_raw_headers(v: Seq<RawEntry>)
    requires
        forall|i: int| 0 <= i < v.len() ==> !(#[trigger] v[i]).is_header,
    ensures
        raw_header_texts(v) == Seq::<Seq<char>>::empty(),
    decreases v.len(),
{
    if v.len() > 0 {
        assert(!v[v.len() - 1].is_header);
        assert forall|i: int| 0 <= i < v.drop_last().len() implies !(#[trigger] v.drop_last()[i]).is_header by {
            assert(v.drop_last()[i] == v[i]);
        }
        lemma_no_raw_headers(v.drop_last());
    }
}

proof fn lemma_first_pass_headers(lines: Seq<Seq<char>>)
    ensures
        raw_header_texts(first_pass(lines).0) == at_lines(lines),
        first_pass(lines).0.len() <= lines.len(),
    decreases lines.len(),
{
    if lines.len() > 0 {
        lemma_first_pass_headers(lines.drop_last());
        let prev = first_pass(lines.drop_last()).0;
        let line = lines.last();
        if has_prefix(line, seq!['@', '@']) {
            assert(prev.push(header_entry(line)).drop_last() =~= prev);
        } else if !is_meta_line(line) {
            let e = first_pass(lines).0.last();
            assert(first_pass(lines).0 == prev.push(e));
            assert(prev.push(e).drop_last() =~= prev);
            assert(!e.is_header);
        }
    }
}

proof fn lemma_pair_lines_headers(raw: Seq<RawEntry>)
    ensures
        header_texts(pair_lines(raw)) == raw_header_texts(raw),
        pair_lines(raw).len() <= raw.len(),
    decreases raw.len(),
{
    if raw.len() > 0 {
        let e = raw[0];
        assert(raw =~= seq![e] + raw.drop_first());
        lemma_raw_header_texts_add(seq![e], raw.drop_first());
        assert(seq![e].drop_last() =~= Seq::<RawEntry>::empty());
        if e.is_header || e.kind != RawKind::Del {
            lemma_pair_lines_headers(raw.drop_first());
            let head = if e.is_header {
                header_view(e)
            } else if e.kind == RawKind::Add {
                added_view(e)
            } else {
                context_view(e)
            };
            assert(pair_lines(raw) == seq![head] + pair_lines(raw.drop_first()));
            lemma_header_texts_add(seq![head], pair_lines(raw.drop_first()));
            assert(seq![head].drop_last() =~= Seq::<DiffLineView>::empty());
            assert(seq![head].last() == head);
            assert(seq![e].last() == e);
            assert(header_texts(Seq::<DiffLineView>::empty()) =~= Seq::<Seq<char>>::empty());
            assert(raw_header_texts(Seq::<RawEntry>::empty()) =~= Seq::<Seq<char>>::empty());
            if e.is_header {
                assert(header_texts(seq![head]) =~= seq![e.content]);
                assert(raw_header_texts(seq![e]) =~= seq![e.content]);
            } else {
                assert(header_texts(seq![head]) =~= Seq::<Seq<char>>::empty());
                assert(raw_header_texts(seq![e]) =~= Seq::<Seq<char>>::empty());
            }
        } else {
            let d = del_run(raw);
            let a = add_run(raw);
            lemma_leading_count(raw, RawKind::Del);
            lemma_leading_count(raw.skip(d as int), RawKind::Add);
            let m = (d + a) as int;
            let rest = raw.skip(m);
            lemma_pair_lines_headers(rest);
            let block = change_block(raw, d, a);
            assert forall|j: int| 0 <= j < m implies !(#[trigger] raw.take(m)[j]).is_header by {
                if j >= d {
                    assert(raw.skip(d as int)[j - d] == raw[j]);
                }
            }
            assert(raw =~= raw.take(m) + rest);
            lemma_raw_header_texts_add(raw.take(m), rest);
            lemma_no_raw_headers(raw.take(m));
            assert(raw_header_texts(raw.take(m)) + raw_header_texts(rest) =~= raw_header_texts(rest));
            assert forall|j: int| 0 <= j < block.len() implies !((#[trigger] block[j]).kind is HunkHeader) by {
                if d == a {
                } else if j < d {
                } else {
                }
            }
            lemma_no_headers(block);
            assert(pair_lines(raw) == block + pair_lines(rest));
            lemma_header_texts_add(block, pair_lines(rest));
            assert(header_texts(block) + header_texts(pair_lines(rest)) =~= header_texts(pair_lines(rest)));
            assert(block.len() <= m);
        }
    }
}

/// A parsed diff shows no more lines than the text has, and its hunk
/// headers are, in order, the text's lines that begin with `@@`, each one
/// unchanged.
pub proof fn law_parsed_headers_are_at_lines(raw: Seq<char>)
    ensures
        parsed_diff(raw).len() <= lines_of(raw).len(),
        header_texts(parsed_diff(raw)) == at_lines(lines_of(raw)),
{
    let lines = lines_of(raw);
    lemma_first_pass_headers(lines);
    lemma_pair_lines_headers(first_pass(lines).0);
}


/// A line's number on the old side (`old_side`) or the new side.
pub open spec fn side_number(l: DiffLineView, old_side: bool) -> Option<int> {
    if old_side {
        l.old_line
    } else {
        l.new_line
    }
}

/// The numbers the shown lines carry on one side, in order.
pub open spec fn side_numbers(v: Seq<DiffLineView>, old_side: bool) -> Seq<int>
    decreases v.len(),
{
    if v.len() == 0 {
        Seq::<int>::empty()
    } else {
        match side_number(v.last(), old_side) {
            Some(n) => side_numbers(v.drop_last(), old_side).push(n),
            None => side_numbers(v.drop_last(), old_side),
        }
    }
}

spec fn raw_side(e: RawEntry, old_side: bool) -> Option<int> {
    if old_side {
        e.old_line
    } else {
        e.new_line
    }
}

spec fn raw_side_numbers(v: Seq<RawEntry>, old_side: bool) -> Seq<int>
    decreases v.len(),
{
    if v.len() == 0 {
        Seq::<int>::empty()
    } else {
        match raw_side(v.last(), old_side) {
            Some(n) => raw_side_numbers(v.drop_last(), old_side).push(n),
            None => raw_side_numbers(v.drop_last(), old_side),
        }
    }
}

proof fn lemma_side_numbers_add(a: Seq<DiffLineView>, b: Seq<DiffLineView>, old_side: bool)
    ensures
        side_numbers(a + b, old_side) == side_numbers(a, old_side) + side_numbers(b, old_side),
    decreases b.len(),
{
    if b.len() == 0 {
        assert(a + b =~= a);
        assert(side_numbers(a, old_side) + side_numbers(b, old_side) =~= side_numbers(a, old_side));
    } else {
        assert((a + b).drop_last() =~= a + b.drop_last());
        assert((a + b).last() == b.last());
        lemma_side_numbers_add(a, b.drop_last(), old_side);
        match side_number(b.last(), old_side) {
            Some(n) => {
                assert(side_numbers(a, old_side) + side_numbers(b, old_side) =~= (side_numbers(a, old_side) + side_numbers(
                    b.drop_last(),
                    old_side,
                )).push(n));
            },
            None => {},
        }
    }
}

proof fn lemma_raw_side_numbers_add(a: Seq<RawEntry>, b: Seq<RawEntry>, old_side: bool)
    ensures
        raw_side_numbers(a + b, old_side) == raw_side_numbers(a, old_side) + raw_side_numbers(b, old_side),
    decreases b.len(),
{
    if b.len() == 0 {
        assert(a + b =~= a);
        assert(raw_side_numbers(a, old_side) + raw_side_numbers(b, old_side) =~= raw_side_numbers(a, old_side));
    } else {
        assert((a + b).drop_last() =~= a + b.drop_last());
        assert((a + b).last() == b.last());
        lemma_raw_side_numbers_add(a, b.drop_last(), old_side);
        match raw_side(b.last(), old_side) {
            Some(n) => {
                assert(raw_side_numbers(a, old_side) + raw_side_numbers(b, old_side) =~= (raw_side_numbers(a, old_side)
                    + raw_side_numbers(b.drop_last(), old_side)).push(n));
            },
            None => {},
        }
    }
}

proof fn lemma_side_numbers_all(v: Seq<DiffLineView>, old_side: bool)
    ensures
        (forall|i: int| 0 <= i < v.len() ==> (#[trigger] side_number(v[i], old_side)) is None) ==> side_numbers(v, old_side)
            == Seq::<int>::empty(),
        (forall|i: int| 0 <= i < v.len() ==> (#[trigger] side_number(v[i], old_side)) is Some) ==> side_numbers(v, old_side)
            == Seq::new(v.len(), |i: int| side_number(v[i], old_side)->0),
    decreases v.len(),
{
    if v.len() > 0 {
        lemma_side_numbers_all(v.drop_last(), old_side);
        let d = v.drop_last();
        assert forall|i: int| 0 <= i < d.len() implies side_number(d[i], old_side) == side_number(v[i], old_side) by {}
        if forall|i: int| 0 <= i < v.len() ==> (#[trigger] side_number(v[i], old_side)) is Some {
            assert(side_number(v[v.len() - 1], old_side) is Some);
            assert(forall|i: int| 0 <= i < d.len() ==> (#[trigger] side_number(d[i], old_side)) is Some);
            assert(side_numbers(v, old_side) =~= Seq::new(v.len(), |i: int| side_number(v[i], old_side)->0));
        }
        if forall|i: int| 0 <= i < v.len() ==> (#[trigger] side_number(v[i], old_side)) is None {
            assert(side_number(v[v.len() - 1], old_side) is None);
            assert(forall|i: int| 0 <= i < d.len() ==> (#[trigger] side_number(d[i], old_side)) is None);
        }
    }
}

proof fn lemma_raw_side_numbers_all(v: Seq<RawEntry>, old_side: bool)
    ensures
        (forall|i: int| 0 <= i < v.len() ==> (#[trigger] raw_side(v[i], old_side)) is None) ==> raw_side_numbers(v, old_side)
            == Seq::<int>::empty(),
        (forall|i: int| 0 <= i < v.len() ==> (#[trigger] raw_side(v[i], old_side)) is Some) ==> raw_side_numbers(v, old_side)
            == Seq::new(v.len(), |i: int| raw_side(v[i], old_side)->0),
    decreases v.len(),
{
    if v.len() > 0 {
        lemma_raw_side_numbers_all(v.drop_last(), old_side);
        let d = v.drop_last();
        assert forall|i: int| 0 <= i < d.len() implies raw_side(d[i], old_side) == raw_side(v[i], old_side) by {}
        if forall|i: int| 0 <= i < v.len() ==> (#[trigger] raw_side(v[i], old_side)) is Some {
            assert(raw_side(v[v.len() - 1], old_side) is Some);
            assert(forall|i: int| 0 <= i < d.len() ==> (#[trigger] raw_side(d[i], old_side)) is Some);
            assert(raw_side_numbers(v, old_side) =~= Seq::new(v.len(), |i: int| raw_side(v[i], old_side)->0));
        }
        if forall|i: int| 0 <= i < v.len() ==> (#[trigger] raw_side(v[i], old_side)) is None {
            assert(raw_side(v[v.len() - 1], old_side) is None);
            assert(forall|i: int| 0 <= i < d.len() ==> (#[trigger] raw_side(d[i], old_side)) is None);
        }
    }
}

/// The numbers of a change block on one side are those of its entries.
proof fn lemma_block_side_numbers(raw: Seq<RawEntry>, d: nat, a: nat, old_side: bool)
    requires
        d + a <= raw.len(),
        forall|j: int| 0 <= j < d ==> !(#[trigger] raw[j]).is_header && raw[j].kind == RawKind::Del,
        forall|j: int| d <= j < d + a ==> !(#[trigger] raw[j]).is_header && raw[j].kind == RawKind::Add,
        forall|j: int| 0 <= j < raw.len() ==> raw_numbered(#[trigger] raw[j]),
    ensures
        side_numbers(change_block(raw, d, a), old_side) == raw_side_numbers(raw.take((d + a) as int), old_side),
{
    let dels = raw.take(d as int);
    let adds = raw.skip(d as int).take(a as int);
    assert(raw.take((d + a) as int) =~= dels + adds);
    lemma_raw_side_numbers_add(dels, adds, old_side);
    assert forall|j: int| 0 <= j < dels.len() implies raw_numbered(#[trigger] dels[j]) && dels[j] == raw[j] by {}
    assert forall|j: int| 0 <= j < adds.len() implies adds[j] == raw[d + j] by {}
    assert forall|j: int| 0 <= j < adds.len() implies raw_numbered(#[trigger] adds[j]) by {
        assert(adds[j] == raw[d + j]);
    }
    lemma_raw_side_numbers_all(dels, old_side);
    lemma_raw_side_numbers_all(adds, old_side);
    let block = change_block(raw, d, a);
    if d == a {
        lemma_side_numbers_all(block, old_side);
        if old_side {
            assert(forall|i: int| 0 <= i < adds.len() ==> (#[trigger] raw_side(adds[i], old_side)) is None) by {
                assert forall|i: int| 0 <= i < adds.len() implies (#[trigger] raw_side(adds[i], old_side)) is None by {
                    assert(adds[i] == raw[d + i]);
                }
            }
            assert(forall|i: int| 0 <= i < dels.len() ==> (#[trigger] raw_side(dels[i], old_side)) is Some);
            assert(forall|i: int| 0 <= i < block.len() ==> (#[trigger] side_number(block[i], old_side)) is Some);
            assert(side_numbers(block, old_side) =~= raw_side_numbers(dels, old_side) + raw_side_numbers(adds, old_side));
        } else {
            assert(forall|i: int| 0 <= i < dels.len() ==> (#[trigger] raw_side(dels[i], old_side)) is None);
            assert(forall|i: int| 0 <= i < adds.len() ==> (#[trigger] raw_side(adds[i], old_side)) is Some) by {
                assert forall|i: int| 0 <= i < adds.len() implies (#[trigger] raw_side(adds[i], old_side)) is Some by {
                    assert(adds[i] == raw[d + i]);
                }
            }
            assert(forall|i: int| 0 <= i < block.len() ==> (#[trigger] side_number(block[i], old_side)) is Some) by {
                assert forall|i: int| 0 <= i < block.len() implies (#[trigger] side_number(block[i], old_side)) is Some by {
                    assert(raw_numbered(raw[d + i]));
                }
            }
            assert forall|i: int| 0 <= i < adds.len() implies raw_side(adds[i], old_side) == side_number(block[i], old_side) by {
                assert(adds[i] == raw[d + i]);
            }
            assert(side_numbers(block, old_side) =~= raw_side_numbers(dels, old_side) + raw_side_numbers(adds, old_side));
        }
    } else {
        let bd = Seq::new(d, |j: int| deleted_view(raw[j]));
        let ba = Seq::new(a, |j: int| added_view(raw[d + j]));
        assert(block == bd + ba);
        lemma_side_numbers_add(bd, ba, old_side);
        lemma_side_numbers_all(bd, old_side);
        lemma_side_numbers_all(ba, old_side);
        if old_side {
            assert(forall|i: int| 0 <= i < ba.len() ==> (#[trigger] side_number(ba[i], old_side)) is None);
            assert(forall|i: int| 0 <= i < adds.len() ==> (#[trigger] raw_side(adds[i], old_side)) is None) by {
                assert forall|i: int| 0 <= i < adds.len() implies (#[trigger] raw_side(adds[i], old_side)) is None by {
                    assert(adds[i] == raw[d + i]);
                }
            }
            assert(forall|i: int| 0 <= i < bd.len() ==> (#[trigger] side_number(bd[i], old_side)) is Some);
            assert(forall|i: int| 0 <= i < dels.len() ==> (#[trigger] raw_side(dels[i], old_side)) is Some);
            assert(side_numbers(bd, old_side) =~= raw_side_numbers(dels, old_side));
        } else {
            assert(forall|i: int| 0 <= i < bd.len() ==> (#[trigger] side_number(bd[i], old_side)) is None);
            assert(forall|i: int| 0 <= i < dels.len() ==> (#[trigger] raw_side(dels[i], old_side)) is None);
            assert(forall|i: int| 0 <= i < adds.len() ==> (#[trigger] raw_side(adds[i], old_side)) is Some) by {
                assert forall|i: int| 0 <= i < adds.len() implies (#[trigger] raw_side(adds[i], old_side)) is Some by {
                    assert(adds[i] == raw[d + i]);
                }
            }
            assert(forall|i: int| 0 <= i < ba.len() ==> (#[trigger] side_number(ba[i], old_side)) is Some) by {
                assert forall|i: int| 0 <= i < ba.len() implies (#[trigger] side_number(ba[i], old_side)) is Some by {
                    assert(raw_numbered(raw[d + i]));
                }
            }
            assert forall|i: int| 0 <= i < adds.len() implies raw_side(adds[i], old_side) == side_number(ba[i], old_side) by {
                assert(adds[i] == raw[d + i]);
            }
            assert(side_numbers(ba, old_side) =~= raw_side_numbers(adds, old_side));
        }
    }
}

proof fn lemma_pair_lines_side_numbers(raw: Seq<RawEntry>, old_side: bool)
    requires
        forall|i: int| 0 <= i < raw.len() ==> raw_numbered(#[trigger] raw[i]),
    ensures
        side_numbers(pair_lines(raw), old_side) == raw_side_numbers(raw, old_side),
    decreases raw.len(),
{
    if raw.len() > 0 {
        let e = raw[0];
        assert(raw_numbered(raw[0]));
        if e.is_header || e.kind != RawKind::Del {
            let rest = raw.drop_first();
            assert forall|i: int| 0 <= i < rest.len() implies raw_numbered(#[trigger] rest[i]) by {
                assert(rest[i] == raw[i + 1]);
            }
            lemma_pair_lines_side_numbers(rest, old_side);
            let head = if e.is_header {
                header_view(e)
            } else if e.kind == RawKind::Add {
                added_view(e)
            } else {
                context_view(e)
            };
            assert(pair_lines(raw) == seq![head] + pair_lines(rest));
            lemma_side_numbers_add(seq![head], pair_lines(rest), old_side);
            assert(raw =~= seq![e] + rest);
            lemma_raw_side_numbers_add(seq![e], rest, old_side);
            assert(seq![head].drop_last() =~= Seq::<DiffLineView>::empty());
            assert(seq![e].drop_last() =~= Seq::<RawEntry>::empty());
            assert(seq![head].last() == head);
            assert(seq![e].last() == e);
            assert(side_number(head, old_side) == raw_side(e, old_side));
            assert(side_numbers(Seq::<DiffLineView>::empty(), old_side) =~= Seq::<int>::empty());
            assert(raw_side_numbers(Seq::<RawEntry>::empty(), old_side) =~= Seq::<int>::empty());
            assert(side_numbers(seq![head], old_side) =~= raw_side_numbers(seq![e], old_side));
        } else {
            let d = del_run(raw);
            let a = add_run(raw);
            lemma_leading_count(raw, RawKind::Del);
            lemma_leading_count(raw.skip(d as int), RawKind::Add);
            let m = (d + a) as int;
            let rest = raw.skip(m);
            assert forall|i: int| 0 <= i < rest.len() implies raw_numbered(#[trigger] rest[i]) by {
                assert(rest[i] == raw[i + m]);
            }
            lemma_pair_lines_side_numbers(rest, old_side);
            assert forall|j: int| d <= j < d + a implies !(#[trigger] raw[j]).is_header && raw[j].kind == RawKind::Add by {
                assert(raw.skip(d as int)[j - d] == raw[j]);
            }
            lemma_block_side_numbers(raw, d, a, old_side);
            let block = change_block(raw, d, a);
            assert(pair_lines(raw) == block + pair_lines(rest));
            lemma_side_numbers_add(block, pair_lines(rest), old_side);
            assert(raw =~= raw.take(m) + rest);
            lemma_raw_side_numbers_add(raw.take(m), rest, old_side);
        }
    }
}

/// The number of body lines that take a number on the given side: all but
/// file header lines and added lines on the old side, all but file header
/// lines and deleted lines on the new side.
pub open spec fn side_count(body: Seq<Seq<char>>, old_side: bool) -> nat
    decreases body.len(),
{
    if body.len() == 0 {
        0
    } else {
        side_count(body.drop_last(), old_side) + (if is_meta_line(body.last()) || has_prefix(
            body.last(),
            seq![if old_side { '+' } else { '-' }],
        ) {
            0nat
        } else {
            1nat
        })
    }
}

spec fn counter_on(fp: (Seq<RawEntry>, int, int), old_side: bool) -> int {
    if old_side {
        fp.1
    } else {
        fp.2
    }
}

/// One body line read by the first pass: it adds one entry, which takes the
/// side's counter as its number unless the line is an addition (old side) or a
/// deletion (new side), and the counter moves on by one exactly when it does.
#[verifier::spinoff_prover]
#[verifier::rlimit(40)]
proof fn lemma_first_pass_body_step(lines: Seq<Seq<char>>, old_side: bool)
    requires
        lines.len() >= 1,
        !has_prefix(lines.last(), seq!['@', '@']),
        !is_meta_line(lines.last()),
    ensures
        first_pass(lines).0 == first_pass(lines.drop_last()).0.push(first_pass(lines).0.last()),
        has_prefix(lines.last(), seq![if old_side { '+' } else { '-' }]) ==> {
            &&& raw_side(first_pass(lines).0.last(), old_side) is None
            &&& counter_on(first_pass(lines), old_side) == counter_on(first_pass(lines.drop_last()), old_side)
        },
        !has_prefix(lines.last(), seq![if old_side { '+' } else { '-' }]) ==> {
            &&& raw_side(first_pass(lines).0.last(), old_side) == Some(counter_on(first_pass(lines.drop_last()), old_side))
            &&& counter_on(first_pass(lines), old_side) == counter_on(first_pass(lines.drop_last()), old_side) + 1
        },
{
    let line = lines.last();
    if has_prefix(line, seq!['+']) {
        assert(line.take(1)[0] == line[0]);
        assert(seq!['+'][0] == '+');
        if has_prefix(line, seq!['-']) {
            assert(seq!['-'][0] == '-');
        }
    }
}


/// A line that the first pass reads as a deleted line.
pub open spec fn is_del_line(line: Seq<char>) -> bool {
    has_prefix(line, seq!['-']) && !is_meta_line(line)
}

/// A line that the first pass reads as an added line.
pub open spec fn is_add_line(line: Seq<char>) -> bool {
    has_prefix(line, seq!['+']) && !is_meta_line(line)
}

/// A deleted body entry.
spec fn is_del_entry(e: RawEntry) -> bool {
    !e.is_header && e.kind == RawKind::Del
}

proof fn lemma_first_char(line: Seq<char>, p: Seq<char>)
    requires
        p.len() >= 1,
        has_prefix(line, p),
    ensures
        line.len() >= 1,
        line[0] == p[0],
{
    assert(line.take(p.len() as int)[0] == line[0]);
}

/// The entry that the first pass adds for a line that is no file header line.
#[verifier::spinoff_prover]
#[verifier::rlimit(40)]
proof fn lemma_first_pass_entry(lines: Seq<Seq<char>>, i: int)
    requires
        0 <= i < lines.len(),
        !is_meta_line(lines[i]),
    ensures
        first_pass(lines.take(i + 1)).0 == first_pass(lines.take(i)).0.push(first_pass(lines.take(i + 1)).0.last()),
        ({
            let e = first_pass(lines.take(i + 1)).0.last();
            &&& is_add_line(lines[i]) ==> !e.is_header && e.kind == RawKind::Add
            &&& is_del_line(lines[i]) ==> is_del_entry(e)
            &&& is_del_entry(e) ==> is_del_line(lines[i])
            &&& !e.is_header && e.kind == RawKind::Add ==> is_add_line(lines[i])
        }),
{
    lemma_first_pass_step(lines, i);
    let line = lines[i];
    if has_prefix(line, seq!['+']) {
        lemma_first_char(line, seq!['+']);
        if has_prefix(line, seq!['@', '@']) {
            lemma_first_char(line, seq!['@', '@']);
        }
        if has_prefix(line, seq!['-']) {
            lemma_first_char(line, seq!['-']);
        }
    }
    if has_prefix(line, seq!['-']) {
        lemma_first_char(line, seq!['-']);
        if has_prefix(line, seq!['@', '@']) {
            lemma_first_char(line, seq!['@', '@']);
        }
    }
}

/// Reading more lines only adds entries after those already read.
#[verifier::spinoff_prover]
#[verifier::rlimit(40)]
proof fn lemma_first_pass_prefix(lines: Seq<Seq<char>>, v: int)
    requires
        0 <= v <= lines.len(),
    ensures
        first_pass(lines.take(v)).0.len() <= first_pass(lines).0.len(),
        first_pass(lines).0.take(first_pass(lines.take(v)).0.len() as int) == first_pass(lines.take(v)).0,
    decreases lines.len(),
{
    if v == lines.len() {
        assert(lines.take(v) =~= lines);
        assert(first_pass(lines).0.take(first_pass(lines).0.len() as int) =~= first_pass(lines).0);
    } else {
        let d = lines.drop_last();
        assert(d.take(v) =~= lines.take(v));
        lemma_first_pass_prefix(d, v);
        let prev = first_pass(d).0;
        let cur = first_pass(lines).0;
        let n = first_pass(lines.take(v)).0.len() as int;
        if cur.len() > prev.len() {
            assert(cur == prev.push(cur.last()));
            assert(cur.take(n) =~= prev.take(n));
        } else {
            assert(cur == prev);
        }
    }
}

/// The entry the first pass makes for the `j`-th line of a run of deleted
/// lines (from `s` up to `t`) followed by added lines, when the counters stood
/// at `o` and `n` before the run.
pub open spec fn run_entry(lines: Seq<Seq<char>>, s: int, t: int, o: int, n: int, j: int) -> RawEntry {
    if j < t - s {
        body_entry(RawKind::Del, lines[s + j].skip(1), Some(o + j), None)
    } else {
        body_entry(RawKind::Add, lines[s + j].skip(1), None, Some(n + (j - (t - s))))
    }
}

/// The first pass over a run of deleted lines followed by added lines.
#[verifier::spinoff_prover]
#[verifier::rlimit(40)]
proof fn lemma_first_pass_runs(lines: Seq<Seq<char>>, s: int, t: int, v: int)
    requires
        0 <= s <= t,
        s <= v <= lines.len(),
        forall|i: int| s <= i < v && i < t ==> is_del_line(#[trigger] lines[i]),
        forall|i: int| s <= i < v && t <= i ==> is_add_line(#[trigger] lines[i]),
    ensures
        ({
            let pre = first_pass(lines.take(s));
            let cur = first_pass(lines.take(v));
            &&& cur.0 == pre.0 + Seq::new((v - s) as nat, |j: int| run_entry(lines, s, t, pre.1, pre.2, j))
            &&& cur.1 == pre.1 + (if v < t { v - s } else { t - s })
            &&& cur.2 == pre.2 + (if v < t { 0 } else { v - t })
        }),
    decreases v - s,
{
    let pre = first_pass(lines.take(s));
    if v == s {
        assert(pre.0 + Seq::new(0, |j: int| run_entry(lines, s, t, pre.1, pre.2, j)) =~= pre.0);
    } else {
        lemma_first_pass_runs(lines, s, t, v - 1);
        lemma_first_pass_step(lines, v - 1);
        let line = lines[v - 1];
        let prev = first_pass(lines.take(v - 1));
        if v - 1 < t {
            assert(is_del_line(line));
            lemma_first_char(line, seq!['-']);
            if has_prefix(line, seq!['@', '@']) {
                lemma_first_char(line, seq!['@', '@']);
            }
            if has_prefix(line, seq!['+']) {
                lemma_first_char(line, seq!['+']);
            }
        } else {
            assert(is_add_line(line));
            lemma_first_char(line, seq!['+']);
            if has_prefix(line, seq!['@', '@']) {
                lemma_first_char(line, seq!['@', '@']);
            }
        }
        assert(first_pass(lines.take(v)).0 =~= pre.0 + Seq::new(
            (v - s) as nat,
            |j: int| run_entry(lines, s, t, pre.1, pre.2, j),
        ));
    }
}

/// How a leading run continues from one sequence into the next.
#[verifier::spinoff_prover]
#[verifier::rlimit(40)]
proof fn lemma_leading_count_concat(a: Seq<RawEntry>, b: Seq<RawEntry>, kind: RawKind)
    ensures
        leading_count(a + b, kind) == if leading_count(a, kind) < a.len() {
            leading_count(a, kind)
        } else {
            a.len() + leading_count(b, kind)
        },
    decreases a.len(),
{
    lemma_leading_count(a, kind);
    if a.len() == 0 {
        assert(a + b =~= b);
    } else {
        assert((a + b)[0] == a[0]);
        if !a[0].is_header && a[0].kind == kind {
            assert((a + b).drop_first() =~= a.drop_first() + b);
            lemma_leading_count_concat(a.drop_first(), b, kind);
        }
    }
}

/// The second pass over two parts reads them apart when the first part does
/// not end with a deleted line and the second begins with one.
#[verifier::spinoff_prover]
#[verifier::rlimit(40)]
proof fn lemma_pair_lines_concat(a: Seq<RawEntry>, b: Seq<RawEntry>)
    requires
        a.len() == 0 || !is_del_entry(a.last()),
        b.len() > 0,
        is_del_entry(b[0]),
    ensures
        pair_lines(a + b) == pair_lines(a) + pair_lines(b),
    decreases a.len(),
{
    if a.len() == 0 {
        assert(a + b =~= b);
        assert(pair_lines(a) + pair_lines(b) =~= pair_lines(b));
    } else {
        let ab = a + b;
        let e = a[0];
        assert(ab[0] == e);
        if e.is_header || e.kind != RawKind::Del {
            let rest = a.drop_first();
            assert(ab.drop_first() =~= rest + b);
            if rest.len() > 0 {
                assert(rest.last() == a.last());
            }
            lemma_pair_lines_concat(rest, b);
            let v = if e.is_header {
                header_view(e)
            } else if e.kind == RawKind::Add {
                added_view(e)
            } else {
                context_view(e)
            };
            assert(pair_lines(ab) == seq![v] + pair_lines(rest + b));
            assert(pair_lines(a) == seq![v] + pair_lines(rest));
            assert(seq![v] + (pair_lines(rest) + pair_lines(b)) =~= (seq![v] + pair_lines(rest)) + pair_lines(b));
        } else {
            lemma_leading_count(a, RawKind::Del);
            let d = del_run(a);
            assert(d < a.len()) by {
                if d == a.len() {
                    assert(is_del_entry(a[a.len() - 1]));
                }
            }
            lemma_leading_count_concat(a, b, RawKind::Del);
            assert(del_run(ab) == d);
            let ad = a.skip(d as int);
            assert(ab.skip(d as int) =~= ad + b);
            lemma_leading_count_concat(ad, b, RawKind::Add);
            assert(leading_count(b, RawKind::Add) == 0);
            lemma_leading_count(ad, RawKind::Add);
            let x = add_run(a);
            assert(add_run(ab) == x);
            assert(d + x <= a.len());
            assert(change_block(ab, d, x) =~= change_block(a, d, x)) by {
                assert forall|j: int| 0 <= j < d + x implies ab[j] == a[j] by {}
                if d == x {
                    assert(change_block(ab, d, x) =~= change_block(a, d, x));
                } else {
                    assert(Seq::new(d, |j: int| deleted_view(ab[j])) =~= Seq::new(d, |j: int| deleted_view(a[j])));
                    assert(Seq::new(x, |j: int| added_view(ab[d + j])) =~= Seq::new(x, |j: int| added_view(a[d + j])));
                }
            }
            let rest = a.skip((d + x) as int);
            assert(ab.skip((d + x) as int) =~= rest + b);
            if rest.len() > 0 {
                assert(rest.last() == a.last());
            }
            lemma_pair_lines_concat(rest, b);
            let blk = change_block(a, d, x);
            assert(pair_lines(ab) == blk + pair_lines(rest + b));
            assert(pair_lines(a) == blk + pair_lines(rest));
            assert(blk + (pair_lines(rest) + pair_lines(b)) =~= (blk + pair_lines(rest)) + pair_lines(b));
        }
    }
}

/// The second pass over a run of `k` deleted entries followed by `m` added
/// entries, when what follows the run continues neither run.
#[verifier::spinoff_prover]
#[verifier::rlimit(40)]
proof fn lemma_pair_lines_block(e: Seq<RawEntry>, r: Seq<RawEntry>, k: nat, m: nat)
    requires
        k >= 1,
        e.len() == k + m,
        forall|j: int| 0 <= j < k ==> is_del_entry(#[trigger] e[j]),
        forall|j: int| k <= j < k + m ==> !(#[trigger] e[j]).is_header && e[j].kind == RawKind::Add,
        r.len() > 0 ==> (r[0].is_header || r[0].kind != RawKind::Add),
        r.len() > 0 && m == 0 ==> !is_del_entry(r[0]),
    ensures
        pair_lines(e + r) == change_block(e + r, k, m) + pair_lines(r),
{
    let er = e + r;
    assert(er[0] == e[0]);
    assert forall|j: int| 0 <= j < k implies !(#[trigger] er[j]).is_header && er[j].kind == RawKind::Del by {
        assert(er[j] == e[j]);
    }
    lemma_leading_count_skip(er, RawKind::Del, k as int);
    let tail = er.skip(k as int);
    if tail.len() > 0 {
        if m > 0 {
            assert(tail[0] == e[k as int]);
        } else {
            assert(tail[0] == r[0]);
        }
    }
    assert(leading_count(tail, RawKind::Del) == 0);
    assert(del_run(er) == k);
    assert forall|j: int| 0 <= j < m implies !(#[trigger] tail[j]).is_header && tail[j].kind == RawKind::Add by {
        assert(tail[j] == e[k + j]);
    }
    lemma_leading_count_skip(tail, RawKind::Add, m as int);
    assert(tail.skip(m as int) =~= r);
    assert(leading_count(r, RawKind::Add) == 0);
    assert(add_run(er) == m);
    assert(er.skip((k + m) as int) =~= r);
}

/// The deleted lines of a run, as the first pass reads them.
pub open spec fn run_dels(lines: Seq<Seq<char>>, s: int, t: int) -> Seq<RawEntry> {
    let pre = first_pass(lines.take(s));
    Seq::new((t - s) as nat, |j: int| body_entry(RawKind::Del, lines[s + j].skip(1), Some(pre.1 + j), None))
}

/// The added lines that follow a run of deleted lines, as the first pass reads them.
pub open spec fn run_adds(lines: Seq<Seq<char>>, s: int, t: int, u: int) -> Seq<RawEntry> {
    let pre = first_pass(lines.take(s));
    Seq::new((u - t) as nat, |j: int| body_entry(RawKind::Add, lines[t + j].skip(1), None, Some(pre.2 + j)))
}

spec fn run_entries(lines: Seq<Seq<char>>, s: int, t: int, u: int) -> Seq<RawEntry> {
    let pre = first_pass(lines.take(s));
    Seq::new((u - s) as nat, |j: int| run_entry(lines, s, t, pre.1, pre.2, j))
}

spec fn runs_bounded(lines: Seq<Seq<char>>, s: int, t: int, u: int) -> bool {
    &&& 0 <= s < t <= u <= lines.len()
    &&& forall|i: int| s <= i < t ==> is_del_line(#[trigger] lines[i])
    &&& forall|i: int| t <= i < u ==> is_add_line(#[trigger] lines[i])
    &&& s > 0 ==> !is_del_line(lines[s - 1]) && !is_meta_line(lines[s - 1])
    &&& u < lines.len() ==> {
        &&& !is_add_line(lines[u])
        &&& !is_meta_line(lines[u])
        &&& (t == u ==> !is_del_line(lines[u]))
    }
}

/// The first pass over bounded runs: the entries before, the runs, and the rest.
#[verifier::spinoff_prover]
#[verifier::rlimit(40)]
proof fn lemma_runs_split(lines: Seq<Seq<char>>, s: int, t: int, u: int) -> (r: Seq<RawEntry>)
    requires
        runs_bounded(lines, s, t, u),
    ensures
        first_pass(lines).0 == first_pass(lines.take(s)).0 + (run_entries(lines, s, t, u) + r),
        r.len() > 0 ==> (r[0].is_header || r[0].kind != RawKind::Add),
        r.len() > 0 && t == u ==> !is_del_entry(r[0]),
        first_pass(lines.take(s)).0.len() == 0 || !is_del_entry(first_pass(lines.take(s)).0.last()),
{
    let pre = first_pass(lines.take(s));
    assert forall|i: int| s <= i < u && i < t implies is_del_line(#[trigger] lines[i]) by {}
    assert forall|i: int| s <= i < u && t <= i implies is_add_line(#[trigger] lines[i]) by {}
    lemma_first_pass_runs(lines, s, t, u);
    let e = run_entries(lines, s, t, u);
    let cur = first_pass(lines.take(u)).0;
    assert(cur == pre.0 + e);
    let full = first_pass(lines).0;
    lemma_first_pass_prefix(lines, u);
    let r = full.skip(cur.len() as int);
    assert(full =~= cur + r);
    if u < lines.len() {
        lemma_first_pass_prefix(lines, u + 1);
        lemma_first_pass_entry(lines, u);
        let next = first_pass(lines.take(u + 1)).0;
        assert(r[0] == full[cur.len() as int]);
        assert(full[cur.len() as int] == full.take(next.len() as int)[cur.len() as int]);
        assert(r[0] == next.last());
    } else {
        assert(lines.take(u) =~= lines);
        assert(r.len() == 0);
    }
    if s > 0 {
        lemma_first_pass_entry(lines, s - 1);
        assert(lines.take(s - 1 + 1) == lines.take(s));
    } else {
        assert(lines.take(s) =~= Seq::<Seq<char>>::empty());
    }
    assert(full =~= pre.0 + (e + r));
    r
}

/// The lines shown for the runs.
#[verifier::spinoff_prover]
#[verifier::rlimit(40)]
proof fn lemma_runs_block(lines: Seq<Seq<char>>, s: int, t: int, u: int, r: Seq<RawEntry>)
    requires
        0 <= s < t <= u <= lines.len(),
    ensures
        ({
            let blk = change_block(run_entries(lines, s, t, u) + r, (t - s) as nat, (u - t) as nat);
            let dels = run_dels(lines, s, t);
            let adds = run_adds(lines, s, t, u);
            &&& t - s == u - t ==> blk == Seq::new((t - s) as nat, |j: int| modified_view(dels[j], adds[j]))
            &&& t - s != u - t ==> blk == dels.map_values(|x: RawEntry| deleted_view(x)) + adds.map_values(
                |x: RawEntry| added_view(x),
            )
        }),
{
    let k = t - s;
    let m = u - t;
    let er = run_entries(lines, s, t, u) + r;
    let dels = run_dels(lines, s, t);
    let adds = run_adds(lines, s, t, u);
    assert forall|j: int| 0 <= j < k implies er[j] == dels[j] by {}
    assert forall|j: int| 0 <= j < m implies er[k + j] == adds[j] by {
        assert(s + (k + j) == t + j);
    }
    let blk = change_block(er, k as nat, m as nat);
    if k == m {
        assert(blk =~= Seq::new(k as nat, |j: int| modified_view(dels[j], adds[j])));
    } else {
        assert(blk =~= dels.map_values(|x: RawEntry| deleted_view(x)) + adds.map_values(|x: RawEntry| added_view(x)));
    }
}

/// Runs of deleted lines followed by added lines pair up exactly when they
/// are equally long. Take a diff text whose lines from `s` up to `t` are
/// deleted lines and from `t` up to `u` added lines, with both runs as long as
/// they go: the line before `s`, if any, is neither a deleted line nor a file
/// header line, and the line at `u`, if any, is neither an added line nor a
/// file header line, nor a deleted line when no added line follows the
/// deleted ones. After the lines shown for the first `s` lines come, when the
/// runs are equally long, one modified line for each deleted line, paired with
/// the added line at the same place in its run; else the deleted lines and
/// then the added lines, and no modified line. Each carries its text without
/// the marker, and the old (deleted) or new (added) numbers count on from the
/// counters after the first `s` lines.
pub proof fn law_change_runs_pair_when_equal(raw: Seq<char>, s: int, t: int, u: int)
    requires
        0 <= s < t <= u <= lines_of(raw).len(),
        forall|i: int| s <= i < t ==> is_del_line(#[trigger] lines_of(raw)[i]),
        forall|i: int| t <= i < u ==> is_add_line(#[trigger] lines_of(raw)[i]),
        s > 0 ==> !is_del_line(lines_of(raw)[s - 1]) && !is_meta_line(lines_of(raw)[s - 1]),
        u < lines_of(raw).len() ==> {
            &&& !is_add_line(lines_of(raw)[u])
            &&& !is_meta_line(lines_of(raw)[u])
            &&& (t == u ==> !is_del_line(lines_of(raw)[u]))
        },
    ensures
        ({
            let lines = lines_of(raw);
            let pre = first_pass(lines.take(s));
            let p = pair_lines(pre.0).len() as int;
            let k = t - s;
            let m = u - t;
            let dels = Seq::new(
                k as nat,
                |j: int| body_entry(RawKind::Del, lines[s + j].skip(1), Some(pre.1 + j), None),
            );
            let adds = Seq::new(
                m as nat,
                |j: int| body_entry(RawKind::Add, lines[t + j].skip(1), None, Some(pre.2 + j)),
            );
            &&& k == m ==> {
                &&& parsed_diff(raw).len() >= p + k
                &&& parsed_diff(raw).subrange(p, p + k) == Seq::new(k as nat, |j: int| modified_view(dels[j], adds[j]))
            }
            &&& k != m ==> {
                &&& parsed_diff(raw).len() >= p + k + m
                &&& parsed_diff(raw).subrange(p, p + k + m) == dels.map_values(|e: RawEntry| deleted_view(e))
                    + adds.map_values(|e: RawEntry| added_view(e))
            }
        }),
{
    let lines = lines_of(raw);
    let pre = first_pass(lines.take(s));
    let k = t - s;
    let m = u - t;
    assert(runs_bounded(lines, s, t, u));
    let r = lemma_runs_split(lines, s, t, u);
    let e = run_entries(lines, s, t, u);
    assert(e[0] == run_entry(lines, s, t, pre.1, pre.2, 0));
    lemma_pair_lines_concat(pre.0, e + r);
    assert forall|j: int| 0 <= j < k implies is_del_entry(#[trigger] e[j]) by {}
    assert forall|j: int| k <= j < k + m implies !(#[trigger] e[j]).is_header && e[j].kind == RawKind::Add by {}
    lemma_pair_lines_block(e, r, k as nat, m as nat);
    lemma_runs_block(lines, s, t, u, r);
    let blk = change_block(e + r, k as nat, m as nat);
    let shown = parsed_diff(raw);
    assert(shown == pair_lines(pre.0) + (blk + pair_lines(r)));
    let p = pair_lines(pre.0).len() as int;
    assert(shown.subrange(p, p + blk.len()) =~= blk);
    assert(run_dels(lines, s, t) == Seq::new(
        k as nat,
        |j: int| body_entry(RawKind::Del, lines[s + j].skip(1), Some(pre.1 + j), None),
    ));
    assert(run_adds(lines, s, t, u) == Seq::new(
        m as nat,
        |j: int| body_entry(RawKind::Add, lines[t + j].skip(1), None, Some(pre.2 + j)),
    ));
}

/// The side's start after reading a hunk header at `h`: the header's own
/// number for a `@@ -a,b +c,d @@` header, else the counter as it stood.
pub open spec fn hunk_side_start(lines: Seq<Seq<char>>, h: int, old_side: bool) -> int {
    let before = first_pass(lines.take(h));
    let nums = hunk_numbers(lines[h], before.1, before.2);
    if old_side {
        nums.0
    } else {
        nums.1
    }
}

/// The entries of a hunk's body lines number on from the header's start.
#[verifier::spinoff_prover]
#[verifier::rlimit(40)]
proof fn lemma_first_pass_hunk_body(lines: Seq<Seq<char>>, h: int, v: int, old_side: bool) -> (body: Seq<RawEntry>)
    requires
        0 <= h < v <= lines.len(),
        has_prefix(lines[h], seq!['@', '@']),
        forall|i: int| h < i < v ==> !has_prefix(#[trigger] lines[i], seq!['@', '@']),
    ensures
        first_pass(lines.take(v)).0 == first_pass(lines.take(h)).0.push(header_entry(lines[h])) + body,
        raw_side_numbers(body, old_side) == Seq::new(
            side_count(lines.subrange(h + 1, v), old_side),
            |i: int| hunk_side_start(lines, h, old_side) + i,
        ),
        counter_on(first_pass(lines.take(v)), old_side) == hunk_side_start(lines, h, old_side) + side_count(
            lines.subrange(h + 1, v),
            old_side,
        ),
    decreases v - h,
{
    let start = hunk_side_start(lines, h, old_side);
    let head = first_pass(lines.take(h)).0.push(header_entry(lines[h]));
    if v == h + 1 {
        lemma_first_pass_step(lines, h);
        assert(lines.subrange(h + 1, v) =~= Seq::<Seq<char>>::empty());
        assert(first_pass(lines.take(v)).0 =~= head + Seq::<RawEntry>::empty());
        assert(Seq::new(0, |i: int| start + i) =~= Seq::<int>::empty());
        Seq::<RawEntry>::empty()
    } else {
        let prev_body = lemma_first_pass_hunk_body(lines, h, v - 1, old_side);
        let w = lines.take(v);
        lemma_first_pass_step(lines, v - 1);
        assert(w.last() == lines[v - 1]);
        let sub = lines.subrange(h + 1, v);
        assert(sub.drop_last() =~= lines.subrange(h + 1, v - 1));
        assert(sub.last() == lines[v - 1]);
        if is_meta_line(lines[v - 1]) {
            assert(first_pass(w) == first_pass(lines.take(v - 1)));
            return prev_body;
        }
        lemma_first_pass_body_step(w, old_side);
        let e = first_pass(w).0.last();
        let body = prev_body.push(e);
        assert(first_pass(w).0 =~= head + body);
        assert(body.drop_last() =~= prev_body);
        let c = side_count(lines.subrange(h + 1, v - 1), old_side);
        if !has_prefix(lines[v - 1], seq![if old_side { '+' } else { '-' }]) {
            assert(raw_side_numbers(body, old_side) =~= Seq::new(c + 1, |i: int| start + i));
        }
        body
    }
}

/// The whole first pass around a hunk: the entries before it, its header,
/// its body, and the rest.
#[verifier::spinoff_prover]
proof fn lemma_hunk_split(lines: Seq<Seq<char>>, h: int, u: int, old_side: bool) -> (parts: (Seq<RawEntry>, Seq<RawEntry>))
    requires
        0 <= h < u <= lines.len(),
        has_prefix(lines[h], seq!['@', '@']),
        forall|i: int| h < i < u ==> !has_prefix(#[trigger] lines[i], seq!['@', '@']),
    ensures
        first_pass(lines).0 == first_pass(lines.take(h)).0 + (seq![header_entry(lines[h])] + (parts.0 + parts.1)),
        raw_side_numbers(parts.0, old_side) == Seq::new(
            side_count(lines.subrange(h + 1, u), old_side),
            |i: int| hunk_side_start(lines, h, old_side) + i,
        ),
{
    let pre = first_pass(lines.take(h)).0;
    let body = lemma_first_pass_hunk_body(lines, h, u, old_side);
    let head = pre.push(header_entry(lines[h]));
    let full = first_pass(lines).0;
    lemma_first_pass_prefix(lines, u);
    let fu = first_pass(lines.take(u)).0;
    let r = full.skip(fu.len() as int);
    assert(full =~= fu + r);
    assert(head =~= pre + seq![header_entry(lines[h])]);
    assert(full =~= pre + (seq![header_entry(lines[h])] + (body + r)));
    (body, r)
}

#[verifier::spinoff_prover]
proof fn lemma_hunk_side_numbers(lines: Seq<Seq<char>>, h: int, u: int, old_side: bool)
    requires
        0 <= h < u <= lines.len(),
        has_prefix(lines[h], seq!['@', '@']),
        forall|i: int| h < i < u ==> !has_prefix(#[trigger] lines[i], seq!['@', '@']),
    ensures
        ({
            let q = side_numbers(pair_lines(first_pass(lines.take(h)).0), old_side).len() as int;
            let c = side_count(lines.subrange(h + 1, u), old_side) as int;
            let shown = side_numbers(pair_lines(first_pass(lines).0), old_side);
            &&& shown.len() >= q + c
            &&& shown.subrange(q, q + c) == Seq::new(c as nat, |i: int| hunk_side_start(lines, h, old_side) + i)
        }),
{
    let pre = first_pass(lines.take(h)).0;
    let parts = lemma_hunk_split(lines, h, u, old_side);
    let body = parts.0;
    let r = parts.1;
    let hdr = seq![header_entry(lines[h])];
    let full = first_pass(lines).0;
    lemma_raw_side_numbers_add(pre, hdr + (body + r), old_side);
    lemma_raw_side_numbers_add(hdr, body + r, old_side);
    lemma_raw_side_numbers_add(body, r, old_side);
    assert(hdr.drop_last() =~= Seq::<RawEntry>::empty());
    assert(hdr.last() == header_entry(lines[h]));
    assert(raw_side_numbers(Seq::<RawEntry>::empty(), old_side) =~= Seq::<int>::empty());
    assert(raw_side_numbers(hdr, old_side) =~= Seq::<int>::empty());
    lemma_first_pass_numbered(lines);
    lemma_first_pass_numbered(lines.take(h));
    lemma_pair_lines_side_numbers(full, old_side);
    lemma_pair_lines_side_numbers(pre, old_side);
    let q = raw_side_numbers(pre, old_side).len() as int;
    let mid = raw_side_numbers(body, old_side);
    let all = raw_side_numbers(full, old_side);
    assert(all =~= raw_side_numbers(pre, old_side) + (mid + raw_side_numbers(r, old_side)));
    assert(all.subrange(q, q + mid.len()) =~= mid);
}

/// Within a hunk, the lines number on from the header's starts: where line
/// `h` of a diff text is a hunk header and none of the lines after it up to
/// `u` is one, the old numbers of the shown lines, right after those of the
/// lines shown for the first `h` lines, are the header's old start and the
/// numbers after it, one for each of those lines that is neither an addition
/// nor a file header line (which is skipped); and likewise the new numbers
/// from the new start, one for each that is neither a deletion nor a file
/// header line.
pub proof fn law_hunk_numbers_count_up(raw: Seq<char>, h: int, u: int, old_side: bool)
    requires
        0 <= h < u <= lines_of(raw).len(),
        has_prefix(lines_of(raw)[h], seq!['@', '@']),
        forall|i: int| h < i < u ==> !has_prefix(#[trigger] lines_of(raw)[i], seq!['@', '@']),
    ensures
        ({
            let lines = lines_of(raw);
            let q = side_numbers(pair_lines(first_pass(lines.take(h)).0), old_side).len() as int;
            let c = side_count(lines.subrange(h + 1, u), old_side) as int;
            &&& side_numbers(parsed_diff(raw), old_side).len() >= q + c
            &&& side_numbers(parsed_diff(raw), old_side).subrange(q, q + c) == Seq::new(
                c as nat,
                |i: int| hunk_side_start(lines, h, old_side) + i,
            )
        }),
{
    lemma_hunk_side_numbers(lines_of(raw), h, u, old_side);
}

/// A line that the first pass reads as an unchanged line: no hunk header,
/// no file header line, no addition or deletion.
pub open spec fn is_context_line(line: Seq<char>) -> bool {
    &&& !has_prefix(line, seq!['@', '@'])
    &&& !is_meta_line(line)
    &&& !has_prefix(line, seq!['+'])
    &&& !has_prefix(line, seq!['-'])
}

/// The text an unchanged line shows: without its leading space, if any.
pub open spec fn context_text(line: Seq<char>) -> Seq<char> {
    if has_prefix(line, seq![' ']) {
        line.skip(1)
    } else {
        line
    }
}

/// True when the shown line `v` shows the diff line `line` as its kind
/// asks: a hunk header as it is, an added or a deleted line (or the old side
/// of a modified line) without its marker, an unchanged line without its
/// leading space.
pub open spec fn shows_line(v: DiffLineView, line: Seq<char>) -> bool {
    match v.kind {
        DiffLineKind::HunkHeader => has_prefix(line, seq!['@', '@']) && v.content == line,
        DiffLineKind::Added => is_add_line(line) && v.content == line.skip(1),
        DiffLineKind::Deleted => is_del_line(line) && v.content == line.skip(1),
        DiffLineKind::Modified { .. } => is_del_line(line) && v.content == line.skip(1),
        DiffLineKind::Context => is_context_line(line) && v.content == context_text(line),
    }
}

spec fn entry_from_line(e: RawEntry, line: Seq<char>) -> bool {
    if e.is_header {
        has_prefix(line, seq!['@', '@']) && e.content == line
    } else {
        match e.kind {
            RawKind::Add => is_add_line(line) && e.content == line.skip(1),
            RawKind::Del => is_del_line(line) && e.content == line.skip(1),
            RawKind::Ctx => is_context_line(line) && e.content == context_text(line),
        }
    }
}

spec fn entry_from(e: RawEntry, lines: Seq<Seq<char>>) -> bool {
    exists|k: int| 0 <= k < lines.len() && #[trigger] entry_from_line(e, lines[k])
}

spec fn shown_from(v: DiffLineView, lines: Seq<Seq<char>>) -> bool {
    &&& exists|k: int| 0 <= k < lines.len() && #[trigger] shows_line(v, lines[k])
    &&& v.kind is Modified ==> exists|k: int|
        0 <= k < lines.len() && is_add_line(#[trigger] lines[k]) && v.new_content == Some(lines[k].skip(1))
}

proof fn lemma_entry_witness(e: RawEntry, lines: Seq<Seq<char>>) -> (k: int)
    requires
        entry_from(e, lines),
    ensures
        0 <= k < lines.len(),
        entry_from_line(e, lines[k]),
{
    choose|k: int| 0 <= k < lines.len() && #[trigger] entry_from_line(e, lines[k])
}

#[verifier::spinoff_prover]
#[verifier::rlimit(40)]
proof fn lemma_first_pass_from_lines(lines: Seq<Seq<char>>)
    ensures
        forall|i: int| 0 <= i < first_pass(lines).0.len() ==> entry_from(#[trigger] first_pass(lines).0[i], lines),
    decreases lines.len(),
{
    if lines.len() > 0 {
        let d = lines.drop_last();
        lemma_first_pass_from_lines(d);
        let prev = first_pass(d).0;
        let cur = first_pass(lines).0;
        let line = lines.last();
        assert(line == lines[lines.len() - 1]);
        assert forall|i: int| 0 <= i < cur.len() implies entry_from(#[trigger] cur[i], lines) by {
            if i < prev.len() {
                assert(cur[i] == prev[i]);
                let k = lemma_entry_witness(prev[i], d);
                assert(lines[k] == d[k]);
                assert(entry_from_line(cur[i], lines[k]));
            } else {
                if has_prefix(line, seq!['+']) {
                    lemma_first_char(line, seq!['+']);
                    if has_prefix(line, seq!['@', '@']) {
                        lemma_first_char(line, seq!['@', '@']);
                    }
                    if has_prefix(line, seq!['-']) {
                        lemma_first_char(line, seq!['-']);
                    }
                }
                if has_prefix(line, seq!['-']) {
                    lemma_first_char(line, seq!['-']);
                    if has_prefix(line, seq!['@', '@']) {
                        lemma_first_char(line, seq!['@', '@']);
                    }
                }
                assert(entry_from_line(cur[i], lines[lines.len() - 1]));
            }
        }
    }
}

proof fn lemma_view_from_entry(e: RawEntry, lines: Seq<Seq<char>>)
    requires
        entry_from(e, lines),
    ensures
        e.is_header ==> shown_from(header_view(e), lines),
        !e.is_header && e.kind == RawKind::Add ==> shown_from(added_view(e), lines),
        !e.is_header && e.kind == RawKind::Del ==> shown_from(deleted_view(e), lines),
        !e.is_header && e.kind == RawKind::Ctx ==> shown_from(context_view(e), lines),
{
    let k = lemma_entry_witness(e, lines);
    if e.is_header {
        assert(shows_line(header_view(e), lines[k]));
    } else if e.kind == RawKind::Add {
        assert(shows_line(added_view(e), lines[k]));
    } else if e.kind == RawKind::Del {
        assert(shows_line(deleted_view(e), lines[k]));
    } else {
        assert(shows_line(context_view(e), lines[k]));
    }
}

proof fn lemma_modified_from_entries(d: RawEntry, a: RawEntry, lines: Seq<Seq<char>>)
    requires
        entry_from(d, lines),
        entry_from(a, lines),
        !d.is_header && d.kind == RawKind::Del,
        !a.is_header && a.kind == RawKind::Add,
    ensures
        shown_from(modified_view(d, a), lines),
{
    let k = lemma_entry_witness(d, lines);
    let k2 = lemma_entry_witness(a, lines);
    assert(shows_line(modified_view(d, a), lines[k]));
    assert(is_add_line(lines[k2]) && modified_view(d, a).new_content == Some(lines[k2].skip(1)));
}

#[verifier::spinoff_prover]
#[verifier::rlimit(40)]
proof fn lemma_pair_lines_from(raw: Seq<RawEntry>, lines: Seq<Seq<char>>)
    requires
        forall|i: int| 0 <= i < raw.len() ==> entry_from(#[trigger] raw[i], lines),
    ensures
        forall|i: int| 0 <= i < pair_lines(raw).len() ==> shown_from(#[trigger] pair_lines(raw)[i], lines),
    decreases raw.len(),
{
    if raw.len() > 0 {
        let e = raw[0];
        assert(entry_from(raw[0], lines));
        if e.is_header || e.kind != RawKind::Del {
            let rest = raw.drop_first();
            assert forall|i: int| 0 <= i < rest.len() implies entry_from(#[trigger] rest[i], lines) by {
                assert(rest[i] == raw[i + 1]);
            }
            lemma_pair_lines_from(rest, lines);
            lemma_view_from_entry(e, lines);
            let head = if e.is_header {
                header_view(e)
            } else if e.kind == RawKind::Add {
                added_view(e)
            } else {
                context_view(e)
            };
            assert(pair_lines(raw) == seq![head] + pair_lines(rest));
            assert forall|i: int| 0 <= i < pair_lines(raw).len() implies shown_from(#[trigger] pair_lines(raw)[i], lines) by {
                if i > 0 {
                    assert(pair_lines(raw)[i] == pair_lines(rest)[i - 1]);
                }
            }
        } else {
            let d = del_run(raw);
            let a = add_run(raw);
            lemma_leading_count(raw, RawKind::Del);
            lemma_leading_count(raw.skip(d as int), RawKind::Add);
            let rest = raw.skip((d + a) as int);
            assert forall|i: int| 0 <= i < rest.len() implies entry_from(#[trigger] rest[i], lines) by {
                assert(rest[i] == raw[i + d + a]);
            }
            lemma_pair_lines_from(rest, lines);
            let block = change_block(raw, d, a);
            assert forall|j: int| 0 <= j < d implies !(#[trigger] raw[j]).is_header && raw[j].kind == RawKind::Del by {}
            assert forall|j: int| 0 <= j < a implies !(#[trigger] raw[d + j]).is_header && raw[d + j].kind == RawKind::Add by {
                assert(raw.skip(d as int)[j] == raw[d + j]);
            }
            assert forall|j: int| 0 <= j < block.len() implies shown_from(#[trigger] block[j], lines) by {
                if d == a {
                    assert(entry_from(raw[j], lines));
                    assert(entry_from(raw[d + j], lines));
                    lemma_modified_from_entries(raw[j], raw[d + j], lines);
                } else if j < d {
                    assert(entry_from(raw[j], lines));
                    lemma_view_from_entry(raw[j], lines);
                } else {
                    assert(entry_from(raw[d + (j - d)], lines));
                    lemma_view_from_entry(raw[d + (j - d)], lines);
                }
            }
            assert(pair_lines(raw) == block + pair_lines(rest));
            assert forall|i: int| 0 <= i < pair_lines(raw).len() implies shown_from(#[trigger] pair_lines(raw)[i], lines) by {
                if i >= block.len() {
                    assert(pair_lines(raw)[i] == pair_lines(rest)[i - block.len()]);
                } else {
                    assert(pair_lines(raw)[i] == block[i]);
                }
            }
        }
    }
}

/// Every shown line carries the text of a line of the diff, as its kind
/// asks: a hunk header is a diff line starting with `@@`, as it is; an added
/// line is a diff line starting with `+` (not `+++`) without that marker; a
/// deleted line, and the old side of a modified line, a line starting with
/// `-` (not `---`) without that marker, and the new side of a modified line
/// a line starting with `+` without it; an unchanged line a line that is
/// none of these (nor another file header line), without its leading space.
pub proof fn law_parsed_lines_show_diff_lines(raw: Seq<char>)
    ensures
        forall|j: int|
            0 <= j < parsed_diff(raw).len() ==> {
                &&& exists|k: int| 0 <= k < lines_of(raw).len() && #[trigger] shows_line(parsed_diff(raw)[j], lines_of(raw)[k])
                &&& (#[trigger] parsed_diff(raw)[j]).kind is Modified ==> exists|k: int|
                    0 <= k < lines_of(raw).len() && is_add_line(#[trigger] lines_of(raw)[k])
                        && parsed_diff(raw)[j].new_content == Some(lines_of(raw)[k].skip(1))
            },
{
    let lines = lines_of(raw);
    lemma_first_pass_from_lines(lines);
    lemma_pair_lines_from(first_pass(lines).0, lines);
    assert forall|j: int| 0 <= j < parsed_diff(raw).len() implies shown_from(#[trigger] parsed_diff(raw)[j], lines) by {}
}

} // verus!
