//! The rows of the plain diff view: each line of a unified diff with its
//! colour role and its line numbers in the old and the new file.
use vstd::prelude::*;

use crate::diff_model::{before_char, before_char_exec};
use crate::text::{
    all_digits, chars_of, digits_value, find_chars, first_occurrence, has_prefix,
    lemma_first_occurrence_is, lines_of, parse_usize, parsed_usize, split_lines, starts_with,
    string_of, trim_chars, trimmed,
};

verus! {

/// The colour role of a diff row.
#[derive(Clone, Copy, PartialEq, Eq, Structural, Debug)]
pub enum DiffRowTone {
    Added,
    Deleted,
    Hunk,
    Plain,
}

/// One row of the plain diff view.
pub struct DiffTextRow {
    pub tone: DiffRowTone,
    pub old_num: Option<i32>,
    pub new_num: Option<i32>,
    pub text: String,
}

/// A row as the specification speaks of it.
pub struct DiffRowView {
    pub tone: DiffRowTone,
    pub old_num: Option<int>,
    pub new_num: Option<int>,
    pub text: Seq<char>,
}

/// The number, if any, as a mathematical integer.
pub open spec fn opt_i32(n: Option<i32>) -> Option<int> {
    match n {
        Some(v) => Some(v as int),
        None => None,
    }
}

impl View for DiffTextRow {
    type V = DiffRowView;

    open spec fn view(&self) -> DiffRowView {
        DiffRowView {
            tone: self.tone,
            old_num: opt_i32(self.old_num),
            new_num: opt_i32(self.new_num),
            text: self.text@,
        }
    }
}

/// The views of a list of rows.
pub open spec fn row_views(v: Seq<DiffTextRow>) -> Seq<DiffRowView> {
    v.map_values(|r: DiffTextRow| r@)
}

/// `s` without its leading run of `c`, as `trim_start_matches(c)` gives it.
pub open spec fn strip_leading(s: Seq<char>, c: char) -> Seq<char>
    decreases s.len(),
{
    if s.len() > 0 && s[0] == c {
        strip_leading(s.drop_first(), c)
    } else {
        s
    }
}

/// What `s.parse::<i32>()` gives, as an option: an optional sign, then at
/// least one decimal digit, and a value within `i32`.
pub open spec fn parsed_i32(s: Seq<char>) -> Option<i32> {
    let neg = s.len() > 0 && s[0] == '-';
    let d = if s.len() > 0 && (s[0] == '+' || s[0] == '-') {
        s.drop_first()
    } else {
        s
    };
    let v: int = if neg {
        -(digits_value(d) as int)
    } else {
        digits_value(d) as int
    };
    if d.len() > 0 && all_digits(d) && i32::MIN <= v <= i32::MAX {
        Some(v as i32)
    } else {
        None
    }
}

/// The number `s` parses to, or zero.
pub open spec fn i32_or_zero(s: Seq<char>) -> int {
    match parsed_i32(s) {
        Some(v) => v as int,
        None => 0,
    }
}

/// `s` up to the first occurrence of `sep`, as `s.split(sep).next()` gives it.
pub open spec fn before_seq(s: Seq<char>, sep: Seq<char>) -> Seq<char> {
    match first_occurrence(s, sep) {
        Some(i) => s.take(i),
        None => s,
    }
}

/// The starting line numbers that a hunk header gives: the text between the
/// first and the second `@@`, trimmed, split at spaces; the first two pieces
/// without their leading `-` or `+` and up to a comma, each parsed or zero.
/// A header with a single piece gives none.
pub open spec fn hunk_starts(line: Seq<char>) -> Option<(int, int)> {
    let info = trimmed(before_seq(line.skip(2), "@@"@));
    match first_occurrence(info, seq![' ']) {
        Some(i) => Some(
            (
                i32_or_zero(before_char(strip_leading(info.take(i), '-'), ',')),
                i32_or_zero(before_char(strip_leading(before_char(info.skip(i + 1), ' '), '+'), ',')),
            ),
        ),
        None => None,
    }
}

/// The colour role of a line: additions and deletions (not the file header
/// lines), hunk headers, and the rest.
pub open spec fn row_tone(line: Seq<char>) -> DiffRowTone {
    if has_prefix(line, "+"@) && !has_prefix(line, "+++"@) {
        DiffRowTone::Added
    } else if has_prefix(line, "-"@) && !has_prefix(line, "---"@) {
        DiffRowTone::Deleted
    } else if has_prefix(line, "@@ "@) {
        DiffRowTone::Hunk
    } else {
        DiffRowTone::Plain
    }
}

/// The file header lines, which end a hunk.
pub open spec fn ends_hunk(line: Seq<char>) -> bool {
    ||| has_prefix(line, "diff --git"@)
    ||| has_prefix(line, "index "@)
    ||| has_prefix(line, "--- "@)
    ||| has_prefix(line, "+++ "@)
}

/// A row.
pub open spec fn row(line: Seq<char>, old_num: Option<int>, new_num: Option<int>) -> DiffRowView {
    DiffRowView { tone: row_tone(line), old_num, new_num, text: line }
}

/// The rows of the lines, and the old and new counters and whether a hunk is
/// open after the last line. Inside a hunk an added line takes the next new
/// number, a deleted line the next old number, and any other line but a
/// `\` note both.
pub open spec fn text_pass(lines: Seq<Seq<char>>) -> (Seq<DiffRowView>, int, int, bool)
    decreases lines.len(),
{
    if lines.len() == 0 {
        (Seq::<DiffRowView>::empty(), 0, 0, false)
    } else {
        let prev = text_pass(lines.drop_last());
        let rows = prev.0;
        let line = lines.last();
        let is_header = has_prefix(line, "@@ "@);
        let after: (int, int, bool) = if is_header {
            match hunk_starts(line) {
                Some(n) => (n.0, n.1, true),
                None => (prev.1, prev.2, prev.3),
            }
        } else if ends_hunk(line) {
            (prev.1, prev.2, false)
        } else {
            (prev.1, prev.2, prev.3)
        };
        let old = after.0;
        let new = after.1;
        let in_hunk = after.2;
        if in_hunk && !is_header {
            if has_prefix(line, "+"@) {
                (rows.push(row(line, None, Some(new))), old, new + 1, in_hunk)
            } else if has_prefix(line, "-"@) {
                (rows.push(row(line, Some(old), None)), old + 1, new, in_hunk)
            } else if !has_prefix(line, "\\"@) {
                (rows.push(row(line, Some(old), Some(new))), old + 1, new + 1, in_hunk)
            } else {
                (rows.push(row(line, None, None)), old, new, in_hunk)
            }
        } else {
            (rows.push(row(line, None, None)), old, new, in_hunk)
        }
    }
}

/// True when no line counter passes `i32::MAX` while the lines are read.
pub open spec fn text_counters_fit(lines: Seq<Seq<char>>) -> bool {
    forall|k: int|
        #![trigger text_pass(lines.take(k))]
        0 <= k <= lines.len() ==> text_pass(lines.take(k)).1 <= i32::MAX && text_pass(
            lines.take(k),
        ).2 <= i32::MAX
}

/// The rows of a diff text.
pub open spec fn diff_rows(diff_text: Seq<char>) -> Seq<DiffRowView> {
    text_pass(lines_of(diff_text)).0
}

/// True when the line numbers of the diff text fit in `i32`.
pub open spec fn diff_rows_fit(diff_text: Seq<char>) -> bool {
    text_counters_fit(lines_of(diff_text))
}

fn strip_leading_exec(s: &[char], c: char) -> (res: &[char])
    ensures
        res@ == strip_leading(s@, c),
{
    let mut i: usize = 0;
    assert(s@.skip(0) =~= s@);
    while i < s.len() && s[i] == c
        invariant
            i <= s@.len(),
            strip_leading(s@, c) == strip_leading(s@.skip(i as int), c),
        decreases s@.len() - i,
    {
        assert(s@.skip(i as int).drop_first() =~= s@.skip(i + 1));
        i = i + 1;
    }
    let rest = &s[i..s.len()];
    assert(rest@ =~= s@.skip(i as int));
    rest
}

/// Parses a decimal `i32` the way `str::parse` does, giving `None` where it fails.
pub fn parse_i32(s: &[char]) -> (res: Option<i32>)
    ensures
        res == parsed_i32(s@),
{
    let neg = s.len() > 0 && s[0] == '-';
    let start: usize = if s.len() > 0 && (s[0] == '+' || s[0] == '-') {
        1
    } else {
        0
    };
    let d = &s[start..s.len()];
    let ghost dv = if s@.len() > 0 && (s@[0] == '+' || s@[0] == '-') {
        s@.drop_first()
    } else {
        s@
    };
    assert(d@ =~= dv);
    if d.len() > 0 && d[0] == '+' {
        assert(!all_digits(dv)) by {
            assert(!('0' <= dv[0] <= '9'));
        }
        return None;
    }
    assert(parsed_usize(d@) == (if d@.len() > 0 && all_digits(d@) && digits_value(d@) <= usize::MAX {
        Some(digits_value(d@) as usize)
    } else {
        None
    })) by {
        if d@.len() > 0 {
            assert(d@[0] != '+');
        }
    }
    match parse_usize(d) {
        Some(v) => {
            if neg {
                if v <= 2147483648 {
                    let w: i64 = 0i64 - (v as i64);
                    Some(w as i32)
                } else {
                    None
                }
            } else if v <= 2147483647 {
                Some(v as i32)
            } else {
                None
            }
        },
        None => {
            assert(!(dv.len() > 0 && all_digits(dv) && digits_value(dv) <= usize::MAX));
            None
        },
    }
}

fn i32_or_zero_exec(s: &[char]) -> (res: i32)
    ensures
        res as int == i32_or_zero(s@),
{
    match parse_i32(s) {
        Some(v) => v,
        None => 0,
    }
}

fn before_seq_exec<'a>(s: &'a [char], sep: &[char]) -> (res: &'a [char])
    ensures
        res@ == before_seq(s@, sep@),
{
    match find_chars(s, sep) {
        Some(i) => {
            proof {
                lemma_first_occurrence_is(s@, sep@, i as int);
            }
            let r = &s[0..i];
            assert(r@ =~= s@.take(i as int));
            r
        },
        None => s,
    }
}

/// Reads the starting line numbers of a hunk header.
pub fn hunk_starts_exec(line: &[char]) -> (res: Option<(i32, i32)>)
    requires
        line@.len() >= 2,
    ensures
        match res {
            Some(n) => hunk_starts(line@) == Some((n.0 as int, n.1 as int)),
            None => hunk_starts(line@) is None,
        },
{
    let after = &line[2..line.len()];
    assert(after@ =~= line@.skip(2));
    let ats: Vec<char> = vec!['@', '@'];
    assert(ats@ =~= "@@"@) by {
        reveal_strlit("@@");
    }
    let head = before_seq_exec(after, ats.as_slice());
    let info = trim_chars(head);
    let space: Vec<char> = vec![' '];
    assert(space@ =~= seq![' ']);
    match find_chars(info.as_slice(), space.as_slice()) {
        Some(i) => {
            proof {
                lemma_first_occurrence_is(info@, seq![' '], i as int);
            }
            let first = &info.as_slice()[0..i];
            assert(first@ =~= info@.take(i as int));
            let n = info.len();
            let rest = &info.as_slice()[i + 1..n];
            assert(rest@ =~= info@.skip(i + 1));
            let old_part = before_char_exec(strip_leading_exec(first, '-'), ',');
            let second = before_char_exec(rest, ' ');
            let new_part = before_char_exec(strip_leading_exec(second.as_slice(), '+'), ',');
            Some((i32_or_zero_exec(old_part.as_slice()), i32_or_zero_exec(new_part.as_slice())))
        },
        None => None,
    }
}

proof fn lemma_text_pass_step(ls: Seq<Seq<char>>, i: int)
    requires
        0 <= i < ls.len(),
    ensures
        ls.take(i + 1).drop_last() == ls.take(i),
        ls.take(i + 1).last() == ls[i],
        ls.take(i + 1).len() > 0,
{
    assert(ls.take(i + 1).drop_last() =~= ls.take(i));
}

spec fn line_seqs(v: Seq<Vec<char>>) -> Seq<Seq<char>> {
    v.map_values(|l: Vec<char>| l@)
}

fn tone_of(line: &[char], p_plus: &[char], p_plus3: &[char], p_minus: &[char], p_minus3: &[char], p_hunk: &[char]) -> (res: DiffRowTone)
    requires
        p_plus@ == "+"@,
        p_plus3@ == "+++"@,
        p_minus@ == "-"@,
        p_minus3@ == "---"@,
        p_hunk@ == "@@ "@,
    ensures
        res == row_tone(line@),
{
    if starts_with(line, p_plus) && !starts_with(line, p_plus3) {
        DiffRowTone::Added
    } else if starts_with(line, p_minus) && !starts_with(line, p_minus3) {
        DiffRowTone::Deleted
    } else if starts_with(line, p_hunk) {
        DiffRowTone::Hunk
    } else {
        DiffRowTone::Plain
    }
}

/// Works out the rows of a diff text, or none when a line number would pass
/// `i32::MAX`.
#[verifier::spinoff_prover]
#[verifier::rlimit(60)]
pub fn diff_rows_checked(diff_text: &str) -> (res: Option<Vec<DiffTextRow>>)
    ensures
        res is Some <==> diff_rows_fit(diff_text@),
        res matches Some(v) ==> row_views(v@) == diff_rows(diff_text@),
{
    let chars = chars_of(diff_text);
    let lines = split_lines(chars.as_slice());
    let ghost ls = line_seqs(lines@);
    assert(ls =~= lines_of(diff_text@));
    let p_plus: Vec<char> = chars_of("+");
    let p_plus3: Vec<char> = chars_of("+++");
    let p_minus: Vec<char> = chars_of("-");
    let p_minus3: Vec<char> = chars_of("---");
    let p_hunk: Vec<char> = chars_of("@@ ");
    let p_diff: Vec<char> = chars_of("diff --git");
    let p_index: Vec<char> = chars_of("index ");
    let p_minus3s: Vec<char> = chars_of("--- ");
    let p_plus3s: Vec<char> = chars_of("+++ ");
    let p_note: Vec<char> = chars_of("\\");
    let mut rows: Vec<DiffTextRow> = Vec::new();
    let mut old_line: i32 = 0;
    let mut new_line: i32 = 0;
    let mut in_hunk = false;
    let mut i: usize = 0;
    assert(row_views(rows@) =~= text_pass(ls.take(0)).0);
    while i < lines.len()
        invariant
            i <= lines@.len(),
            ls == line_seqs(lines@),
            ls == lines_of(diff_text@),
            p_plus@ == "+"@,
            p_plus3@ == "+++"@,
            p_minus@ == "-"@,
            p_minus3@ == "---"@,
            p_hunk@ == "@@ "@,
            p_diff@ == "diff --git"@,
            p_index@ == "index "@,
            p_minus3s@ == "--- "@,
            p_plus3s@ == "+++ "@,
            p_note@ == "\\"@,
            row_views(rows@) == text_pass(ls.take(i as int)).0,
            old_line as int == text_pass(ls.take(i as int)).1,
            new_line as int == text_pass(ls.take(i as int)).2,
            in_hunk == text_pass(ls.take(i as int)).3,
            forall|k: int|
                #![trigger text_pass(ls.take(k))]
                0 <= k <= i ==> text_pass(ls.take(k)).1 <= i32::MAX && text_pass(ls.take(k)).2
                    <= i32::MAX,
        decreases lines@.len() - i,
    {
        proof {
            lemma_text_pass_step(ls, i as int);
        }
        let line = &lines[i];
        assert(line@ == ls[i as int]);
        let ghost prev_rows = rows@;
        let ghost next = text_pass(ls.take(i + 1));
        let is_header = starts_with(line.as_slice(), p_hunk.as_slice());
        if is_header {
            proof {
                reveal_strlit("@@ ");
            }
            match hunk_starts_exec(line.as_slice()) {
                Some(n) => {
                    old_line = n.0;
                    new_line = n.1;
                    in_hunk = true;
                },
                None => {},
            }
        } else if starts_with(line.as_slice(), p_diff.as_slice()) || starts_with(
            line.as_slice(),
            p_index.as_slice(),
        ) || starts_with(line.as_slice(), p_minus3s.as_slice()) || starts_with(
            line.as_slice(),
            p_plus3s.as_slice(),
        ) {
            in_hunk = false;
        }
        let tone = tone_of(
            line.as_slice(),
            p_plus.as_slice(),
            p_plus3.as_slice(),
            p_minus.as_slice(),
            p_minus3.as_slice(),
            p_hunk.as_slice(),
        );
        let text = string_of(line.as_slice());
        let mut old_num: Option<i32> = None;
        let mut new_num: Option<i32> = None;
        if in_hunk && !is_header {
            if starts_with(line.as_slice(), p_plus.as_slice()) {
                new_num = Some(new_line);
                if new_line == i32::MAX {
                    assert(!text_counters_fit(ls));
                    return None;
                }
                new_line = new_line + 1;
            } else if starts_with(line.as_slice(), p_minus.as_slice()) {
                old_num = Some(old_line);
                if old_line == i32::MAX {
                    assert(!text_counters_fit(ls));
                    return None;
                }
                old_line = old_line + 1;
            } else if !starts_with(line.as_slice(), p_note.as_slice()) {
                old_num = Some(old_line);
                new_num = Some(new_line);
                if old_line == i32::MAX || new_line == i32::MAX {
                    assert(!text_counters_fit(ls));
                    return None;
                }
                old_line = old_line + 1;
                new_line = new_line + 1;
            }
        }
        let r = DiffTextRow { tone, old_num, new_num, text };
        rows.push(r);
        assert(row_views(rows@) =~= row_views(prev_rows).push(r@));
        i = i + 1;
    }
    proof {
        assert(ls.take(lines@.len() as int) =~= ls);
        assert(text_counters_fit(ls));
    }
    Some(rows)
}

/// Works out the rows of a diff text whose line numbers fit in `i32`.
pub fn diff_rows_exec(diff_text: &str) -> (res: Vec<DiffTextRow>)
    requires
        diff_rows_fit(diff_text@),
    ensures
        row_views(res@) == diff_rows(diff_text@),
{
    match diff_rows_checked(diff_text) {
        Some(v) => v,
        None => Vec::new(),
    }
}


proof fn lemma_text_pass_rows(lines: Seq<Seq<char>>)
    ensures
        text_pass(lines).0.len() == lines.len(),
        forall|i: int|
            0 <= i < lines.len() ==> (#[trigger] text_pass(lines).0[i]).text == lines[i]
                && text_pass(lines).0[i].tone == row_tone(lines[i]),
    decreases lines.len(),
{
    if lines.len() > 0 {
        lemma_text_pass_rows(lines.drop_last());
        let prev = text_pass(lines.drop_last()).0;
        assert forall|i: int| 0 <= i < lines.len() implies (#[trigger] text_pass(lines).0[i]).text == lines[i]
            && text_pass(lines).0[i].tone == row_tone(lines[i]) by {
            if i < lines.len() - 1 {
                assert(text_pass(lines).0[i] == prev[i]);
                assert(lines.drop_last()[i] == lines[i]);
            }
        }
    }
}

/// Every line of a diff text shows as one row, in order: the row's text is
/// the line unchanged, and its colour role depends on the line alone.
pub proof fn law_diff_rows_show_every_line(diff_text: Seq<char>)
    ensures
        diff_rows(diff_text).len() == lines_of(diff_text).len(),
        forall|i: int|
            0 <= i < lines_of(diff_text).len() ==> (#[trigger] diff_rows(diff_text)[i]).text
                == lines_of(diff_text)[i] && diff_rows(diff_text)[i].tone == row_tone(
                lines_of(diff_text)[i],
            ),
{
    lemma_text_pass_rows(lines_of(diff_text));
}

/// True when a line inside a hunk takes an old number: it is neither an
/// addition nor a `\\` note.
pub open spec fn takes_old_number(line: Seq<char>) -> bool {
    !has_prefix(line, "+"@) && !has_prefix(line, "\\"@)
}

/// True when a line inside a hunk takes a new number: it is neither a
/// deletion nor a `\\` note.
pub open spec fn takes_new_number(line: Seq<char>) -> bool {
    !has_prefix(line, "-"@) && !has_prefix(line, "\\"@)
}

/// How many of the lines take a number on the old side (`old_side`) or the new side.
pub open spec fn numbered_count(lines: Seq<Seq<char>>, old_side: bool) -> nat
    decreases lines.len(),
{
    if lines.len() == 0 {
        0
    } else {
        numbered_count(lines.drop_last(), old_side) + (if (if old_side {
            takes_old_number(lines.last())
        } else {
            takes_new_number(lines.last())
        }) {
            1nat
        } else {
            0nat
        })
    }
}

/// The rows of the first `v` lines are the first `v` rows.
proof fn lemma_text_pass_prefix(lines: Seq<Seq<char>>, v: int)
    requires
        0 <= v <= lines.len(),
    ensures
        text_pass(lines).0.len() == lines.len(),
        text_pass(lines.take(v)).0 == text_pass(lines).0.take(v),
    decreases lines.len(),
{
    lemma_text_pass_rows(lines);
    if v == lines.len() {
        assert(lines.take(v) =~= lines);
        assert(text_pass(lines).0.take(v) =~= text_pass(lines).0);
    } else {
        let d = lines.drop_last();
        assert(d.take(v) =~= lines.take(v));
        lemma_text_pass_prefix(d, v);
        lemma_text_pass_rows(d);
        assert(text_pass(lines).0.take(v) =~= text_pass(d).0.take(v));
    }
}

/// Inside a hunk, from its header at `h` up to `v`, the counters stand at
/// the header's starts plus the lines that took a number, and each row
/// carries the numbers counted so far.
#[verifier::spinoff_prover]
#[verifier::rlimit(40)]
proof fn lemma_text_pass_hunk(lines: Seq<Seq<char>>, h: int, v: int)
    requires
        0 <= h < v <= lines.len(),
        has_prefix(lines[h], "@@ "@),
        hunk_starts(lines[h]) is Some,
        forall|i: int| h < i < v ==> !has_prefix(#[trigger] lines[i], "@@ "@) && !ends_hunk(lines[i]),
    ensures
        ({
            let st = hunk_starts(lines[h]).unwrap();
            let tp = text_pass(lines.take(v));
            &&& tp.1 == st.0 + numbered_count(lines.subrange(h + 1, v), true)
            &&& tp.2 == st.1 + numbered_count(lines.subrange(h + 1, v), false)
            &&& tp.3
            &&& tp.0.len() == v
            &&& forall|k: int|
                h < k < v ==> {
                    &&& (#[trigger] tp.0[k]).old_num == (if takes_old_number(lines[k]) {
                        Some(st.0 + numbered_count(lines.subrange(h + 1, k), true))
                    } else {
                        None
                    })
                    &&& tp.0[k].new_num == (if takes_new_number(lines[k]) {
                        Some(st.1 + numbered_count(lines.subrange(h + 1, k), false))
                    } else {
                        None
                    })
                }
        }),
    decreases v - h,
{
    reveal_strlit("+");
    reveal_strlit("-");
    reveal_strlit("\\");
    let st = hunk_starts(lines[h]).unwrap();
    let w = lines.take(v);
    assert(w.drop_last() =~= lines.take(v - 1));
    assert(w.last() == lines[v - 1]);
    lemma_text_pass_rows(w);
    if v == h + 1 {
        assert(lines.subrange(h + 1, v) =~= Seq::<Seq<char>>::empty());
    } else {
        lemma_text_pass_hunk(lines, h, v - 1);
        lemma_text_pass_rows(lines.take(v - 1));
        let line = lines[v - 1];
        let sub = lines.subrange(h + 1, v);
        assert(sub.drop_last() =~= lines.subrange(h + 1, v - 1));
        assert(sub.last() == line);
        if has_prefix(line, "+"@) {
            assert(line[0] == '+') by {
                assert(line.take(1)[0] == line[0]);
            }
            if has_prefix(line, "-"@) {
                assert(line.take(1)[0] == line[0]);
            }
            if has_prefix(line, "\\"@) {
                assert(line.take(1)[0] == line[0]);
            }
        } else if has_prefix(line, "-"@) {
            assert(line[0] == '-') by {
                assert(line.take(1)[0] == line[0]);
            }
            if has_prefix(line, "\\"@) {
                assert(line.take(1)[0] == line[0]);
            }
        }
        let prev = text_pass(lines.take(v - 1)).0;
        assert forall|k: int| h < k < v - 1 implies #[trigger] text_pass(w).0[k] == prev[k] by {}
    }
}

/// Inside a hunk the numbers count up from the header's starts, one per
/// line: where line `h` of a diff text is a hunk header with its starts and
/// none of the lines after it up to `u` is another hunk header or a file
/// header line, the row of each of those lines carries as old number the
/// old start plus the number of lines before it in the hunk that are
/// neither additions nor `\\` notes, unless it is one itself (then none);
/// and likewise as new number the new start plus the lines before it that
/// are neither deletions nor notes.
pub proof fn law_text_rows_count_up(diff_text: Seq<char>, h: int, u: int)
    requires
        0 <= h < u <= lines_of(diff_text).len(),
        has_prefix(lines_of(diff_text)[h], "@@ "@),
        hunk_starts(lines_of(diff_text)[h]) is Some,
        forall|i: int| h < i < u ==> !has_prefix(#[trigger] lines_of(diff_text)[i], "@@ "@) && !ends_hunk(lines_of(diff_text)[i]),
    ensures
        ({
            let lines = lines_of(diff_text);
            let st = hunk_starts(lines[h]).unwrap();
            forall|k: int|
                h < k < u ==> {
                    &&& (#[trigger] diff_rows(diff_text)[k]).old_num == (if takes_old_number(lines[k]) {
                        Some(st.0 + numbered_count(lines.subrange(h + 1, k), true))
                    } else {
                        None
                    })
                    &&& diff_rows(diff_text)[k].new_num == (if takes_new_number(lines[k]) {
                        Some(st.1 + numbered_count(lines.subrange(h + 1, k), false))
                    } else {
                        None
                    })
                }
        }),
{
    let lines = lines_of(diff_text);
    lemma_text_pass_hunk(lines, h, u);
    lemma_text_pass_prefix(lines, u);
    assert forall|k: int| h < k < u implies #[trigger] diff_rows(diff_text)[k] == text_pass(lines.take(u)).0[k] by {}
}

} // verus!
