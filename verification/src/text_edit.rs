//! Editing of the commit form's text fields, with the cursor kept as a byte
//! offset on a character boundary of the UTF-8 text.
use vstd::prelude::*;
use vstd::utf8::{
    char_is_scalar, encode_scalar, encode_utf8, has_width_1_encoding, encode_utf8_first_scalar, encode_utf8_valid_utf8, is_char_boundary,
    is_char_boundary_start_end_of_seq, length_of_first_scalar, pop_first_scalar, valid_utf8,
};

use crate::text::{chars_of, replace_char, replace_char_exec};

verus! {

/// The UTF-8 bytes of a text.
pub open spec fn bytes_of(s: Seq<char>) -> Seq<u8> {
    encode_utf8(s)
}

/// True when `c` is a byte offset of `s` that falls on a character boundary.
pub open spec fn cursor_ok(s: Seq<char>, c: int) -> bool {
    0 <= c <= bytes_of(s).len() && is_char_boundary(bytes_of(s), c)
}

pub proof fn lemma_encode_concat(x: Seq<char>, y: Seq<char>)
    ensures
        encode_utf8(x + y) == encode_utf8(x) + encode_utf8(y),
    decreases x.len(),
{
    if x.len() == 0 {
        assert(x + y =~= y);
        assert(encode_utf8(x) =~= Seq::<u8>::empty());
        assert(encode_utf8(x) + encode_utf8(y) =~= encode_utf8(y));
    } else {
        assert((x + y).drop_first() =~= x.drop_first() + y);
        assert((x + y)[0] == x[0]);
        lemma_encode_concat(x.drop_first(), y);
        assert(encode_utf8(x + y) =~= encode_scalar(x[0] as u32) + encode_utf8(x.drop_first() + y));
        assert(encode_utf8(x + y) =~= encode_utf8(x) + encode_utf8(y));
    }
}

pub proof fn lemma_boundary_at_split(x: Seq<char>, y: Seq<char>)
    ensures
        is_char_boundary(encode_utf8(x + y), encode_utf8(x).len() as int),
    decreases x.len(),
{
    encode_utf8_valid_utf8(x + y);
    if x.len() == 0 {
        assert(encode_utf8(x) =~= Seq::<u8>::empty());
    } else {
        let b = encode_utf8(x + y);
        assert((x + y).drop_first() =~= x.drop_first() + y);
        assert((x + y)[0] == x[0]);
        encode_utf8_first_scalar(x + y);
        lemma_encode_concat(x, y);
        lemma_encode_concat(x.drop_first(), y);
        let l = length_of_first_scalar(b);
        assert(l == encode_scalar(x[0] as u32).len());
        assert(b =~= encode_scalar(x[0] as u32) + encode_utf8(x.drop_first() + y));
        assert(pop_first_scalar(b) =~= encode_utf8(x.drop_first() + y));
        assert(encode_utf8(x) =~= encode_scalar(x[0] as u32) + encode_utf8(x.drop_first()));
        lemma_boundary_at_split(x.drop_first(), y);
        assert(encode_utf8(x).len() > 0);
    }
}

pub proof fn lemma_boundary_ends(s: Seq<char>)
    ensures
        is_char_boundary(encode_utf8(s), 0),
        is_char_boundary(encode_utf8(s), encode_utf8(s).len() as int),
        valid_utf8(encode_utf8(s)),
{
    encode_utf8_valid_utf8(s);
    is_char_boundary_start_end_of_seq(encode_utf8(s));
}

/// The nearest character boundary at or below byte offset `p`.
pub open spec fn boundary_at_or_below(b: Seq<u8>, p: int) -> int
    decreases p,
{
    if p <= 0 {
        0
    } else if is_char_boundary(b, p) {
        p
    } else {
        boundary_at_or_below(b, p - 1)
    }
}

/// The nearest character boundary at or above byte offset `p`, or `p` itself
/// once past the end.
pub open spec fn boundary_at_or_above(b: Seq<u8>, p: int) -> int
    decreases b.len() - p,
{
    if p >= b.len() {
        p
    } else if is_char_boundary(b, p) {
        p
    } else {
        boundary_at_or_above(b, p + 1)
    }
}

/// Where the cursor goes on "left": the previous character boundary.
pub open spec fn prev_boundary(b: Seq<u8>, pos: int) -> int {
    if pos <= 0 {
        0
    } else {
        boundary_at_or_below(b, pos - 1)
    }
}

/// Where the cursor goes on "right": the next character boundary, or the end.
pub open spec fn next_boundary(b: Seq<u8>, pos: int) -> int {
    if pos >= b.len() {
        b.len() as int
    } else {
        boundary_at_or_above(b, pos + 1)
    }
}

pub proof fn lemma_boundary_below(s: Seq<char>, p: int)
    requires
        0 <= p <= bytes_of(s).len(),
    ensures
        0 <= boundary_at_or_below(bytes_of(s), p) <= p,
        is_char_boundary(bytes_of(s), boundary_at_or_below(bytes_of(s), p)),
        forall|q: int|
            boundary_at_or_below(bytes_of(s), p) < q <= p ==> !is_char_boundary(bytes_of(s), q),
    decreases p,
{
    lemma_boundary_ends(s);
    if p > 0 && !is_char_boundary(bytes_of(s), p) {
        lemma_boundary_below(s, p - 1);
    }
}

pub proof fn lemma_boundary_above(s: Seq<char>, p: int)
    requires
        0 <= p <= bytes_of(s).len(),
    ensures
        p <= boundary_at_or_above(bytes_of(s), p) <= bytes_of(s).len(),
        is_char_boundary(bytes_of(s), boundary_at_or_above(bytes_of(s), p)),
        forall|q: int|
            p <= q < boundary_at_or_above(bytes_of(s), p) ==> !is_char_boundary(bytes_of(s), q),
    decreases bytes_of(s).len() - p,
{
    lemma_boundary_ends(s);
    if p < bytes_of(s).len() && !is_char_boundary(bytes_of(s), p) {
        lemma_boundary_above(s, p + 1);
    }
}

/// The byte offset of the character boundary before `pos`; 0 at the start.
pub fn prev_char_boundary(s: &str, pos: usize) -> (res: usize)
    ensures
        res == prev_boundary(bytes_of(s@), pos as int),
        pos > 0 ==> res < pos,
{
    if pos == 0 {
        return 0;
    }
    let mut p = pos - 1;
    while p > 0 && !s.is_char_boundary(p)
        invariant
            p < pos,
            boundary_at_or_below(bytes_of(s@), (pos - 1) as int) == boundary_at_or_below(bytes_of(s@), p as int),
        decreases p,
    {
        p = p - 1;
    }
    p
}

/// The byte offset of the character boundary after `pos`; the length at the end.
pub fn next_char_boundary(s: &str, pos: usize) -> (res: usize)
    requires
        bytes_of(s@).len() <= usize::MAX,
    ensures
        res == next_boundary(bytes_of(s@), pos as int),
{
    let len = s.len();
    if pos >= len {
        return len;
    }
    let mut p = pos + 1;
    while p < len && !s.is_char_boundary(p)
        invariant
            len == bytes_of(s@).len(),
            pos < p <= len,
            boundary_at_or_above(bytes_of(s@), (pos + 1) as int) == boundary_at_or_above(bytes_of(s@), p as int),
        decreases len - p,
    {
        p = p + 1;
    }
    p
}

/// `t` inserted into `s` at byte offset `idx`.
fn insert_at(s: &str, idx: usize, t: &str) -> (res: String)
    requires
        cursor_ok(s@, idx as int),
    ensures
        bytes_of(res@) == bytes_of(s@).take(idx as int) + bytes_of(t@) + bytes_of(s@).skip(idx as int),
        cursor_ok(res@, idx + bytes_of(t@).len()),
{
    proof {
        lemma_boundary_ends(s@);
    }
    let (a, b) = s.split_at(idx);
    let mut r = String::from_str(a);
    r.append(t);
    r.append(b);
    proof {
        lemma_encode_concat(a@ + t@, b@);
        lemma_encode_concat(a@, t@);
        lemma_boundary_at_split(a@ + t@, b@);
        assert(r@ == a@ + t@ + b@);
        assert(bytes_of(s@).take(idx as int) =~= bytes_of(s@).subrange(0, idx as int));
        assert(bytes_of(s@).skip(idx as int) =~= bytes_of(s@).subrange(idx as int, bytes_of(s@).len() as int));
        assert(bytes_of(r@).len() >= idx + bytes_of(t@).len());
    }
    r
}

/// `s` without the bytes from `from` up to `to`.
fn remove_range(s: &str, from: usize, to: usize) -> (res: String)
    requires
        from <= to,
        cursor_ok(s@, from as int),
        cursor_ok(s@, to as int),
    ensures
        bytes_of(res@) == bytes_of(s@).take(from as int) + bytes_of(s@).skip(to as int),
        cursor_ok(res@, from as int),
{
    proof {
        lemma_boundary_ends(s@);
    }
    let (a, _) = s.split_at(from);
    let (_, b) = s.split_at(to);
    let mut r = String::from_str(a);
    r.append(b);
    proof {
        lemma_encode_concat(a@, b@);
        lemma_boundary_at_split(a@, b@);
        assert(bytes_of(s@).take(from as int) =~= bytes_of(s@).subrange(0, from as int));
        assert(bytes_of(s@).skip(to as int) =~= bytes_of(s@).subrange(to as int, bytes_of(s@).len() as int));
    }
    r
}

/// A key press on a text field: the key's name, the modifiers, and the text
/// it types, if any.
pub struct KeyInput {
    pub key: String,
    pub secondary: bool,
    pub control: bool,
    pub key_char: Option<String>,
}

/// The text, if any, as a character sequence.
pub open spec fn opt_chars(s: Option<String>) -> Option<Seq<char>> {
    match s {
        Some(v) => Some(v@),
        None => None,
    }
}

/// Inserting `t` at the cursor.
pub open spec fn inserted(b: Seq<u8>, cursor: int, t: Seq<char>) -> (Seq<u8>, int, bool) {
    (b.take(cursor) + bytes_of(t) + b.skip(cursor), cursor + bytes_of(t).len(), true)
}

/// What a key press does to a text field with the given bytes and cursor:
/// the new bytes, the new cursor, and whether anything changed. A single-line
/// field turns pasted line breaks into spaces and ignores typed line breaks;
/// "enter" adds a line break only to a multi-line field.
pub open spec fn edit_after_key(
    b: Seq<u8>,
    cursor: int,
    key: Seq<char>,
    secondary: bool,
    control: bool,
    key_char: Option<Seq<char>>,
    clipboard: Option<Seq<char>>,
    multiline: bool,
) -> (Seq<u8>, int, bool) {
    if secondary {
        if key == "v"@ {
            match clipboard {
                Some(t) => inserted(b, cursor, if multiline {
                    t
                } else {
                    replace_char(t, '\n', " "@)
                }),
                None => (b, cursor, false),
            }
        } else if key == "a"@ {
            (b, b.len() as int, true)
        } else {
            (b, cursor, false)
        }
    } else if key == "backspace"@ {
        if cursor > 0 {
            let p = prev_boundary(b, cursor);
            (b.take(p) + b.skip(cursor), p, true)
        } else {
            (b, cursor, false)
        }
    } else if key == "delete"@ {
        if cursor < b.len() {
            (b.take(cursor) + b.skip(next_boundary(b, cursor)), cursor, true)
        } else {
            (b, cursor, false)
        }
    } else if key == "left"@ {
        if cursor > 0 {
            (b, prev_boundary(b, cursor), true)
        } else {
            (b, cursor, false)
        }
    } else if key == "right"@ {
        if cursor < b.len() {
            (b, next_boundary(b, cursor), true)
        } else {
            (b, cursor, false)
        }
    } else if key == "home"@ {
        (b, 0, true)
    } else if key == "end"@ {
        (b, b.len() as int, true)
    } else if multiline && key == "enter"@ {
        inserted(b, cursor, "\n"@)
    } else {
        match key_char {
            Some(ch) => if !control && (multiline || (!ch.contains('\n') && !ch.contains('\r'))) {
                inserted(b, cursor, ch)
            } else {
                (b, cursor, false)
            },
            None => (b, cursor, false),
        }
    }
}

/// The text that a key press may insert.
pub open spec fn typed_len(key_char: Option<Seq<char>>, clipboard: Option<Seq<char>>) -> nat {
    let k: nat = match key_char {
        Some(c) => bytes_of(c).len(),
        None => 0,
    };
    let c: nat = match clipboard {
        Some(t) => bytes_of(t).len() * 4,
        None => 0,
    };
    k + c + 1
}

proof fn lemma_ascii_char_bytes(c: char)
    requires
        (c as u32) < 0x80,
    ensures
        encode_utf8(seq![c]).len() == 1,
{
    assert(seq![c].drop_first() =~= Seq::<char>::empty());
    assert(encode_utf8(Seq::<char>::empty()) =~= Seq::<u8>::empty());
    assert(has_width_1_encoding(c as u32));
    assert(encode_scalar(c as u32).len() == 1);
}

fn is_key(k: &String, name: &str) -> (res: bool)
    ensures
        res == (k@ == name@),
{
    *k == String::from_str(name)
}

fn has_char(s: &str, c: char) -> (res: bool)
    ensures
        res == s@.contains(c),
{
    let v = chars_of(s);
    let mut i: usize = 0;
    while i < v.len()
        invariant
            v@ == s@,
            i <= v@.len(),
            forall|j: int| 0 <= j < i ==> v@[j] != c,
        decreases v@.len() - i,
    {
        if v[i] == c {
            return true;
        }
        i = i + 1;
    }
    false
}

proof fn lemma_replace_len(t: Seq<char>)
    ensures
        bytes_of(replace_char(t, '\n', " "@)).len() <= bytes_of(t).len(),
    decreases t.len(),
{
    reveal_strlit(" ");
    if t.len() > 0 {
        lemma_replace_len(t.drop_last());
        let last = if t.last() == '\n' { " "@ } else { seq![t.last()] };
        lemma_encode_concat(replace_char(t.drop_last(), '\n', " "@), last);
        assert(t =~= t.drop_last() + seq![t.last()]);
        lemma_encode_concat(t.drop_last(), seq![t.last()]);
        if t.last() == '\n' {
            assert(" "@ =~= seq![' ']);
            assert(' ' as u32 == 32);
            lemma_ascii_char_bytes(' ');
            assert(encode_utf8(seq![t.last()]).len() >= 1) by {
                assert(seq![t.last()].drop_first() =~= Seq::<char>::empty());
            }
        }
    }
}

/// Applies a key press to a text field; tells whether anything changed.
pub fn apply_key(
    text: &mut String,
    cursor: &mut usize,
    key: &KeyInput,
    clipboard: Option<String>,
    multiline: bool,
) -> (changed: bool)
    requires
        cursor_ok(old(text)@, *old(cursor) as int),
        bytes_of(old(text)@).len() + typed_len(opt_chars(key.key_char), opt_chars(clipboard)) <= usize::MAX,
    ensures
        ({
            let r = edit_after_key(
                bytes_of(old(text)@),
                *old(cursor) as int,
                key.key@,
                key.secondary,
                key.control,
                opt_chars(key.key_char),
                opt_chars(clipboard),
                multiline,
            );
            &&& bytes_of(final(text)@) == r.0
            &&& *final(cursor) as int == r.1
            &&& changed == r.2
        }),
        cursor_ok(final(text)@, *final(cursor) as int),
{
    proof {
        lemma_boundary_ends(text@);
    }
    let len = text.as_str().len();
    let c = *cursor;
    if key.secondary {
        if is_key(&key.key, "v") {
            match clipboard {
                Some(t) => {
                    let t = if multiline {
                        t
                    } else {
                        proof {
                            lemma_replace_len(t@);
                        }
                        replace_char_exec(t.as_str(), '\n', " ")
                    };
                    let n = insert_at(text.as_str(), c, t.as_str());
                    proof {
                        lemma_encode_concat(text@, Seq::<char>::empty());
                    }
                    *text = n;
                    *cursor = c + t.as_str().len();
                    return true;
                },
                None => return false,
            }
        } else if is_key(&key.key, "a") {
            *cursor = len;
            return true;
        }
        return false;
    }
    if is_key(&key.key, "backspace") {
        if c > 0 {
            let p = prev_char_boundary(text.as_str(), c);
            proof {
                lemma_boundary_below(text@, (c - 1) as int);
            }
            let n = remove_range(text.as_str(), p, c);
            *text = n;
            *cursor = p;
            return true;
        }
        return false;
    }
    if is_key(&key.key, "delete") {
        if c < len {
            let e = next_char_boundary(text.as_str(), c);
            proof {
                lemma_boundary_above(text@, (c + 1) as int);
            }
            let n = remove_range(text.as_str(), c, e);
            *text = n;
            return true;
        }
        return false;
    }
    if is_key(&key.key, "left") {
        if c > 0 {
            let p = prev_char_boundary(text.as_str(), c);
            proof {
                lemma_boundary_below(text@, (c - 1) as int);
            }
            *cursor = p;
            return true;
        }
        return false;
    }
    if is_key(&key.key, "right") {
        if c < len {
            let e = next_char_boundary(text.as_str(), c);
            proof {
                lemma_boundary_above(text@, (c + 1) as int);
            }
            *cursor = e;
            return true;
        }
        return false;
    }
    if is_key(&key.key, "home") {
        *cursor = 0;
        return true;
    }
    if is_key(&key.key, "end") {
        *cursor = len;
        return true;
    }
    if multiline && is_key(&key.key, "enter") {
        let nl = "\n";
        proof {
            reveal_strlit("\n");
            assert(nl@ =~= seq!['\n']);
            assert('\n' as u32 == 10);
            lemma_ascii_char_bytes('\n');
        }
        let n = insert_at(text.as_str(), c, nl);
        *text = n;
        *cursor = c + 1;
        return true;
    }
    match &key.key_char {
        Some(ch) => {
            if !key.control && (multiline || (!has_char(ch.as_str(), '\n') && !has_char(ch.as_str(), '\r'))) {
                let n = insert_at(text.as_str(), c, ch.as_str());
                *text = n;
                *cursor = c + ch.as_str().len();
                true
            } else {
                false
            }
        },
        None => false,
    }
}


/// Which key handler a text field of the commit form uses.
#[derive(Clone, Copy, PartialEq, Eq, Structural, Debug)]
pub enum FieldKeys {
    /// The summary handler: a single line.
    Summary,
    /// The description handler: several lines.
    Description,
}

/// The summary field, known by its id, takes the summary handler; any other
/// field the description handler.
pub fn field_key_handler(id: &str) -> (res: FieldKeys)
    ensures
        res == (if id@ == "commit-summary-field"@ {
            FieldKeys::Summary
        } else {
            FieldKeys::Description
        }),
{
    if String::from_str(id) == String::from_str("commit-summary-field") {
        FieldKeys::Summary
    } else {
        FieldKeys::Description
    }
}

/// What a text field shows.
pub enum TextFieldDisplay {
    /// The placeholder, for a blank field without focus.
    Placeholder,
    /// The text before and after the cursor, for a focused field.
    Editing { before: String, after: String },
    /// The text itself, for a field with text and without focus.
    Text,
}

/// The cursor's byte offset, kept within the text.
pub open spec fn clamped_cursor(s: Seq<char>, cursor: int) -> int {
    if cursor <= bytes_of(s).len() {
        cursor
    } else {
        bytes_of(s).len() as int
    }
}

/// Chooses what a text field shows: the placeholder when it is blank and
/// without focus, the text split at the cursor while it has focus, else the
/// text.
pub fn text_field_display(value: &str, cursor: usize, focused: bool) -> (res: TextFieldDisplay)
    requires
        bytes_of(value@).len() <= usize::MAX,
        focused ==> cursor_ok(value@, clamped_cursor(value@, cursor as int)),
    ensures
        !focused && crate::text::trimmed(value@).len() == 0 ==> res is Placeholder,
        !focused && crate::text::trimmed(value@).len() > 0 ==> res is Text,
        focused ==> (res matches TextFieldDisplay::Editing { before, after } && before@ + after@ == value@
            && bytes_of(before@).len() == clamped_cursor(value@, cursor as int)),
{
    let blank = crate::text::is_blank_str(value);
    if blank && !focused {
        return TextFieldDisplay::Placeholder;
    }
    if !focused {
        return TextFieldDisplay::Text;
    }
    let len = value.len();
    let pos = if cursor < len {
        cursor
    } else {
        len
    };
    assert(pos as int == clamped_cursor(value@, cursor as int));
    let (a, b) = value.split_at(pos);
    proof {
        assert(bytes_of(a@) =~= bytes_of(value@).subrange(0, pos as int));
        lemma_encode_concat(a@, b@);
        assert(encode_utf8(a@ + b@) =~= encode_utf8(value@));
        vstd::utf8::encode_utf8_decode_utf8(a@ + b@);
        vstd::utf8::encode_utf8_decode_utf8(value@);
    }
    TextFieldDisplay::Editing { before: String::from_str(a), after: String::from_str(b) }
}

/// Moving the cursor one character left and then one right brings it back,
/// and so does right then left: from a cursor on a character boundary, not
/// at the start (for left first) or not at the end (for right first).
pub proof fn law_left_right_return(s: Seq<char>, cursor: int)
    requires
        cursor_ok(s, cursor),
    ensures
        cursor > 0 ==> next_boundary(bytes_of(s), prev_boundary(bytes_of(s), cursor)) == cursor,
        cursor < bytes_of(s).len() ==> prev_boundary(bytes_of(s), next_boundary(bytes_of(s), cursor)) == cursor,
{
    let b = bytes_of(s);
    let n = b.len() as int;
    lemma_boundary_ends(s);
    if cursor > 0 {
        lemma_boundary_below(s, cursor - 1);
        let q = prev_boundary(b, cursor);
        assert(q == boundary_at_or_below(b, cursor - 1));
        assert(q < n);
        lemma_boundary_above(s, q + 1);
        let r = boundary_at_or_above(b, q + 1);
        if r < cursor {
            assert(!is_char_boundary(b, r));
        }
        if r > cursor {
            assert(!is_char_boundary(b, cursor));
        }
    }
    if cursor < n {
        lemma_boundary_above(s, cursor + 1);
        let q = next_boundary(b, cursor);
        assert(q == boundary_at_or_above(b, cursor + 1));
        assert(q > 0);
        lemma_boundary_below(s, q - 1);
        let r = boundary_at_or_below(b, q - 1);
        if r < cursor {
            assert(!is_char_boundary(b, cursor));
        }
        if r > cursor {
            assert(!is_char_boundary(b, r));
        }
    }
}

/// A character boundary of a text's encoding splits the text between two
/// characters.
proof fn lemma_boundary_splits(s: Seq<char>, p: int)
    requires
        0 <= p <= bytes_of(s).len(),
        is_char_boundary(bytes_of(s), p),
    ensures
        exists|i: int| 0 <= i <= s.len() && #[trigger] bytes_of(s.take(i)).len() == p,
    decreases s.len(),
{
    if p == 0 {
        assert(s.take(0) =~= Seq::<char>::empty());
        assert(bytes_of(s.take(0)).len() == 0);
    } else {
        let b = bytes_of(s);
        encode_utf8_valid_utf8(s);
        assert(s.len() > 0);
        encode_utf8_first_scalar(s);
        let l = length_of_first_scalar(b);
        assert(b =~= encode_scalar(s[0] as u32) + encode_utf8(s.drop_first()));
        assert(pop_first_scalar(b) =~= encode_utf8(s.drop_first()));
        encode_utf8_valid_utf8(s.drop_first());
        assert(is_char_boundary(b, p) == is_char_boundary(pop_first_scalar(b), p - l));
        assert(p - l >= 0);
        lemma_boundary_splits(s.drop_first(), p - l);
        let k = choose|k: int| 0 <= k <= s.drop_first().len() && #[trigger] bytes_of(s.drop_first().take(k)).len() == p - l;
        assert(s.take(k + 1) =~= seq![s[0]] + s.drop_first().take(k));
        lemma_encode_concat(seq![s[0]], s.drop_first().take(k));
        assert(encode_utf8(seq![s[0]]) =~= encode_scalar(s[0] as u32) + encode_utf8(seq![s[0]].drop_first()));
        assert(encode_utf8(seq![s[0]].drop_first()) =~= Seq::<u8>::empty());
        assert(bytes_of(s.take(k + 1)).len() == p);
    }
}

/// The bytes of a text before and after a split between characters.
proof fn lemma_split_bytes(s: Seq<char>, i: int)
    requires
        0 <= i <= s.len(),
    ensures
        bytes_of(s).take(bytes_of(s.take(i)).len() as int) == bytes_of(s.take(i)),
        bytes_of(s).skip(bytes_of(s.take(i)).len() as int) == bytes_of(s.skip(i)),
{
    assert(s =~= s.take(i) + s.skip(i));
    lemma_encode_concat(s.take(i), s.skip(i));
    assert(bytes_of(s).take(bytes_of(s.take(i)).len() as int) =~= bytes_of(s.take(i)));
    assert(bytes_of(s).skip(bytes_of(s.take(i)).len() as int) =~= bytes_of(s.skip(i)));
}

proof fn lemma_replace_newlines(t: Seq<char>)
    ensures
        !replace_char(t, '\n', " "@).contains('\n'),
    decreases t.len(),
{
    reveal_strlit(" ");
    if t.len() > 0 {
        lemma_replace_newlines(t.drop_last());
        let a = replace_char(t.drop_last(), '\n', " "@);
        let last = if t.last() == '\n' { " "@ } else { seq![t.last()] };
        assert(!last.contains('\n')) by {
            if last.contains('\n') {
                let j = choose|j: int| 0 <= j < last.len() && last[j] == '\n';
                assert(" "@[0] == ' ');
            }
        }
        if (a + last).contains('\n') {
            let j = choose|j: int| 0 <= j < (a + last).len() && (a + last)[j] == '\n';
            if j < a.len() {
                assert(a[j] == '\n');
            } else {
                assert(last[j - a.len()] == '\n');
            }
        }
    }
}

/// Text without a `'\n'` keeps none when pieces of it are put together.
proof fn lemma_no_newline_concat(x: Seq<char>, y: Seq<char>)
    requires
        !x.contains('\n'),
        !y.contains('\n'),
    ensures
        !(x + y).contains('\n'),
{
    if (x + y).contains('\n') {
        let j = choose|j: int| 0 <= j < (x + y).len() && (x + y)[j] == '\n';
        if j < x.len() {
            assert(x[j] == '\n');
        } else {
            assert(y[j - x.len()] == '\n');
        }
    }
}

proof fn lemma_no_newline_part(s: Seq<char>, i: int)
    requires
        !s.contains('\n'),
        0 <= i <= s.len(),
    ensures
        !s.take(i).contains('\n'),
        !s.skip(i).contains('\n'),
{
    if s.take(i).contains('\n') {
        let j = choose|j: int| 0 <= j < s.take(i).len() && s.take(i)[j] == '\n';
        assert(s[j] == '\n');
    }
    if s.skip(i).contains('\n') {
        let j = choose|j: int| 0 <= j < s.skip(i).len() && s.skip(i)[j] == '\n';
        assert(s[j + i] == '\n');
    }
}

/// A single-line field stays a single line: whatever key is pressed on a
/// text without `'\n'`, with the cursor on a character boundary, the text
/// after it holds no `'\n'` either.
pub proof fn law_single_line_stays_single(
    s: Seq<char>,
    cursor: int,
    key: Seq<char>,
    secondary: bool,
    control: bool,
    key_char: Option<Seq<char>>,
    clipboard: Option<Seq<char>>,
    after: Seq<char>,
)
    requires
        cursor_ok(s, cursor),
        !s.contains('\n'),
        bytes_of(after) == edit_after_key(bytes_of(s), cursor, key, secondary, control, key_char, clipboard, false).0,
    ensures
        !after.contains('\n'),
{
    let b = bytes_of(s);
    let r = edit_after_key(b, cursor, key, secondary, control, key_char, clipboard, false);
    vstd::utf8::encode_utf8_decode_utf8(after);
    vstd::utf8::encode_utf8_decode_utf8(s);
    lemma_boundary_ends(s);
    lemma_boundary_splits(s, cursor);
    let i = choose|i: int| 0 <= i <= s.len() && #[trigger] bytes_of(s.take(i)).len() == cursor;
    lemma_split_bytes(s, i);
    lemma_no_newline_part(s, i);
    if r.0 == b {
        assert(after == s);
    } else {
        let typed: Option<Seq<char>> = if secondary {
            match clipboard {
                Some(t) => Some(replace_char(t, '\n', " "@)),
                None => None,
            }
        } else {
            key_char
        };
        if !secondary && key == "backspace"@ {
            let p = prev_boundary(b, cursor);
            lemma_boundary_below(s, cursor - 1);
            lemma_boundary_splits(s, p);
            let j = choose|j: int| 0 <= j <= s.len() && #[trigger] bytes_of(s.take(j)).len() == p;
            lemma_split_bytes(s, j);
            lemma_no_newline_part(s, j);
            lemma_encode_concat(s.take(j), s.skip(i));
            lemma_no_newline_concat(s.take(j), s.skip(i));
            assert(r.0 == bytes_of(s.take(j) + s.skip(i)));
            vstd::utf8::encode_utf8_decode_utf8(s.take(j) + s.skip(i));
            assert(after == s.take(j) + s.skip(i));
        } else if !secondary && key == "delete"@ {
            let q = next_boundary(b, cursor);
            lemma_boundary_above(s, cursor + 1);
            lemma_boundary_splits(s, q);
            let k = choose|k: int| 0 <= k <= s.len() && #[trigger] bytes_of(s.take(k)).len() == q;
            lemma_split_bytes(s, k);
            lemma_no_newline_part(s, k);
            lemma_encode_concat(s.take(i), s.skip(k));
            lemma_no_newline_concat(s.take(i), s.skip(k));
            assert(r.0 == bytes_of(s.take(i) + s.skip(k)));
            vstd::utf8::encode_utf8_decode_utf8(s.take(i) + s.skip(k));
            assert(after == s.take(i) + s.skip(k));
        } else {
            let t = typed.unwrap();
            if secondary {
                lemma_replace_newlines(clipboard.unwrap());
            }
            assert(!t.contains('\n'));
            lemma_encode_concat(s.take(i), t);
            lemma_encode_concat(s.take(i) + t, s.skip(i));
            lemma_no_newline_concat(s.take(i), t);
            lemma_no_newline_concat(s.take(i) + t, s.skip(i));
            assert(r.0 == bytes_of(s.take(i) + t + s.skip(i)));
            vstd::utf8::encode_utf8_decode_utf8(s.take(i) + t + s.skip(i));
            assert(after == s.take(i) + t + s.skip(i));
        }
    }
}

/// No character boundary falls inside the encoding of a character.
proof fn lemma_no_boundary_inside(x: Seq<char>, c: char, y: Seq<char>, k: int)
    requires
        0 < k < encode_scalar(c as u32).len(),
    ensures
        !is_char_boundary(encode_utf8(x + seq![c] + y), encode_utf8(x).len() + k),
    decreases x.len(),
{
    let s = x + seq![c] + y;
    let b = encode_utf8(s);
    encode_utf8_valid_utf8(s);
    encode_utf8_first_scalar(s);
    encode_utf8_valid_utf8(s.drop_first());
    char_is_scalar(s[0]);
    assert(b =~= encode_scalar(s[0] as u32) + encode_utf8(s.drop_first()));
    assert(pop_first_scalar(b) =~= encode_utf8(s.drop_first()));
    let l = length_of_first_scalar(b);
    assert(l == encode_scalar(s[0] as u32).len());
    if x.len() == 0 {
        assert(s =~= seq![c] + y);
        assert(encode_utf8(x) =~= Seq::<u8>::empty());
        assert(s[0] == c);
        assert(k < l);
        assert(is_char_boundary(b, k) == is_char_boundary(pop_first_scalar(b), k - l));
    } else {
        assert(s.drop_first() =~= x.drop_first() + seq![c] + y);
        assert(s[0] == x[0]);
        assert(encode_utf8(x) =~= encode_scalar(x[0] as u32) + encode_utf8(x.drop_first()));
        lemma_no_boundary_inside(x.drop_first(), c, y, k);
        let idx = encode_utf8(x).len() + k;
        assert(idx - l == encode_utf8(x.drop_first()).len() + k);
        assert(is_char_boundary(b, idx) == is_char_boundary(pop_first_scalar(b), idx - l));
    }
}

/// Stepping down from `r` reaches the highest boundary `p` when none lies above it up to `r`.
proof fn lemma_boundary_below_reaches(b: Seq<u8>, p: int, r: int)
    requires
        0 <= p <= r,
        is_char_boundary(b, p),
        forall|q: int| p < q <= r ==> !is_char_boundary(b, q),
    ensures
        boundary_at_or_below(b, r) == p,
    decreases r,
{
    if r > p {
        lemma_boundary_below_reaches(b, p, r - 1);
    }
}

/// Backspace right after typing a character gives back the text and the
/// cursor as they were: for the text `x + y` with the cursor between `x` and
/// `y`, a key press that types `c`, followed by backspace, leaves `x + y`
/// with the cursor after `x`. The summary field (`multiline` false) and the
/// description field (`multiline` true) both edit by `edit_after_key`, as
/// the contracts of their key handlers state.
pub proof fn law_backspace_undoes_typing(
    x: Seq<char>,
    y: Seq<char>,
    c: char,
    key: Seq<char>,
    clipboard: Option<Seq<char>>,
    multiline: bool,
)
    requires
        key != "backspace"@,
        key != "delete"@,
        key != "left"@,
        key != "right"@,
        key != "home"@,
        key != "end"@,
        !(multiline && key == "enter"@),
        multiline || (c != '\n' && c != '\r'),
    ensures
        ({
            let typed = edit_after_key(
                bytes_of(x + y),
                bytes_of(x).len() as int,
                key,
                false,
                false,
                Some(seq![c]),
                clipboard,
                multiline,
            );
            &&& typed.0 == bytes_of(x + seq![c] + y)
            &&& typed.1 == bytes_of(x + seq![c]).len()
            &&& typed.2
            &&& edit_after_key(typed.0, typed.1, "backspace"@, false, false, None, clipboard, multiline)
                == (bytes_of(x + y), bytes_of(x).len() as int, true)
        }),
{
    let b = bytes_of(x + y);
    let p = bytes_of(x).len() as int;
    lemma_encode_concat(x, y);
    lemma_encode_concat(x, seq![c]);
    lemma_encode_concat(x + seq![c], y);
    assert(encode_utf8(seq![c]) =~= encode_scalar(c as u32) + encode_utf8(seq![c].drop_first()));
    assert(encode_utf8(seq![c].drop_first()) =~= Seq::<u8>::empty());
    let e = encode_utf8(seq![c]);
    assert(b.take(p) =~= encode_utf8(x));
    assert(b.skip(p) =~= encode_utf8(y));
    assert(!seq![c].contains('\n') && !seq![c].contains('\r') ==> true);
    if !multiline {
        assert(!seq![c].contains('\n')) by {
            assert(seq![c][0] == c);
        }
        assert(!seq![c].contains('\r')) by {
            assert(seq![c][0] == c);
        }
    }
    let typed = inserted(b, p, seq![c]);
    assert(typed.0 =~= bytes_of(x + seq![c] + y));
    let b2 = typed.0;
    let n = e.len() as int;
    assert(n >= 1) by {
        char_is_scalar(c);
    }
    lemma_boundary_at_split(x, seq![c] + y);
    assert(x + (seq![c] + y) =~= x + seq![c] + y);
    assert forall|q: int| p < q <= p + n - 1 implies !is_char_boundary(b2, q) by {
        lemma_no_boundary_inside(x, c, y, q - p);
    }
    lemma_boundary_below_reaches(b2, p, p + n - 1);
    assert(b2.take(p) + b2.skip(p + n) =~= b);
}

/// Stepping up from `r` reaches the lowest boundary `q` when none lies below it down to `r`.
proof fn lemma_boundary_above_reaches(b: Seq<u8>, q: int, r: int)
    requires
        r <= q < b.len(),
        is_char_boundary(b, q),
        forall|k: int| r <= k < q ==> !is_char_boundary(b, k),
    ensures
        boundary_at_or_above(b, r) == q,
    decreases q - r,
{
    if r < q {
        lemma_boundary_above_reaches(b, q, r + 1);
    }
}

/// Left and right move the cursor over exactly one character: for the text
/// `x + c + y`, "right" with the cursor after `x` moves it to after `c`,
/// and "left" with the cursor after `c` moves it back to after `x`; the text
/// stays as it is and the key counts as handled.
pub proof fn law_arrows_move_one_character(
    x: Seq<char>,
    c: char,
    y: Seq<char>,
    control: bool,
    key_char: Option<Seq<char>>,
    clipboard: Option<Seq<char>>,
    multiline: bool,
)
    ensures
        edit_after_key(bytes_of(x + seq![c] + y), bytes_of(x).len() as int, "right"@, false, control, key_char, clipboard, multiline)
            == (bytes_of(x + seq![c] + y), bytes_of(x + seq![c]).len() as int, true),
        edit_after_key(bytes_of(x + seq![c] + y), bytes_of(x + seq![c]).len() as int, "left"@, false, control, key_char, clipboard, multiline)
            == (bytes_of(x + seq![c] + y), bytes_of(x).len() as int, true),
{
    reveal_strlit("right");
    reveal_strlit("left");
    reveal_strlit("backspace");
    reveal_strlit("delete");
    let b = bytes_of(x + seq![c] + y);
    let p = bytes_of(x).len() as int;
    lemma_encode_concat(x, seq![c]);
    lemma_encode_concat(x + seq![c], y);
    assert(encode_utf8(seq![c]) =~= encode_scalar(c as u32) + encode_utf8(seq![c].drop_first()));
    assert(encode_utf8(seq![c].drop_first()) =~= Seq::<u8>::empty());
    let n = encode_utf8(seq![c]).len() as int;
    assert(n >= 1) by {
        char_is_scalar(c);
    }
    assert(bytes_of(x + seq![c]).len() == p + n);
    lemma_boundary_at_split(x, seq![c] + y);
    assert(x + (seq![c] + y) =~= x + seq![c] + y);
    lemma_boundary_at_split(x + seq![c], y);
    assert forall|q: int| p < q <= p + n - 1 implies !is_char_boundary(b, q) by {
        lemma_no_boundary_inside(x, c, y, q - p);
    }
    if p + n < b.len() {
        lemma_boundary_above_reaches(b, p + n, p + 1);
    } else {
        assert(boundary_at_or_above(b, p + 1) == p + n) by {
            if p + 1 < p + n {
                lemma_boundary_above_reaches_end(b, p + 1);
            }
        }
    }
    lemma_boundary_below_reaches(b, p, p + n - 1);
    assert(b.len() == bytes_of(x + seq![c]).len() + bytes_of(y).len());
    assert(p < b.len());
    assert(next_boundary(b, p) == p + n);
    assert(prev_boundary(b, p + n) == p);
    assert("right"@.len() == 5 && "backspace"@.len() == 9 && "delete"@.len() == 6);
    assert("right"@ != "backspace"@);
    assert("right"@ != "delete"@);
    assert("right"@ != "left"@);
    assert("left"@ != "backspace"@);
    assert("left"@ != "delete"@);
}

/// With no boundary from `r` up to the end, stepping up from `r` reaches the end.
proof fn lemma_boundary_above_reaches_end(b: Seq<u8>, r: int)
    requires
        0 <= r <= b.len(),
        forall|k: int| r <= k < b.len() ==> !is_char_boundary(b, k),
    ensures
        boundary_at_or_above(b, r) == b.len(),
    decreases b.len() - r,
{
    if r < b.len() {
        lemma_boundary_above_reaches_end(b, r + 1);
    }
}

/// Delete removes exactly the character after the cursor: for the text
/// `x + c + y` with the cursor after `x`, "delete" leaves `x + y` with the
/// cursor where it was. "home" and "end" move the cursor to the start and the
/// end of any text, which stays as it is.
pub proof fn law_delete_home_end(
    x: Seq<char>,
    c: char,
    y: Seq<char>,
    control: bool,
    key_char: Option<Seq<char>>,
    clipboard: Option<Seq<char>>,
    multiline: bool,
    cursor: int,
)
    ensures
        edit_after_key(bytes_of(x + seq![c] + y), bytes_of(x).len() as int, "delete"@, false, control, key_char, clipboard, multiline)
            == (bytes_of(x + y), bytes_of(x).len() as int, true),
        edit_after_key(bytes_of(x), cursor, "home"@, false, control, key_char, clipboard, multiline)
            == (bytes_of(x), 0int, true),
        edit_after_key(bytes_of(x), cursor, "end"@, false, control, key_char, clipboard, multiline)
            == (bytes_of(x), bytes_of(x).len() as int, true),
{
    reveal_strlit("delete");
    reveal_strlit("backspace");
    reveal_strlit("left");
    reveal_strlit("right");
    reveal_strlit("home");
    reveal_strlit("end");
    law_arrows_move_one_character(x, c, y, control, key_char, clipboard, multiline);
    let b = bytes_of(x + seq![c] + y);
    let p = bytes_of(x).len() as int;
    lemma_encode_concat(x, seq![c]);
    lemma_encode_concat(x + seq![c], y);
    lemma_encode_concat(x, y);
    assert("delete"@.len() == 6 && "backspace"@.len() == 9 && "home"@.len() == 4 && "end"@.len() == 3);
    assert("left"@.len() == 4 && "right"@.len() == 5);
    assert("delete"@ != "backspace"@);
    assert("home"@ != "backspace"@ && "home"@ != "delete"@ && "home"@ != "right"@);
    assert("home"@[0] != "left"@[0]);
    assert("home"@ != "left"@);
    assert("end"@ != "backspace"@ && "end"@ != "delete"@ && "end"@ != "right"@ && "end"@ != "left"@);
    assert("end"@ != "home"@);
    let q = bytes_of(x + seq![c]).len() as int;
    assert(next_boundary(b, p) == q);
    assert(b.take(p) + b.skip(q) =~= bytes_of(x + y));
}

} // verus!
