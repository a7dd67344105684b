//! The choice of a highlighting syntax for a file, and of the diff theme,
//! from syntect's syntax and theme sets.
use vstd::prelude::*;

use syntect::highlighting::{Theme, ThemeSet};
use syntect::parsing::{SyntaxReference, SyntaxSet};

use crate::text::{ascii_lowercase, has_prefix};

verus! {

#[verifier::external_type_specification]
#[verifier::external_body]
pub struct ExSyntaxSet(syntect::parsing::SyntaxSet);

#[verifier::external_type_specification]
#[verifier::external_body]
pub struct ExSyntaxReference(syntect::parsing::SyntaxReference);

#[verifier::external_type_specification]
#[verifier::external_body]
pub struct ExThemeSet(syntect::highlighting::ThemeSet);

#[verifier::external_type_specification]
#[verifier::external_body]
pub struct ExTheme(syntect::highlighting::Theme);

/// What the set holds of one syntax: its name, its file extensions, and
/// its first-line pattern, if any.
pub type SyntaxInfo = (Seq<char>, Seq<Seq<char>>, Option<Seq<char>>);

/// The syntaxes of a set, in order.
pub uninterp spec fn syntax_entries(set: SyntaxSet) -> Seq<(Seq<char>, Seq<Seq<char>>, Option<Seq<char>>)>;

/// What a syntax of a set holds: its name, extensions and first-line pattern.
pub uninterp spec fn syntax_info(syntax: SyntaxReference) -> (Seq<char>, Seq<Seq<char>>, Option<Seq<char>>);

/// The names under which a theme set holds its themes.
pub uninterp spec fn theme_names(set: ThemeSet) -> Set<Seq<char>>;

/// The theme a theme set holds under `name`.
pub uninterp spec fn theme_stored(set: ThemeSet, name: Seq<char>) -> Theme;

/// True when the pattern compiles as a regular expression of syntect.
pub uninterp spec fn pattern_compiles(pattern: Seq<char>) -> bool;

/// True when syntect's search for the first-line pattern finds a match in the line.
pub uninterp spec fn first_line_pattern_matches(pattern: Seq<char>, line: Seq<char>) -> bool;

/// The line without a leading UTF-8 byte order mark.
pub open spec fn without_bom(line: Seq<char>) -> Seq<char> {
    if line.len() > 0 && line[0] == '\u{feff}' {
        line.skip(1)
    } else {
        line
    }
}

/// True when the syntax's first-line pattern matches the line.
pub open spec fn first_line_hit(entry: (Seq<char>, Seq<Seq<char>>, Option<Seq<char>>), line: Seq<char>) -> bool {
    match entry.2 {
        Some(p) => first_line_pattern_matches(p, without_bom(line)),
        None => false,
    }
}

/// The position of the last syntax whose first-line pattern matches the
/// line (after a leading byte order mark), or -1.
pub open spec fn last_first_line_match(entries: Seq<(Seq<char>, Seq<Seq<char>>, Option<Seq<char>>)>, line: Seq<char>) -> int
    decreases entries.len(),
{
    if entries.len() == 0 {
        -1
    } else if first_line_hit(entries.last(), line) {
        entries.len() - 1
    } else {
        last_first_line_match(entries.drop_last(), line)
    }
}

/// The position of the last syntax called `name`, or -1.
pub open spec fn last_named(entries: Seq<SyntaxInfo>, name: Seq<char>) -> int
    decreases entries.len(),
{
    if entries.len() == 0 {
        -1
    } else if entries.last().0 == name {
        entries.len() - 1
    } else {
        last_named(entries.drop_last(), name)
    }
}

/// True when two texts are equal once ASCII letters are put in lower case.
pub open spec fn eq_ignore_ascii_case(a: Seq<char>, b: Seq<char>) -> bool {
    ascii_lowercase(a) == ascii_lowercase(b)
}

/// True when `ext` is among the extensions, ASCII letters compared without case.
pub open spec fn lists_extension(exts: Seq<Seq<char>>, ext: Seq<char>) -> bool {
    exists|j: int| 0 <= j < exts.len() && eq_ignore_ascii_case(#[trigger] exts[j], ext)
}

/// The position of the last syntax that lists `ext`, or -1.
pub open spec fn last_with_extension(entries: Seq<SyntaxInfo>, ext: Seq<char>) -> int
    decreases entries.len(),
{
    if entries.len() == 0 {
        -1
    } else if lists_extension(entries.last().1, ext) {
        entries.len() - 1
    } else {
        last_with_extension(entries.drop_last(), ext)
    }
}

/// True when some syntax of the entries is called `name`.
pub open spec fn has_syntax_named(entries: Seq<SyntaxInfo>, name: Seq<char>) -> bool {
    exists|i: int| 0 <= i < entries.len() && (#[trigger] entries[i]).0 == name
}

/// True when every first-line pattern of the entries compiles.
pub open spec fn first_line_patterns_compile(entries: Seq<SyntaxInfo>) -> bool {
    forall|i: int|
        0 <= i < entries.len() ==> match (#[trigger] entries[i]).2 {
            Some(p) => pattern_compiles(p),
            None => true,
        }
}

proof fn lemma_last_named(entries: Seq<SyntaxInfo>, name: Seq<char>)
    ensures
        -1 <= last_named(entries, name) < entries.len(),
        last_named(entries, name) >= 0 ==> entries[last_named(entries, name)].0 == name,
        last_named(entries, name) >= 0 <==> has_syntax_named(entries, name),
    decreases entries.len(),
{
    if entries.len() > 0 {
        let d = entries.drop_last();
        lemma_last_named(d, name);
        if has_syntax_named(entries, name) && entries.last().0 != name {
            let i = choose|i: int| 0 <= i < entries.len() && (#[trigger] entries[i]).0 == name;
            assert(i < entries.len() - 1);
            assert(d[i] == entries[i]);
        }
        if has_syntax_named(d, name) {
            let i = choose|i: int| 0 <= i < d.len() && (#[trigger] d[i]).0 == name;
            assert(entries[i] == d[i]);
        }
        if entries.last().0 == name {
            assert(entries[entries.len() - 1].0 == name);
        }
    }
}

proof fn lemma_last_with_extension(entries: Seq<SyntaxInfo>, ext: Seq<char>)
    ensures
        -1 <= last_with_extension(entries, ext) < entries.len(),
        last_with_extension(entries, ext) >= 0 ==> lists_extension(entries[last_with_extension(entries, ext)].1, ext),
    decreases entries.len(),
{
    if entries.len() > 0 {
        lemma_last_with_extension(entries.drop_last(), ext);
    }
}

/// `SyntaxSet::find_syntax_by_name`: the last syntax called `name`, found
/// exactly when the set holds one.
#[verifier::external_body]
fn find_syntax_by_name<'a>(set: &'a SyntaxSet, name: &str) -> (res: Option<&'a SyntaxReference>)
    ensures
        res is Some <==> last_named(syntax_entries(*set), name@) >= 0,
        res matches Some(r) ==> syntax_info(*r) == syntax_entries(*set)[last_named(syntax_entries(*set), name@)],
{
    set.find_syntax_by_name(name)
}

/// `SyntaxSet::find_syntax_by_extension`: the last syntax that lists the
/// extension, compared without ASCII case, found exactly when the set holds one.
#[verifier::external_body]
fn find_syntax_by_extension<'a>(set: &'a SyntaxSet, extension: &str) -> (res: Option<&'a SyntaxReference>)
    ensures
        res is Some <==> last_with_extension(syntax_entries(*set), extension@) >= 0,
        res matches Some(r) ==> syntax_info(*r) == syntax_entries(*set)[last_with_extension(
            syntax_entries(*set),
            extension@,
        )],
{
    set.find_syntax_by_extension(extension)
}

/// `SyntaxSet::find_syntax_by_first_line`: with a leading byte order mark
/// stripped from the line, the last syntax of the set whose first-line
/// pattern matches it, found exactly when one does. The patterns are compiled
/// on first use, and one that does not compile panics, so all must compile.
#[verifier::external_body]
fn find_syntax_by_first_line<'a>(set: &'a SyntaxSet, line: &str) -> (res: Option<&'a SyntaxReference>)
    requires
        first_line_patterns_compile(syntax_entries(*set)),
    ensures
        res is Some <==> last_first_line_match(syntax_entries(*set), line@) >= 0,
        res matches Some(r) ==> syntax_info(*r) == syntax_entries(*set)[last_first_line_match(
            syntax_entries(*set),
            line@,
        )],
        res matches Some(r) ==> (syntax_info(*r).2 matches Some(p) && first_line_pattern_matches(p, without_bom(line@))),
{
    set.find_syntax_by_first_line(line)
}

/// `SyntaxSet::syntaxes().len()`: the number of syntaxes of the set.
#[verifier::external_body]
fn syntax_count(set: &SyntaxSet) -> (res: usize)
    ensures
        res == syntax_entries(*set).len(),
{
    set.syntaxes().len()
}

/// The first-line pattern of the `i`-th syntax of the set (the public field
/// `first_line_match` of `SyntaxSet::syntaxes()[i]`).
#[verifier::external_body]
fn first_line_pattern_at(set: &SyntaxSet, i: usize) -> (res: Option<String>)
    requires
        i < syntax_entries(*set).len(),
    ensures
        match res {
            Some(p) => syntax_entries(*set)[i as int].2 == Some(p@),
            None => syntax_entries(*set)[i as int].2 is None,
        },
{
    set.syntaxes()[i].first_line_match.clone()
}

/// `syntect::parsing::Regex::try_compile`: whether the pattern compiles.
#[verifier::external_body]
fn try_compile_pattern(pattern: &str) -> (res: bool)
    ensures
        res == pattern_compiles(pattern@),
{
    syntect::parsing::Regex::try_compile(pattern).is_none()
}

/// The text after the last `/`, or the whole text when it has none.
pub open spec fn last_segment(p: Seq<char>) -> Seq<char>
    decreases p.len(),
{
    if p.len() == 0 {
        p
    } else if p.last() == '/' {
        Seq::<char>::empty()
    } else {
        last_segment(p.drop_last()).push(p.last())
    }
}

/// A path written with `/` alone whose last part is a file name: no `\\`,
/// no `:`, no leading `//`, and a last part that is neither empty nor `.`
/// nor `..`. Such a path splits alike on every platform.
pub open spec fn simple_path(p: Seq<char>) -> bool {
    &&& !p.contains('\\')
    &&& !p.contains(':')
    &&& !has_prefix(p, "//"@)
    &&& last_segment(p).len() > 0
    &&& last_segment(p) != "."@
    &&& last_segment(p) != ".."@
}

/// The position of the last `.` of the text, or -1.
pub open spec fn last_dot(n: Seq<char>) -> int
    decreases n.len(),
{
    if n.len() == 0 {
        -1
    } else if n.last() == '.' {
        n.len() - 1
    } else {
        last_dot(n.drop_last())
    }
}

/// The extension of a file name: what follows its last `.`, unless it has
/// none or its only `.` is its first character.
pub open spec fn extension_of(name: Seq<char>) -> Option<Seq<char>> {
    if last_dot(name) <= 0 {
        None
    } else {
        Some(name.skip(last_dot(name) + 1))
    }
}

/// `Path::file_name` of the path, as UTF-8 text: the final component. How a
/// path splits into components depends on the platform; for a path written
/// with `/` alone whose last part is a file name, that part is the final
/// component everywhere. Of other paths nothing is stated.
#[verifier::external_body]
fn path_file_name(path: &str) -> (res: Option<String>)
    ensures
        res is None ==> !simple_path(path@),
        res matches Some(n) ==> (simple_path(path@) ==> n@ == last_segment(path@)),
{
    std::path::Path::new(path).file_name().and_then(|name| name.to_str()).map(String::from)
}

/// `Path::extension` of the path, as UTF-8 text: what follows the last `.`
/// of the file name, none when the name has no `.` or only a leading one.
/// For a path written with `/` alone whose last part is a file name, that
/// part is the file name; of other paths nothing is stated.
#[verifier::external_body]
fn path_extension(path: &str) -> (res: Option<String>)
    ensures
        res is None ==> !simple_path(path@) || extension_of(last_segment(path@)) is None,
        res matches Some(x) ==> (simple_path(path@) ==> extension_of(last_segment(path@)) == Some(x@)),
{
    std::path::Path::new(path).extension().and_then(|ext| ext.to_str()).map(String::from)
}

/// `BTreeMap::get` on the themes of a theme set: the theme stored under
/// `name`, found exactly when the set holds that name.
#[verifier::external_body]
fn find_theme<'a>(set: &'a ThemeSet, name: &str) -> (res: Option<&'a Theme>)
    ensures
        res is Some <==> theme_names(*set).contains(name@),
        res matches Some(t) ==> *t == theme_stored(*set, name@),
{
    set.themes.get(name)
}

/// The name of the theme used for diffs.
pub open spec fn diff_theme_name() -> Seq<char> {
    "base16-ocean.dark"@
}

/// The theme used for diffs: the one stored under "base16-ocean.dark".
pub fn syntax_theme(themes: &ThemeSet) -> (res: &Theme)
    requires
        theme_names(*themes).contains(diff_theme_name()),
    ensures
        *res == theme_stored(*themes, diff_theme_name()),
{
    find_theme(themes, "base16-ocean.dark").unwrap()
}

/// The theme used for diffs, or none when the set does not hold it.
pub fn syntax_theme_checked(themes: &ThemeSet) -> (res: Option<&Theme>)
    ensures
        res is Some <==> theme_names(*themes).contains(diff_theme_name()),
        res matches Some(t) ==> *t == theme_stored(*themes, diff_theme_name()),
{
    find_theme(themes, "base16-ocean.dark")
}

/// Tests whether every first-line pattern of the set compiles.
pub fn first_line_patterns_ok(set: &SyntaxSet) -> (res: bool)
    ensures
        res == first_line_patterns_compile(syntax_entries(*set)),
{
    let n = syntax_count(set);
    let ghost e = syntax_entries(*set);
    let mut i: usize = 0;
    while i < n
        invariant
            n == e.len(),
            e == syntax_entries(*set),
            i <= n,
            forall|j: int|
                0 <= j < i ==> match (#[trigger] e[j]).2 {
                    Some(p) => pattern_compiles(p),
                    None => true,
                },
        decreases n - i,
    {
        match first_line_pattern_at(set, i) {
            Some(p) => {
                if !try_compile_pattern(p.as_str()) {
                    assert(!first_line_patterns_compile(e)) by {
                        assert(e[i as int].2 == Some(p@));
                    }
                    return false;
                }
            },
            None => {},
        }
        i = i + 1;
    }
    true
}

/// How a file with a well-known name is looked up.
#[derive(Clone, Copy, Debug)]
pub enum SyntaxLookup {
    /// By the syntax's name.
    ByName(&'static str),
    /// By a file extension.
    ByExtension(&'static str),
}

/// The lookup of a well-known file name: Dockerfile and Makefile by their
/// syntax names, Cargo's manifest and lock file as TOML.
pub open spec fn spec_special_lookup(file_name: Seq<char>) -> Option<(bool, Seq<char>)> {
    if file_name == "Dockerfile"@ {
        Some((true, "Dockerfile"@))
    } else if file_name == "Cargo.lock"@ || file_name == "Cargo.toml"@ {
        Some((false, "toml"@))
    } else if file_name == "Makefile"@ {
        Some((true, "Makefile"@))
    } else {
        None
    }
}

/// The lookup as a pair: whether it goes by name, and the key.
pub open spec fn lookup_pair(l: SyntaxLookup) -> (bool, Seq<char>) {
    match l {
        SyntaxLookup::ByName(k) => (true, k@),
        SyntaxLookup::ByExtension(k) => (false, k@),
    }
}

/// Chooses how a well-known file name is looked up, if it is one.
pub fn special_file_lookup(file_name: &str) -> (res: Option<SyntaxLookup>)
    ensures
        match res {
            Some(l) => spec_special_lookup(file_name@) == Some(lookup_pair(l)),
            None => spec_special_lookup(file_name@) is None,
        },
{
    let n = String::from_str(file_name);
    if n == String::from_str("Dockerfile") {
        Some(SyntaxLookup::ByName("Dockerfile"))
    } else if n == String::from_str("Cargo.lock") || n == String::from_str("Cargo.toml") {
        Some(SyntaxLookup::ByExtension("toml"))
    } else if n == String::from_str("Makefile") {
        Some(SyntaxLookup::ByName("Makefile"))
    } else {
        None
    }
}

/// The position of the syntax a well-known file name is looked up as: the
/// last of that name or listing that extension, or -1.
pub open spec fn special_hit(entries: Seq<SyntaxInfo>, file_name: Option<Seq<char>>) -> int {
    match file_name {
        Some(n) => match spec_special_lookup(n) {
            Some(l) => if l.0 {
                last_named(entries, l.1)
            } else {
                last_with_extension(entries, l.1)
            },
            None => -1,
        },
        None => -1,
    }
}

/// The position of the last syntax listing the extension, or -1.
pub open spec fn extension_hit(entries: Seq<SyntaxInfo>, extension: Option<Seq<char>>) -> int {
    match extension {
        Some(e) => last_with_extension(entries, e),
        None => -1,
    }
}

/// The choice of syntax for a file: the well-known-name match if there is
/// one, else the last syntax listing the extension, else (given a first
/// line) the last syntax whose first-line pattern matches it, else plain
/// text.
pub open spec fn syntax_choice(
    entries: Seq<SyntaxInfo>,
    file_name: Option<Seq<char>>,
    extension: Option<Seq<char>>,
    first_line: Option<Seq<char>>,
    chosen: SyntaxInfo,
) -> bool {
    let plain = entries[last_named(entries, "Plain Text"@)];
    if special_hit(entries, file_name) >= 0 {
        chosen == entries[special_hit(entries, file_name)]
    } else if extension_hit(entries, extension) >= 0 {
        chosen == entries[extension_hit(entries, extension)]
    } else if first_line matches Some(l) && last_first_line_match(entries, l) >= 0 {
        chosen == entries[last_first_line_match(entries, first_line.unwrap())]
    } else {
        chosen == plain
    }
}

/// The text, if any, as a character sequence.
pub open spec fn opt_text(s: Option<&str>) -> Option<Seq<char>> {
    match s {
        Some(v) => Some(v@),
        None => None,
    }
}

/// Chooses the highlighting syntax for a file from its name and extension.
pub fn choose_syntax<'a>(
    set: &'a SyntaxSet,
    file_name: Option<&str>,
    extension: Option<&str>,
    first_line: Option<&str>,
) -> (res: &'a SyntaxReference)
    requires
        has_syntax_named(syntax_entries(*set), "Plain Text"@),
        first_line_patterns_compile(syntax_entries(*set)),
    ensures
        syntax_choice(syntax_entries(*set), opt_text(file_name), opt_text(extension), opt_text(first_line), syntax_info(*res)),
{
    let ghost e = syntax_entries(*set);
    proof {
        lemma_last_named(e, "Plain Text"@);
    }
    match file_name {
        Some(name) => {
            let found = match special_file_lookup(name) {
                Some(SyntaxLookup::ByName(k)) => find_syntax_by_name(set, k),
                Some(SyntaxLookup::ByExtension(k)) => find_syntax_by_extension(set, k),
                None => None,
            };
            match found {
                Some(s) => {
                    return s;
                },
                None => {},
            }
        },
        None => {},
    }
    match extension {
        Some(ext) => match find_syntax_by_extension(set, ext) {
            Some(s) => {
                return s;
            },
            None => {},
        },
        None => {},
    }
    match first_line {
        Some(line) => match find_syntax_by_first_line(set, line) {
            Some(s) => {
                return s;
            },
            None => {},
        },
        None => {},
    }
    find_syntax_by_name(set, "Plain Text").unwrap()
}

/// The highlighting syntax of a file: by its well-known name, else by its
/// extension, else by its first line, else plain text. How the path splits
/// into file name and extension depends on the platform; the choice is made
/// for the name and extension that the path gives, which for a path written
/// with `/` alone are its last part and that part's extension.
pub fn get_syntax<'a>(set: &'a SyntaxSet, file_path: &str, first_line: Option<&str>) -> (res: &'a SyntaxReference)
    requires
        has_syntax_named(syntax_entries(*set), "Plain Text"@),
        first_line_patterns_compile(syntax_entries(*set)),
    ensures
        simple_path(file_path@) ==> syntax_choice(
            syntax_entries(*set),
            Some(last_segment(file_path@)),
            extension_of(last_segment(file_path@)),
            opt_text(first_line),
            syntax_info(*res),
        ),
        exists|file_name: Option<Seq<char>>, extension: Option<Seq<char>>|
            #[trigger] syntax_choice(syntax_entries(*set), file_name, extension, opt_text(first_line), syntax_info(*res)),
{
    let name = path_file_name(file_path);
    let ext = path_extension(file_path);
    let name_ref: Option<&str> = match &name {
        Some(n) => Some(n.as_str()),
        None => None,
    };
    let ext_ref: Option<&str> = match &ext {
        Some(x) => Some(x.as_str()),
        None => None,
    };
    choose_syntax(set, name_ref, ext_ref, first_line)
}

/// The highlighting syntax of a file, or none when the set has no plain-text
/// syntax or a first-line pattern that does not compile.
pub fn get_syntax_checked<'a>(set: &'a SyntaxSet, file_path: &str, first_line: Option<&str>) -> (res: Option<&'a SyntaxReference>)
    ensures
        res is Some <==> has_syntax_named(syntax_entries(*set), "Plain Text"@) && first_line_patterns_compile(
            syntax_entries(*set),
        ),
        res is Some ==> exists|file_name: Option<Seq<char>>, extension: Option<Seq<char>>|
            #[trigger] syntax_choice(syntax_entries(*set), file_name, extension, opt_text(first_line), syntax_info(*res.unwrap())),
        res is Some && simple_path(file_path@) ==> syntax_choice(
            syntax_entries(*set),
            Some(last_segment(file_path@)),
            extension_of(last_segment(file_path@)),
            opt_text(first_line),
            syntax_info(*res.unwrap()),
        ),
{
    proof {
        lemma_last_named(syntax_entries(*set), "Plain Text"@);
    }
    if find_syntax_by_name(set, "Plain Text").is_none() || !first_line_patterns_ok(set) {
        return None;
    }
    let r = get_syntax(set, file_path, first_line);
    proof {
        let (n, x) = choose|n: Option<Seq<char>>, x: Option<Seq<char>>|
            #[trigger] syntax_choice(syntax_entries(*set), n, x, opt_text(first_line), syntax_info(*r));
        assert(syntax_choice(syntax_entries(*set), n, x, opt_text(first_line), syntax_info(*r)));
        assert(exists|n2: Option<Seq<char>>, x2: Option<Seq<char>>|
            #[trigger] syntax_choice(syntax_entries(*set), n2, x2, opt_text(first_line), syntax_info(*r)));
    }
    let res = Some(r);
    assert(syntax_info(*res.unwrap()) == syntax_info(*r));
    res
}

} // verus!
