//! Comparing repository paths as `Path` does: by their components.
use vstd::prelude::*;

use crate::text::has_prefix;

verus! {

/// The parts of a path text after `seg` has been read from its end: the
/// pieces between `/` separators, without empty pieces and `.`.
pub open spec fn parts_before(p: Seq<char>, seg: Seq<char>) -> Seq<Seq<char>>
    decreases p.len(),
{
    let done = if seg.len() == 0 || seg == "."@ {
        Seq::<Seq<char>>::empty()
    } else {
        seq![seg]
    };
    if p.len() == 0 {
        done
    } else if p.last() == '/' {
        parts_before(p.drop_last(), Seq::<char>::empty()) + done
    } else {
        parts_before(p.drop_last(), seq![p.last()] + seg)
    }
}

/// The components of a path text written with `/`: whether it starts at the
/// root, whether it starts with a `.` component, and the other parts in
/// order. Repeated separators, a trailing separator and `.` parts after the
/// start do not count.
pub open spec fn path_components(p: Seq<char>) -> (bool, bool, Seq<Seq<char>>) {
    let rooted = has_prefix(p, "/"@);
    let cur = !rooted && (p == "."@ || has_prefix(p, "./"@));
    (rooted, cur, parts_before(p, Seq::<char>::empty()))
}

/// A path text that every platform splits at `/` alone: no `\\`, no `:`,
/// and no leading `//`.
pub open spec fn portable_path(p: Seq<char>) -> bool {
    &&& !p.contains('\\')
    &&& !p.contains(':')
    &&& !has_prefix(p, "//"@)
}

/// What `Path` equality answers (`same`) for two path texts, as far as it is
/// the same on every platform: equal texts are equal paths, and portable
/// path texts are equal paths exactly when their components are equal.
pub open spec fn path_answer(a: Seq<char>, b: Seq<char>, same: bool) -> bool {
    &&& a == b ==> same
    &&& portable_path(a) && portable_path(b) ==> same == (path_components(a) == path_components(b))
}

/// `Path::new(a) == Path::new(b)`: paths are equal when their components
/// are. Equal texts give equal paths. How a text splits into components
/// depends on the platform; for texts written with `/` alone (no `\\`, no
/// `:`, no leading `//`) the components are the root, a leading `.`, and the
/// non-empty parts other than `.` between separators. Of other texts only
/// the first fact is stated.
#[verifier::external_body]
pub(crate) fn same_path(a: &str, b: &str) -> (same: bool)
    ensures
        path_answer(a@, b@, same),
{
    std::path::Path::new(a) == std::path::Path::new(b)
}

} // verus!
