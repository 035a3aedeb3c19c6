//! Path filters: exclusions and selections by glob pattern, and selections
//! by substring with and without regard to case.

use crate::text::{contains_text, lowercase_of, str_contains, to_lowercase};
use vstd::prelude::*;
use vstd::utf8::encode_utf8;

verus! {

/// The filters that decide which paths are processed.
#[derive(Debug, Clone)]
pub struct Filters {
    /// Glob patterns of paths to leave out.
    pub exclude: Vec<String>,
    /// Glob patterns of paths to take.
    pub select: Vec<String>,
    /// Substrings of paths to take.
    pub filter: Vec<String>,
    /// Substrings of paths to take, without regard to case.
    pub ifilter: Vec<String>,
}

/// The glob matcher keeps positions in a path as 32-bit numbers; a path
/// must be shorter than this many bytes to be matched.
pub const GLOB_PATH_LIMIT: usize = 0xFFFF_FFFF;

/// Whether the glob `pattern` matches `path`, as the glob matcher decides
/// it. Path separators are those of the platform the library is built for.
pub uninterp spec fn glob_matches(pattern: Seq<char>, path: Seq<char>) -> bool;

/// Whether `path` is short enough for the glob matcher.
pub open spec fn is_matchable(path: Seq<char>) -> bool {
    encode_utf8(path).len() < GLOB_PATH_LIMIT
}

/// Calls `glob_match::glob_match`. Nothing is claimed of the result but
/// that it is a function of the pattern and the path. The matcher adds one
/// to a position in the path held as a 32-bit number, so paths that reach
/// the limit are kept away from it.
#[verifier::external_body]
fn glob_match(pattern: &str, path: &str) -> (r: bool)
    requires
        is_matchable(path@),
    ensures
        r == glob_matches(pattern@, path@),
{
    glob_match::glob_match(pattern, path)
}

/// Whether one of the glob patterns matches `path`. No pattern matches a
/// path that is too long for the matcher.
pub open spec fn any_glob(patterns: Seq<String>, path: Seq<char>) -> bool {
    is_matchable(path) && exists|i: int|
        0 <= i < patterns.len() && glob_matches(#[trigger] patterns[i]@, path)
}

/// Whether `path` contains one of the substrings.
pub open spec fn any_contained(parts: Seq<String>, path: Seq<char>) -> bool {
    exists|i: int| 0 <= i < parts.len() && contains_text(path, #[trigger] parts[i]@)
}

/// Whether the lower-case `path` contains the lower-case form of one of the
/// substrings.
pub open spec fn any_contained_lowered(parts: Seq<String>, lowered_path: Seq<char>) -> bool {
    exists|i: int|
        0 <= i < parts.len() && contains_text(lowered_path, lowercase_of(#[trigger] parts[i]@))
}

/// The verdict on a path, given what each group of filters found: an
/// excluded path is never taken; otherwise a path is taken when there are
/// no positive filters at all, or when one of them accepts it.
pub open spec fn spec_verdict(
    excluded: bool,
    unrestricted: bool,
    selected: bool,
    contained: bool,
    contained_lowered: bool,
) -> bool {
    !excluded && (unrestricted || selected || contained || contained_lowered)
}

/// Decides on a path from what each group of filters found.
pub fn filter_verdict(
    excluded: bool,
    unrestricted: bool,
    selected: bool,
    contained: bool,
    contained_lowered: bool,
) -> (r: bool)
    ensures
        r == spec_verdict(excluded, unrestricted, selected, contained, contained_lowered),
{
    if excluded {
        return false;
    }
    unrestricted || selected || contained || contained_lowered
}

/// Whether `path` passes `filters`.
pub open spec fn spec_matches_filters(path: Seq<char>, filters: Filters) -> bool {
    spec_verdict(
        any_glob(filters.exclude@, path),
        filters.select@.len() == 0 && filters.filter@.len() == 0 && filters.ifilter@.len() == 0,
        any_glob(filters.select@, path),
        any_contained(filters.filter@, path),
        any_contained_lowered(filters.ifilter@, lowercase_of(path)),
    )
}

/// Whether one of the glob patterns matches `path`.
fn matches_any_glob(patterns: &Vec<String>, path: &str) -> (r: bool)
    ensures
        r == any_glob(patterns@, path@),
{
    if path.as_bytes().len() >= GLOB_PATH_LIMIT {
        return false;
    }
    let mut i: usize = 0;
    while i < patterns.len()
        invariant
            i <= patterns.len(),
            is_matchable(path@),
            forall|j: int| 0 <= j < i ==> !glob_matches(#[trigger] patterns@[j]@, path@),
        decreases patterns.len() - i,
    {
        if glob_match(patterns[i].as_str(), path) {
            return true;
        }
        i = i + 1;
    }
    false
}

/// Whether `path` contains one of the substrings.
fn contains_any(parts: &Vec<String>, path: &str) -> (r: bool)
    ensures
        r == any_contained(parts@, path@),
{
    let mut i: usize = 0;
    while i < parts.len()
        invariant
            i <= parts.len(),
            forall|j: int| 0 <= j < i ==> !contains_text(path@, #[trigger] parts@[j]@),
        decreases parts.len() - i,
    {
        if str_contains(path, parts[i].as_str()) {
            return true;
        }
        i = i + 1;
    }
    false
}

/// Whether the lower-case `path` contains the lower-case form of one of the
/// substrings.
fn contains_any_lowered(parts: &Vec<String>, lowered_path: &str) -> (r: bool)
    ensures
        r == any_contained_lowered(parts@, lowered_path@),
{
    let mut i: usize = 0;
    while i < parts.len()
        invariant
            i <= parts.len(),
            forall|j: int|
                0 <= j < i ==> !contains_text(lowered_path@, lowercase_of(#[trigger] parts@[j]@)),
        decreases parts.len() - i,
    {
        let lowered = to_lowercase(parts[i].as_str());
        if str_contains(lowered_path, lowered.as_str()) {
            return true;
        }
        i = i + 1;
    }
    false
}

/// Decides whether a path passes the filters: no exclusion pattern matches
/// it, and either there is no positive filter or one of them accepts it.
pub fn matches_filters(path: &str, filters: &Filters) -> (r: bool)
    ensures
        r == spec_matches_filters(path@, *filters),
{
    let excluded = matches_any_glob(&filters.exclude, path);
    if excluded {
        return false;
    }
    let unrestricted = filters.select.len() == 0 && filters.filter.len() == 0
        && filters.ifilter.len() == 0;
    if unrestricted {
        return true;
    }
    let selected = matches_any_glob(&filters.select, path);
    let contained = contains_any(&filters.filter, path);
    let lowered_path = to_lowercase(path);
    let contained_lowered = contains_any_lowered(&filters.ifilter, lowered_path.as_str());
    filter_verdict(excluded, unrestricted, selected, contained, contained_lowered)
}

} // verus!
