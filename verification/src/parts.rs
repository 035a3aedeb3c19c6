//! The parts database: entries, categories and the groupings that queries
//! are answered from.

use crate::fields::{
    assoc_get,
    assoc_insert,
    keys_ascending,
    lemma_assoc_find,
    sorted_by_key,
    FieldMap,
};
use crate::text::{
    chars_of,
    contains_text,
    find_char,
    find_text,
    first_index_of,
    first_occurrence,
    last_index_of,
    lowercase_of,
    parse_i64_chars,
    rfind_char,
    spec_parse_i64,
    str_contains,
    to_lowercase,
};
use vstd::string::StrSliceExecFns;
use std::collections::BTreeMap;
use vstd::prelude::*;
use vstd::std_specs::btree::{axiom_increasing_seq_meaning, increasing_seq, spec_keys_iter};
use vstd::std_specs::cmp::OrdSpec;
use vstd::std_specs::iter::IteratorSpec;
use vstd::slice::slice_subrange;

verus! {

broadcast use {vstd::laws_cmp::group_laws_cmp, vstd::std_specs::btree::group_btree_axioms};

/// The categories file: one mapping per part-name prefix.
#[derive(Debug)]
pub struct PartCategoriesFile {
    pub categories: Vec<PartCategory>,
}

/// The category that a part-name prefix belongs to.
#[derive(Debug)]
pub struct PartCategory {
    pub prefix: String,
    pub category: i64,
    pub weapon_type: Option<String>,
    pub gear_type: Option<String>,
    pub manufacturer: Option<String>,
}

/// The parts database.
#[derive(Debug)]
pub struct PartsDatabase {
    pub parts: Vec<PartEntry>,
}

/// One part: its name, its category and its index within the category.
#[derive(Debug, Clone)]
pub struct PartEntry {
    pub name: String,
    pub category: i64,
    pub index: i64,
}

/// The answer to a query of the parts database.
pub struct PartsQueryResult {
    pub categories: BTreeMap<i64, Vec<PartEntry>>,
    pub total_parts: usize,
}

/// The outcome of a search for a category by name.
pub enum FindCategoryResult {
    /// Exactly one category matched.
    Single(i64),
    /// More than one category matched; the first two are listed.
    Multiple(Vec<(i64, String)>),
}

/// The category id in a file stem such as `jakobs_pistol-3` or `3`: the
/// number after the last hyphen if that is a number, else the whole stem if
/// it is a number.
pub open spec fn spec_category_id(stem: Seq<char>) -> Option<i64> {
    match last_index_of(stem, '-', stem.len() as int) {
        Some(at) => match spec_parse_i64(stem.subrange(at + 1, stem.len() as int)) {
            Some(id) => Some(id),
            None => spec_parse_i64(stem),
        },
        None => spec_parse_i64(stem),
    }
}

/// Extracts the category id from a file stem.
pub fn parse_category_id(stem: &str) -> (r: Option<i64>)
    ensures
        r == spec_category_id(stem@),
{
    let chars = chars_of(stem);
    match rfind_char(chars.as_slice(), '-') {
        Some(at) => {
            let tail = slice_subrange(chars.as_slice(), at + 1, chars.len());
            match parse_i64_chars(tail) {
                Some(id) => Some(id),
                None => parse_i64_chars(chars.as_slice()),
            }
        },
        None => parse_i64_chars(chars.as_slice()),
    }
}

/// The parts of `parts` that belong to `category`, in order.
pub open spec fn in_category(parts: Seq<PartEntry>, category: i64) -> Seq<PartEntry>
    decreases parts.len(),
{
    if parts.len() == 0 {
        Seq::empty()
    } else if parts.last().category == category {
        in_category(parts.drop_last(), category).push(parts.last())
    } else {
        in_category(parts.drop_last(), category)
    }
}

/// The entries that a sequence of references points to.
pub open spec fn targets(refs: Seq<&PartEntry>) -> Seq<PartEntry> {
    Seq::new(refs.len(), |i: int| *refs[i])
}

/// Groups the parts of a database by category. A category is a key of the
/// result exactly when some part belongs to it, and it maps to its parts in
/// database order.
pub fn build_category_map(db: &PartsDatabase) -> (r: BTreeMap<i64, Vec<&PartEntry>>)
    ensures
        forall|c: i64| #[trigger] r@.contains_key(c) <==> in_category(db.parts@, c).len() > 0,
        forall|c: i64| #[trigger]
            r@.contains_key(c) ==> targets(r@[c]@) == in_category(db.parts@, c),
{
    let mut by_category: BTreeMap<i64, Vec<&PartEntry>> = BTreeMap::new();
    let mut i: usize = 0;
    while i < db.parts.len()
        invariant
            i <= db.parts.len(),
            forall|c: i64| #[trigger]
                by_category@.contains_key(c) <==> in_category(
                    db.parts@.subrange(0, i as int),
                    c,
                ).len() > 0,
            forall|c: i64| #[trigger]
                by_category@.contains_key(c) ==> targets(by_category@[c]@) == in_category(
                    db.parts@.subrange(0, i as int),
                    c,
                ),
        decreases db.parts.len() - i,
    {
        let part = &db.parts[i];
        let key = part.category;
        let ghost before = by_category@;
        let ghost prefix = db.parts@.subrange(0, i as int);
        let ghost next = db.parts@.subrange(0, i + 1);
        let mut group: Vec<&PartEntry> = match by_category.remove(&key) {
            Some(g) => g,
            None => Vec::new(),
        };
        proof {
            assert(next.drop_last() =~= prefix);
            assert(next.last() == *part);
            if before.contains_key(key) {
                assert(targets(group@) == in_category(prefix, key));
            } else {
                assert(targets(group@) =~= in_category(prefix, key));
            }
        }
        let ghost old_group = group@;
        group.push(part);
        proof {
            assert(targets(group@) =~= targets(old_group).push(*part));
        }
        by_category.insert(key, group);
        proof {
            assert forall|c: i64| #[trigger]
                by_category@.contains_key(c) <==> in_category(next, c).len() > 0 by {
                if c != key {
                    assert(by_category@.contains_key(c) == before.contains_key(c));
                }
            }
            assert forall|c: i64| #[trigger] by_category@.contains_key(c) implies targets(
                by_category@[c]@,
            ) == in_category(next, c) by {
                if c != key {
                    assert(before.contains_key(c));
                    assert(by_category@[c] == before[c]);
                }
            }
        }
        i = i + 1;
    }
    assert(db.parts@.subrange(0, i as int) =~= db.parts@);
    by_category
}

/// The type of a part, read off its name: the text between the first
/// `.part_` and the next underscore or the next `.part_`, whichever comes
/// first; `other` for a name without `.part_`.
pub open spec fn spec_part_type(name: Seq<char>) -> Seq<char> {
    match first_occurrence(name, ".part_"@, 0) {
        None => "other"@,
        Some(at) => {
            let rest = name.subrange(at + ".part_"@.len(), name.len() as int);
            let piece = match first_occurrence(rest, ".part_"@, 0) {
                Some(end) => rest.subrange(0, end),
                None => rest,
            };
            match first_index_of(piece, '_', 0) {
                Some(end) => piece.subrange(0, end),
                None => piece,
            }
        },
    }
}

/// The type of a part, read off its name.
pub fn part_type(name: &str) -> (r: String)
    ensures
        r@ == spec_part_type(name@),
{
    let name_chars = chars_of(name);
    let marker_chars = chars_of(".part_");
    let chars = name_chars.as_slice();
    let marker = marker_chars.as_slice();
    match find_text(chars, marker, 0) {
        None => "other".to_owned(),
        Some(at) => {
            let total = chars.len();
            let start = at + marker.len();
            let rest = slice_subrange(chars, start, total);
            let piece_len = match find_text(rest, marker, 0) {
                Some(end) => end,
                None => rest.len(),
            };
            let piece = slice_subrange(rest, 0, piece_len);
            let type_len = match find_char(piece, '_', 0) {
                Some(end) => end,
                None => piece.len(),
            };
            proof {
                assert(piece@.subrange(0, piece@.len() as int) =~= piece@);
                assert(rest@.subrange(0, rest@.len() as int) =~= rest@);
                assert(piece@.subrange(0, type_len as int) =~= name@.subrange(
                    start as int,
                    start + type_len,
                ));
            }
            name.substring_char(start, start + type_len).to_owned()
        },
    }
}

/// Parts grouped by type while reading `parts` in order: each part joins
/// the end of the group of its type, and a type without a group yet gets
/// one behind the others.
pub open spec fn spec_groups(parts: Seq<&PartEntry>) -> Seq<(Seq<char>, Seq<&PartEntry>)>
    decreases parts.len(),
{
    if parts.len() == 0 {
        Seq::empty()
    } else {
        let groups = spec_groups(parts.drop_last());
        let key = spec_part_type(parts.last().name@);
        let group = match assoc_get(groups, key) {
            Some(g) => g,
            None => Seq::empty(),
        };
        assoc_insert(groups, key, group.push(parts.last()))
    }
}

/// Groups parts by their type. The groups come in the order of their
/// types, as strings are ordered; within a group the parts keep the order
/// in which they were given.
pub fn group_parts_by_type<'a>(parts: &[&'a PartEntry]) -> (r: FieldMap<Vec<&'a PartEntry>>)
    ensures
        r@ == sorted_by_key::<Vec<&'a PartEntry>>(spec_groups(parts@)),
        keys_ascending(r@),
        forall|key: Seq<char>| assoc_get(r@, key) == assoc_get(spec_groups(parts@), key),
{
    let mut by_type: FieldMap<Vec<&'a PartEntry>> = FieldMap::new();
    let mut i: usize = 0;
    assert(parts@.subrange(0, 0) =~= Seq::<&PartEntry>::empty());
    while i < parts.len()
        invariant
            i <= parts.len(),
            by_type@ == spec_groups(parts@.subrange(0, i as int)),
        decreases parts.len() - i,
    {
        let part: &'a PartEntry = parts[i];
        let key = part_type(part.name.as_str());
        let ghost before = by_type@;
        let ghost next = parts@.subrange(0, i + 1);
        proof {
            assert(next.drop_last() =~= parts@.subrange(0, i as int));
            assert(next.last() == part);
        }
        match by_type.position_of(key.as_str()) {
            Some(at) => {
                let empty: Vec<&'a PartEntry> = Vec::new();
                match by_type.replace_at(at, empty) {
                    Some(group) => {
                        let mut group = group;
                        group.push(part);
                        by_type.replace_at(at, group);
                        proof {
                            lemma_assoc_find(before, key@, 0);
                        }
                        assert(by_type@ =~= assoc_insert(
                            before,
                            key@,
                            assoc_get(before, key@)->0.push(part),
                        ));
                    },
                    None => {},
                }
            },
            None => {
                let mut group: Vec<&'a PartEntry> = Vec::new();
                group.push(part);
                assert(group@ =~= Seq::<&PartEntry>::empty().push(part));
                by_type.insert(key, group);
            },
        }
        i = i + 1;
    }
    assert(parts@.subrange(0, i as int) =~= parts@);
    by_type.sort_by_key();
    by_type
}

/// The outcome of a search as a plain value.
pub ghost enum FindCategoryView {
    Single(i64),
    Multiple(Seq<(i64, Seq<char>)>),
}

impl View for FindCategoryResult {
    type V = FindCategoryView;

    open spec fn view(&self) -> FindCategoryView {
        match *self {
            FindCategoryResult::Single(id) => FindCategoryView::Single(id),
            FindCategoryResult::Multiple(found) => FindCategoryView::Multiple(
                Seq::new(found@.len(), |i: int| (found@[i].0, found@[i].1@)),
            ),
        }
    }
}

/// A category that takes part in a search: its id, its name, and the
/// lower-case form of its name.
pub struct Candidate {
    pub id: i64,
    pub name: String,
    pub lowered: String,
}

/// Candidates as plain values: id, name, lower-case name.
pub open spec fn candidates_view(candidates: Seq<Candidate>) -> Seq<
    (i64, Seq<char>, Seq<char>),
> {
    Seq::new(
        candidates.len(),
        |i: int| (candidates[i].id, candidates[i].name@, candidates[i].lowered@),
    )
}

/// The candidates whose lower-case name contains `needle`, in order, each
/// with its id and name.
pub open spec fn matching(candidates: Seq<(i64, Seq<char>, Seq<char>)>, needle: Seq<char>) -> Seq<
    (i64, Seq<char>),
>
    decreases candidates.len(),
{
    if candidates.len() == 0 {
        Seq::empty()
    } else if contains_text(candidates.last().2, needle) {
        matching(candidates.drop_last(), needle).push((candidates.last().0, candidates.last().1))
    } else {
        matching(candidates.drop_last(), needle)
    }
}

/// The outcome of a search that found `found`: nothing for no match, the
/// category for one match, the first two matches for more.
pub open spec fn spec_search_outcome(found: Seq<(i64, Seq<char>)>) -> Option<FindCategoryView> {
    if found.len() == 0 {
        None
    } else if found.len() == 1 {
        Some(FindCategoryView::Single(found[0].0))
    } else {
        Some(FindCategoryView::Multiple(found.subrange(0, 2)))
    }
}

/// The matches among the first `k` candidates are the first matches among
/// all of them.
pub proof fn lemma_matching_prefix(
    candidates: Seq<(i64, Seq<char>, Seq<char>)>,
    needle: Seq<char>,
    k: int,
)
    requires
        0 <= k <= candidates.len(),
    ensures
        matching(candidates.subrange(0, k), needle).len() <= matching(candidates, needle).len(),
        matching(candidates, needle).subrange(
            0,
            matching(candidates.subrange(0, k), needle).len() as int,
        ) == matching(candidates.subrange(0, k), needle),
    decreases candidates.len() - k,
{
    if k == candidates.len() {
        assert(candidates.subrange(0, k) =~= candidates);
        assert(matching(candidates, needle).subrange(
            0,
            matching(candidates, needle).len() as int,
        ) =~= matching(candidates, needle));
    } else {
        lemma_matching_prefix(candidates, needle, k + 1);
        let longer = candidates.subrange(0, k + 1);
        assert(longer.drop_last() =~= candidates.subrange(0, k));
        let a = matching(candidates.subrange(0, k), needle);
        let b = matching(longer, needle);
        let all = matching(candidates, needle);
        assert(all.subrange(0, a.len() as int) =~= b.subrange(0, a.len() as int));
        assert(b.subrange(0, a.len() as int) =~= a);
    }
}

/// Searches the candidates for those whose lower-case name contains
/// `needle`.
pub fn find_category_among(candidates: &[Candidate], needle: &str) -> (r: Option<
    FindCategoryResult,
>)
    ensures
        spec_search_outcome(matching(candidates_view(candidates@), needle@)) == (match r {
            Some(found) => Some(found@),
            None => None,
        }),
{
    let ghost all = candidates_view(candidates@);
    let mut first: Option<usize> = None;
    let mut i: usize = 0;
    assert(all.subrange(0, 0) =~= Seq::empty());
    while i < candidates.len()
        invariant
            i <= candidates.len(),
            all == candidates_view(candidates@),
            match first {
                Some(at) => at < i && matching(all.subrange(0, i as int), needle@) == seq![
                    (all[at as int].0, all[at as int].1),
                ],
                None => matching(all.subrange(0, i as int), needle@).len() == 0,
            },
        decreases candidates.len() - i,
    {
        let ghost next = all.subrange(0, i + 1);
        proof {
            assert(next.drop_last() =~= all.subrange(0, i as int));
            assert(next.last() == all[i as int]);
        }
        if str_contains(candidates[i].lowered.as_str(), needle) {
            match first {
                Some(at) => {
                    let mut found: Vec<(i64, String)> = Vec::new();
                    found.push((candidates[at].id, candidates[at].name.clone()));
                    found.push((candidates[i].id, candidates[i].name.clone()));
                    let result = FindCategoryResult::Multiple(found);
                    proof {
                        lemma_matching_prefix(all, needle@, i + 1);
                        assert(matching(next, needle@).len() == 2);
                        assert(result@ == FindCategoryView::Multiple(matching(next, needle@))) by {
                            assert(result@->Multiple_0 =~= matching(next, needle@));
                        }
                        assert(matching(all, needle@).subrange(0, 2) == matching(next, needle@));
                    }
                    return Some(result);
                },
                None => {
                    first = Some(i);
                    assert(matching(next, needle@) =~= seq![(all[i as int].0, all[i as int].1)]);
                },
            }
        }
        i = i + 1;
    }
    assert(all.subrange(0, i as int) =~= all);
    match first {
        Some(at) => Some(FindCategoryResult::Single(candidates[at].id)),
        None => None,
    }
}

/// The outcome of a search as a plain value.
pub open spec fn outcome_view(r: Option<FindCategoryResult>) -> Option<FindCategoryView> {
    match r {
        Some(found) => Some(found@),
        None => None,
    }
}

/// The name of category `id` in the table `names`, searched from index
/// `from` on: the name of the first entry with that id.
pub open spec fn name_of(names: Seq<(i64, String)>, id: i64, from: int) -> Option<Seq<char>>
    decreases names.len() - from,
{
    if from < 0 || from >= names.len() {
        None
    } else if names[from].0 == id {
        Some(names[from].1@)
    } else {
        name_of(names, id, from + 1)
    }
}

/// Whether category `id` is found by a search for `needle`: it has parts,
/// it has a name, and the lower-case form of its name contains `needle`.
pub open spec fn is_category_match(
    present: Set<i64>,
    names: Seq<(i64, String)>,
    needle: Seq<char>,
    id: i64,
) -> bool {
    present.contains(id) && match name_of(names, id, 0) {
        Some(name) => contains_text(lowercase_of(name), needle),
        None => false,
    }
}

/// Whether `r` is the outcome of a search among the categories `present`:
/// nothing when no category matches; the category when exactly one
/// matches; else the two matching categories with the least ids, in
/// ascending order, each with its name.
pub open spec fn is_search_outcome(
    present: Set<i64>,
    names: Seq<(i64, String)>,
    needle: Seq<char>,
    r: Option<FindCategoryView>,
) -> bool {
    match r {
        None => forall|id: i64| !#[trigger] is_category_match(present, names, needle, id),
        Some(FindCategoryView::Single(id)) => {
            &&& is_category_match(present, names, needle, id)
            &&& forall|other: i64| #[trigger]
                is_category_match(present, names, needle, other) ==> other == id
        },
        Some(FindCategoryView::Multiple(found)) => {
            &&& found.len() == 2
            &&& found[0].0 < found[1].0
            &&& is_category_match(present, names, needle, found[0].0)
            &&& is_category_match(present, names, needle, found[1].0)
            &&& name_of(names, found[0].0, 0) == Some(found[0].1)
            &&& name_of(names, found[1].0, 0) == Some(found[1].1)
            &&& forall|other: i64| #[trigger]
                is_category_match(present, names, needle, other) ==> other == found[0].0
                    || other >= found[1].0
        },
    }
}

/// Whether the candidates come with ascending ids, each id once.
pub open spec fn ids_ascending(candidates: Seq<(i64, Seq<char>, Seq<char>)>) -> bool {
    forall|i: int, j: int|
        0 <= i < j < candidates.len() ==> (#[trigger] candidates[i]).0 < (
        #[trigger] candidates[j]).0
}

/// Whether `pair` is the id and name of a candidate whose lower-case name
/// contains `needle`.
pub open spec fn is_hit(
    candidates: Seq<(i64, Seq<char>, Seq<char>)>,
    needle: Seq<char>,
    pair: (i64, Seq<char>),
) -> bool {
    exists|i: int|
        0 <= i < candidates.len() && (#[trigger] candidates[i]).0 == pair.0 && candidates[i].1
            == pair.1 && contains_text(candidates[i].2, needle)
}

/// Whether one of the pairs has the id `id`.
pub open spec fn has_id(found: Seq<(i64, Seq<char>)>, id: i64) -> bool {
    exists|k: int| 0 <= k < found.len() && (#[trigger] found[k]).0 == id
}

/// The matches among candidates with ascending ids are the candidates that
/// match, and come with ascending ids too.
pub proof fn lemma_matching_is_filter(
    candidates: Seq<(i64, Seq<char>, Seq<char>)>,
    needle: Seq<char>,
)
    requires
        ids_ascending(candidates),
    ensures
        forall|k: int|
            0 <= k < matching(candidates, needle).len() ==> is_hit(
                candidates,
                needle,
                #[trigger] matching(candidates, needle)[k],
            ),
        forall|i: int|
            0 <= i < candidates.len() && contains_text((#[trigger] candidates[i]).2, needle)
                ==> has_id(matching(candidates, needle), candidates[i].0),
        forall|k: int, l: int|
            0 <= k < l < matching(candidates, needle).len() ==> (#[trigger] matching(
                candidates,
                needle,
            )[k]).0 < (#[trigger] matching(candidates, needle)[l]).0,
    decreases candidates.len(),
{
    let m = matching(candidates, needle);
    if candidates.len() > 0 {
        let rest = candidates.drop_last();
        let last = candidates.last();
        let n = rest.len() as int;
        assert(ids_ascending(rest)) by {
            assert forall|i: int, j: int| 0 <= i < j < rest.len() implies (#[trigger] rest[i]).0 < (
            #[trigger] rest[j]).0 by {
                assert(candidates[i].0 < candidates[j].0);
            }
        }
        lemma_matching_is_filter(rest, needle);
        let before = matching(rest, needle);
        assert forall|k: int| 0 <= k < m.len() implies is_hit(candidates, needle, #[trigger] m[k]) by {
            if k < before.len() {
                assert(m[k] == before[k]);
                assert(is_hit(rest, needle, before[k]));
                let i = choose|i: int|
                    0 <= i < rest.len() && (#[trigger] rest[i]).0 == before[k].0 && rest[i].1
                        == before[k].1 && contains_text(rest[i].2, needle);
                assert(candidates[i] == rest[i]);
            } else {
                assert(candidates[n] == last);
            }
        }
        assert forall|i: int|
            0 <= i < candidates.len() && contains_text(
                (#[trigger] candidates[i]).2,
                needle,
            ) implies has_id(m, candidates[i].0) by {
            if i < n {
                assert(rest[i] == candidates[i]);
                assert(has_id(before, rest[i].0));
                let k = choose|k: int| 0 <= k < before.len() && (#[trigger] before[k]).0 == rest[i].0;
                assert(m[k] == before[k]);
            } else {
                assert(m[m.len() - 1].0 == last.0);
            }
        }
        assert forall|k: int, l: int| 0 <= k < l < m.len() implies (#[trigger] m[k]).0 < (
        #[trigger] m[l]).0 by {
            if l < before.len() {
                assert(m[k] == before[k] && m[l] == before[l]);
            } else {
                assert(m[k] == before[k]);
                assert(is_hit(rest, needle, before[k]));
                let i = choose|i: int|
                    0 <= i < rest.len() && (#[trigger] rest[i]).0 == before[k].0 && rest[i].1
                        == before[k].1 && contains_text(rest[i].2, needle);
                assert(candidates[i].0 < candidates[n].0);
            }
        }
    }
}

/// The name of category `id` in the table `names`.
fn lookup_name<'a>(names: &'a [(i64, String)], id: i64) -> (r: Option<&'a String>)
    ensures
        name_of(names@, id, 0) == (match r {
            Some(name) => Some(name@),
            None => None,
        }),
{
    let mut i: usize = 0;
    while i < names.len()
        invariant
            i <= names.len(),
            name_of(names@, id, 0) == name_of(names@, id, i as int),
        decreases names.len() - i,
    {
        if names[i].0 == id {
            return Some(&names[i].1);
        }
        i = i + 1;
    }
    None
}

/// Whether one of the candidates has the id `id`.
pub open spec fn has_candidate(candidates: Seq<(i64, Seq<char>, Seq<char>)>, id: i64) -> bool {
    exists|c: int| 0 <= c < candidates.len() && (#[trigger] candidates[c]).0 == id
}

/// Whether `candidates` are the named categories that have parts: one
/// candidate for each category of `present` that has a name, in ascending
/// order of the ids, with the category's name and its lower-case form.
pub open spec fn are_named_candidates(
    present: Set<i64>,
    names: Seq<(i64, String)>,
    candidates: Seq<(i64, Seq<char>, Seq<char>)>,
) -> bool {
    &&& ids_ascending(candidates)
    &&& forall|c: int|
        0 <= c < candidates.len() ==> {
            &&& present.contains((#[trigger] candidates[c]).0)
            &&& name_of(names, candidates[c].0, 0) == Some(candidates[c].1)
            &&& candidates[c].2 == lowercase_of(candidates[c].1)
        }
    &&& forall|id: i64|
        present.contains(id) && name_of(names, id, 0) is Some ==> #[trigger] has_candidate(
            candidates,
            id,
        )
}

/// What a search among the named candidates finds is the outcome of the
/// search among the categories.
pub proof fn lemma_search_among_named(
    present: Set<i64>,
    names: Seq<(i64, String)>,
    candidates: Seq<(i64, Seq<char>, Seq<char>)>,
    needle: Seq<char>,
)
    requires
        are_named_candidates(present, names, candidates),
    ensures
        is_search_outcome(
            present,
            names,
            needle,
            spec_search_outcome(matching(candidates, needle)),
        ),
{
    let m = matching(candidates, needle);
    lemma_matching_is_filter(candidates, needle);
    assert forall|id: i64| #[trigger] is_category_match(present, names, needle, id) implies has_id(
        m,
        id,
    ) by {
        assert(has_candidate(candidates, id));
        let c = choose|c: int| 0 <= c < candidates.len() && (#[trigger] candidates[c]).0 == id;
        assert(contains_text(candidates[c].2, needle));
    }
    assert forall|k: int| 0 <= k < m.len() implies is_category_match(
        present,
        names,
        needle,
        (#[trigger] m[k]).0,
    ) && name_of(names, m[k].0, 0) == Some(m[k].1) by {
        assert(is_hit(candidates, needle, m[k]));
        let c = choose|c: int|
            0 <= c < candidates.len() && (#[trigger] candidates[c]).0 == m[k].0 && candidates[c].1
                == m[k].1 && contains_text(candidates[c].2, needle);
        assert(present.contains(candidates[c].0));
    }
    if m.len() == 0 {
        assert forall|id: i64| !#[trigger] is_category_match(present, names, needle, id) by {
            if is_category_match(present, names, needle, id) {
                assert(has_id(m, id));
            }
        }
    } else if m.len() == 1 {
        assert(is_category_match(present, names, needle, m[0].0));
        assert forall|other: i64| #[trigger]
            is_category_match(present, names, needle, other) implies other == m[0].0 by {
            assert(has_id(m, other));
        }
    } else {
        let found = m.subrange(0, 2);
        assert(found[0] == m[0] && found[1] == m[1]);
        assert(is_category_match(present, names, needle, m[0].0));
        assert(is_category_match(present, names, needle, m[1].0));
        assert(m[0].0 < m[1].0);
        assert forall|other: i64| #[trigger]
            is_category_match(present, names, needle, other) implies other == m[0].0 || other
            >= m[1].0 by {
            assert(has_id(m, other));
            let k = choose|k: int| 0 <= k < m.len() && (#[trigger] m[k]).0 == other;
            if k > 1 {
                assert(m[1].0 < m[k].0);
            }
        }
    }
}

/// The named categories that have parts, in ascending order of their ids.
fn named_candidates(by_category: &BTreeMap<i64, Vec<&PartEntry>>, names: &[(i64, String)]) -> (r:
    Vec<Candidate>)
    ensures
        are_named_candidates(by_category@.dom(), names@, candidates_view(r@)),
{
    let ids = ascending_ids(by_category);
    let ghost present = by_category@.dom();
    let mut candidates: Vec<Candidate> = Vec::new();
    let mut i: usize = 0;
    while i < ids.len()
        invariant
            i <= ids.len(),
            present == by_category@.dom(),
            forall|a: int, b: int| 0 <= a < b < ids@.len() ==> ids@[a] < ids@[b],
            forall|id: i64| present.contains(id) <==> ids@.contains(id),
            ids_ascending(candidates_view(candidates@)),
            forall|c: int|
                0 <= c < candidates@.len() ==> {
                    &&& present.contains((#[trigger] candidates_view(candidates@)[c]).0)
                    &&& name_of(names@, candidates_view(candidates@)[c].0, 0) == Some(
                        candidates_view(candidates@)[c].1,
                    )
                    &&& candidates_view(candidates@)[c].2 == lowercase_of(
                        candidates_view(candidates@)[c].1,
                    )
                    &&& i > 0 && candidates_view(candidates@)[c].0 <= ids@[i - 1]
                },
            forall|k: int|
                0 <= k < i && name_of(names@, #[trigger] ids@[k], 0) is Some ==> has_candidate(
                    candidates_view(candidates@),
                    ids@[k],
                ),
        decreases ids.len() - i,
    {
        let id = ids[i];
        let ghost before = candidates_view(candidates@);
        proof {
            assert(ids@.contains(id));
            if i > 0 {
                assert(ids@[i - 1] < ids@[i as int]);
            }
        }
        match lookup_name(names, id) {
            Some(name) => {
                let candidate = Candidate {
                    id,
                    name: name.clone(),
                    lowered: to_lowercase(name.as_str()),
                };
                candidates.push(candidate);
                proof {
                    let view = candidates_view(candidates@);
                    let last = (candidate.id, candidate.name@, candidate.lowered@);
                    assert(view =~= before.push(last));
                    assert forall|k: int|
                        0 <= k < i + 1 && name_of(
                            names@,
                            #[trigger] ids@[k],
                            0,
                        ) is Some implies has_candidate(view, ids@[k]) by {
                        if k < i {
                            assert(has_candidate(before, ids@[k]));
                            let c = choose|c: int|
                                0 <= c < before.len() && (#[trigger] before[c]).0 == ids@[k];
                            assert(view[c].0 == ids@[k]);
                        } else {
                            assert(view[before.len() as int].0 == ids@[k]);
                        }
                    }
                }
            },
            None => {},
        }
        i = i + 1;
    }
    proof {
        let view = candidates_view(candidates@);
        assert forall|id: i64|
            present.contains(id) && name_of(names@, id, 0) is Some implies #[trigger] has_candidate(
            view,
            id,
        ) by {
            assert(ids@.contains(id));
            let k = choose|k: int| 0 <= k < ids@.len() && ids@[k] == id;
            assert(name_of(names@, ids@[k], 0) is Some);
        }
    }
    candidates
}

/// Finds a category by a part of its name, without regard to case. The
/// categories that have parts in `by_category` are tried in ascending order
/// of their ids, each once; `names` gives the name of a category. A
/// category without a name is passed over.
pub fn find_category_by_name(
    by_category: &BTreeMap<i64, Vec<&PartEntry>>,
    names: &[(i64, String)],
    search: &str,
) -> (r: Option<FindCategoryResult>)
    ensures
        is_search_outcome(by_category@.dom(), names@, lowercase_of(search@), outcome_view(r)),
{
    let needle = to_lowercase(search);
    let candidates = named_candidates(by_category, names);
    proof {
        lemma_search_among_named(
            by_category@.dom(),
            names@,
            candidates_view(candidates@),
            lowercase_of(search@),
        );
    }
    find_category_among(candidates.as_slice(), needle.as_str())
}

} // verus!

verus! {

/// The category ids that have parts, in ascending order, each once.
fn ascending_ids(by_category: &BTreeMap<i64, Vec<&PartEntry>>) -> (r: Vec<i64>)
    ensures
        forall|i: int, j: int| 0 <= i < j < r@.len() ==> r@[i] < r@[j],
        forall|id: i64| by_category@.contains_key(id) <==> r@.contains(id),
{
    let mut ids: Vec<i64> = Vec::new();
    let ghost keys = spec_keys_iter(by_category).remaining();
    for key in it: by_category.keys()
        invariant
            it.seq() == keys,
            keys == spec_keys_iter(by_category).remaining(),
            ids@.len() == it.index(),
            forall|k: int| 0 <= k < ids@.len() ==> ids@[k] == *keys[k],
    {
        ids.push(*key);
    }
    proof {
        assert(ids@.len() == keys.len());
        assert(increasing_seq(keys));
        axiom_increasing_seq_meaning::<&i64>(keys);
        assert forall|i: int, j: int| 0 <= i < j < ids@.len() implies ids@[i] < ids@[j] by {
            assert(ids@[i] == *keys[i] && ids@[j] == *keys[j]);
            assert(OrdSpec::cmp_spec(&keys[i], &keys[j]) is Less);
        }
        assert forall|id: i64| by_category@.contains_key(id) <==> ids@.contains(id) by {
            if by_category@.contains_key(id) {
                assert(keys.unref().to_set().contains(id));
                let k = choose|k: int| 0 <= k < keys.unref().len() && keys.unref()[k] == id;
                assert(ids@[k] == id);
            }
            if ids@.contains(id) {
                let k = choose|k: int| 0 <= k < ids@.len() && ids@[k] == id;
                assert(keys.unref()[k] == id);
                assert(keys.unref().to_set().contains(id));
            }
        }
    }
    ids
}

} // verus!
