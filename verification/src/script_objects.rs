//! The script-objects table: the path of an object through the objects that
//! enclose it, and the entries reported for each object.

use crate::report::ScriptObjectEntry;
use crate::text::{hex_digits, hex_text};
use vstd::prelude::*;
use vstd::string::StringExecFns;

verus! {

/// A script object as the table of a game installation lists it.
#[derive(Debug, Clone)]
pub struct ScriptObject {
    pub name: String,
    /// The object's own hash.
    pub hash: u64,
    /// The hash of the enclosing object, for an object that has one.
    pub outer: Option<u64>,
    /// The hash of the class of the default object, for an object that has
    /// one.
    pub cdo_class: Option<u64>,
}

/// Index of the first object at or after `from` that has the hash `hash`.
pub open spec fn find_hash(objects: Seq<ScriptObject>, hash: u64, from: int) -> Option<int>
    decreases objects.len() - from,
{
    if from < 0 || from >= objects.len() {
        None
    } else if objects[from].hash == hash {
        Some(from)
    } else {
        find_hash(objects, hash, from + 1)
    }
}

/// The path of the object at index `at`: the path of the enclosing object,
/// a dot, and the object's name; the name alone for an object that has no
/// enclosing object or whose enclosing object is not in the table. At most
/// `depth` enclosing objects are followed, so that a table in which the
/// objects enclose each other in a circle yields a path too.
pub open spec fn spec_object_path(objects: Seq<ScriptObject>, at: int, depth: nat) -> Seq<char>
    decreases depth,
{
    match objects[at].outer {
        None => objects[at].name@,
        Some(hash) => match find_hash(objects, hash, 0) {
            None => objects[at].name@,
            Some(outer) => if depth == 0 {
                objects[at].name@
            } else {
                spec_object_path(objects, outer, (depth - 1) as nat) + "."@ + objects[at].name@
            },
        },
    }
}

/// Index of the first object that has the hash `hash`.
fn position_of_hash(objects: &[ScriptObject], hash: u64) -> (r: Option<usize>)
    ensures
        match r {
            Some(at) => find_hash(objects@, hash, 0) == Some(at as int) && at < objects@.len(),
            None => find_hash(objects@, hash, 0) is None,
        },
{
    let mut i: usize = 0;
    while i < objects.len()
        invariant
            i <= objects.len(),
            find_hash(objects@, hash, 0) == find_hash(objects@, hash, i as int),
        decreases objects.len() - i,
    {
        if objects[i].hash == hash {
            return Some(i);
        }
        i = i + 1;
    }
    None
}

/// The path of the object at index `at`, following at most `depth`
/// enclosing objects.
pub fn object_path(objects: &[ScriptObject], at: usize, depth: usize) -> (r: String)
    requires
        at < objects@.len(),
    ensures
        r@ == spec_object_path(objects@, at as int, depth as nat),
    decreases depth,
{
    let object = &objects[at];
    match object.outer {
        None => object.name.clone(),
        Some(hash) => match position_of_hash(objects, hash) {
            None => object.name.clone(),
            Some(outer) => {
                if depth == 0 {
                    object.name.clone()
                } else {
                    let mut path = object_path(objects, outer, depth - 1);
                    path.append(".");
                    path.append(object.name.as_str());
                    path
                }
            },
        },
    }
}

/// An entry of the lookup table as a plain value.
pub ghost struct ScriptObjectEntryView {
    pub name: Seq<char>,
    pub path: Seq<char>,
    pub hash: Seq<char>,
    pub hash_value: u64,
    pub outer_hash: Option<Seq<char>>,
    pub cdo_class_hash: Option<Seq<char>>,
}

impl View for ScriptObjectEntry {
    type V = ScriptObjectEntryView;

    open spec fn view(&self) -> ScriptObjectEntryView {
        ScriptObjectEntryView {
            name: self.name@,
            path: self.path@,
            hash: self.hash@,
            hash_value: self.hash_value,
            outer_hash: match self.outer_hash {
                Some(h) => Some(h@),
                None => None,
            },
            cdo_class_hash: match self.cdo_class_hash {
                Some(h) => Some(h@),
                None => None,
            },
        }
    }
}

/// The hexadecimal numeral of a hash, where there is one.
pub open spec fn spec_hash_text(hash: Option<u64>) -> Option<Seq<char>> {
    match hash {
        Some(h) => Some(hex_digits(h as nat)),
        None => None,
    }
}

/// The entry reported for the object at index `at`: its name, its path, and
/// its hashes in upper-case hexadecimal.
pub open spec fn spec_entry(objects: Seq<ScriptObject>, at: int) -> ScriptObjectEntryView {
    ScriptObjectEntryView {
        name: objects[at].name@,
        path: spec_object_path(objects, at, objects.len()),
        hash: hex_digits(objects[at].hash as nat),
        hash_value: objects[at].hash,
        outer_hash: spec_hash_text(objects[at].outer),
        cdo_class_hash: spec_hash_text(objects[at].cdo_class),
    }
}

/// The hexadecimal numeral of a hash, where there is one.
fn hash_text(hash: Option<u64>) -> (r: Option<String>)
    ensures
        spec_hash_text(hash) == (match r {
            Some(t) => Some(t@),
            None => None,
        }),
{
    match hash {
        Some(h) => Some(hex_text(h)),
        None => None,
    }
}

/// The entries of the lookup table, one for each object, in table order.
pub fn script_object_entries(objects: &[ScriptObject]) -> (r: Vec<ScriptObjectEntry>)
    ensures
        r@.len() == objects@.len(),
        forall|i: int| 0 <= i < objects@.len() ==> (#[trigger] r@[i])@ == spec_entry(objects@, i),
{
    let mut entries: Vec<ScriptObjectEntry> = Vec::new();
    let mut i: usize = 0;
    while i < objects.len()
        invariant
            i <= objects.len(),
            entries@.len() == i,
            forall|k: int| 0 <= k < i ==> (#[trigger] entries@[k])@ == spec_entry(objects@, k),
        decreases objects.len() - i,
    {
        let object = &objects[i];
        let entry = ScriptObjectEntry {
            name: object.name.clone(),
            path: object_path(objects, i, objects.len()),
            hash: hex_text(object.hash),
            hash_value: object.hash,
            outer_hash: hash_text(object.outer),
            cdo_class_hash: hash_text(object.cdo_class),
        };
        entries.push(entry);
        i = i + 1;
    }
    entries
}

} // verus!
