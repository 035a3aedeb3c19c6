//! Recovering part serial indices from the raw strings of an inventory
//! catalog: part names of the form `MANU_TYPE_Name`, each followed within a
//! few strings by its index as a decimal numeral.

use crate::text::{
    bytes_as_chars,
    chars_of,
    find_char,
    first_index_of,
    is_ascii_bytes,
    parse_u32,
    spec_parse_u32,
    string_from_ascii,
};
use crate::order::{
    lemma_text_lt_irreflexive,
    lemma_text_lt_transitive,
    spec_sorted,
    stable_sort,
    text_less,
    text_lt,
    Ranked,
};
use vstd::prelude::*;
use vstd::slice::slice_subrange;
use vstd::string::StrSliceExecFns;

verus! {

/// How many strings after a part name are searched for its index,
/// counting the part name itself.
pub const INDEX_WINDOW: usize = 10;

/// Serial indices are below this bound.
pub const INDEX_LIMIT: u32 = 1000;

/// A part with its serial index.
#[derive(Debug, Clone)]
pub struct PartIndex {
    pub part_name: String,
    pub serial_index: u32,
    pub manufacturer: String,
    pub weapon_type: String,
}

/// A part with its serial index, as a plain value.
pub ghost struct PartIndexView {
    pub part_name: Seq<char>,
    pub serial_index: u32,
    pub manufacturer: Seq<char>,
    pub weapon_type: Seq<char>,
}

impl View for PartIndex {
    type V = PartIndexView;

    open spec fn view(&self) -> PartIndexView {
        PartIndexView {
            part_name: self.part_name@,
            serial_index: self.serial_index,
            manufacturer: self.manufacturer@,
            weapon_type: self.weapon_type@,
        }
    }
}

/// Whether `b` is a printable ASCII code, the blank included.
pub open spec fn is_printable(b: u8) -> bool {
    32 <= b <= 126
}

/// Scans `data` for runs of printable bytes: the strings completed so far
/// and the run that is still open. A zero byte completes the open run, if
/// it is not empty; any other byte that is not printable discards it.
pub open spec fn spec_scan_strings(data: Seq<u8>) -> (Seq<Seq<char>>, Seq<u8>)
    decreases data.len(),
{
    if data.len() == 0 {
        (Seq::empty(), Seq::empty())
    } else {
        let (done, run) = spec_scan_strings(data.drop_last());
        if data.last() == 0 {
            if run.len() > 0 {
                (done.push(bytes_as_chars(run)), Seq::empty())
            } else {
                (done, Seq::empty())
            }
        } else if is_printable(data.last()) {
            (done, run.push(data.last()))
        } else {
            (done, Seq::empty())
        }
    }
}

/// The strings of `data`: every non-empty run of printable bytes that ends
/// with a zero byte, in order. A run that the end of the data cuts off is
/// no string.
pub open spec fn spec_null_strings(data: Seq<u8>) -> Seq<Seq<char>> {
    spec_scan_strings(data).0
}

/// Whether every byte is printable.
pub open spec fn all_printable(run: Seq<u8>) -> bool {
    forall|i: int| 0 <= i < run.len() ==> is_printable(#[trigger] run[i])
}

/// The open run of a scan holds printable bytes only.
pub proof fn lemma_scan_run_is_printable(data: Seq<u8>)
    ensures
        all_printable(spec_scan_strings(data).1),
    decreases data.len(),
{
    if data.len() > 0 {
        lemma_scan_run_is_printable(data.drop_last());
        let (done, run) = spec_scan_strings(data.drop_last());
        let b = data.last();
        if b != 0 && is_printable(b) {
            assert forall|i: int| 0 <= i < run.push(b).len() implies is_printable(
                #[trigger] run.push(b)[i],
            ) by {
                if i < run.len() {
                    assert(is_printable(run[i]));
                }
            }
        }
    }
}

/// Extracts the zero-terminated printable strings of a buffer.
pub fn extract_null_strings(data: &[u8]) -> (r: Vec<String>)
    ensures
        crate::table::view_each(r@) == spec_null_strings(data@),
{
    let mut strings: Vec<String> = Vec::new();
    let mut current: Vec<u8> = Vec::new();
    let mut i: usize = 0;
    assert(data@.subrange(0, 0) =~= Seq::<u8>::empty());
    assert(crate::table::view_each(strings@) =~= Seq::<Seq<char>>::empty());
    while i < data.len()
        invariant
            i <= data.len(),
            (crate::table::view_each(strings@), current@) == spec_scan_strings(
                data@.subrange(0, i as int),
            ),
        decreases data.len() - i,
    {
        let b = data[i];
        proof {
            let next = data@.subrange(0, i + 1);
            assert(next.drop_last() =~= data@.subrange(0, i as int));
            assert(next.last() == b);
            lemma_scan_run_is_printable(data@.subrange(0, i as int));
        }
        if b == 0 {
            if current.len() > 0 {
                let mut run: Vec<u8> = Vec::new();
                core::mem::swap(&mut run, &mut current);
                assert(is_ascii_bytes(run@)) by {
                    assert(all_printable(run@));
                    assert forall|k: int| 0 <= k < run@.len() implies #[trigger] run@[k] < 128 by {
                        assert(is_printable(run@[k]));
                    }
                }
                match string_from_ascii(run) {
                    Some(s) => {
                        proof {
                            crate::table::lemma_view_each_push(strings@, s);
                        }
                        strings.push(s);
                    },
                    None => {},
                }
            }
        } else if b >= 32 && b <= 126 {
            current.push(b);
        } else {
            current = Vec::new();
        }
        i = i + 1;
    }
    assert(data@.subrange(0, i as int) =~= data@);
    strings
}

/// Whether `s` is the code of a known weapon manufacturer.
pub open spec fn is_manufacturer(s: Seq<char>) -> bool {
    s == "BOR"@ || s == "DAD"@ || s == "JAK"@ || s == "MAL"@ || s == "ORD"@ || s == "TED"@ || s
        == "TOR"@ || s == "VLA"@
}

/// Whether `s` is the code of a known weapon type.
pub open spec fn is_weapon_code(s: Seq<char>) -> bool {
    s == "AR"@ || s == "PS"@ || s == "SG"@ || s == "SM"@ || s == "SR"@
}

/// Whether `c` is an ASCII letter or digit.
pub open spec fn is_ascii_alphanumeric(c: char) -> bool {
    ('0' <= c <= '9') || ('a' <= c <= 'z') || ('A' <= c <= 'Z')
}

/// Whether `s` is a part's own name: not empty, and made of ASCII letters,
/// digits and underscores.
pub open spec fn is_part_suffix(s: Seq<char>) -> bool {
    s.len() > 0 && forall|i: int|
        0 <= i < s.len() ==> is_ascii_alphanumeric(#[trigger] s[i]) || s[i] == '_'
}

/// The manufacturer and the weapon type of a part name `MANU_TYPE_Name`:
/// the text before the first underscore must be a known manufacturer, the
/// text between the first two underscores a known weapon type, and the rest
/// a part's own name.
pub open spec fn spec_part_name(s: Seq<char>) -> Option<(Seq<char>, Seq<char>)> {
    match first_index_of(s, '_', 0) {
        None => None,
        Some(a) => match first_index_of(s, '_', a + 1) {
            None => None,
            Some(b) => if is_manufacturer(s.subrange(0, a)) && is_weapon_code(
                s.subrange(a + 1, b),
            ) && is_part_suffix(s.subrange(b + 1, s.len() as int)) {
                Some((s.subrange(0, a), s.subrange(a + 1, b)))
            } else {
                None
            },
        },
    }
}

/// Whether `s` is the code of a known weapon manufacturer.
fn known_manufacturer(s: &str) -> (r: bool)
    ensures
        r == is_manufacturer(s@),
{
    crate::text::str_eq(s, "BOR") || crate::text::str_eq(s, "DAD") || crate::text::str_eq(s, "JAK")
        || crate::text::str_eq(s, "MAL") || crate::text::str_eq(s, "ORD") || crate::text::str_eq(
        s,
        "TED",
    ) || crate::text::str_eq(s, "TOR") || crate::text::str_eq(s, "VLA")
}

/// Whether `s` is the code of a known weapon type.
fn known_weapon_code(s: &str) -> (r: bool)
    ensures
        r == is_weapon_code(s@),
{
    crate::text::str_eq(s, "AR") || crate::text::str_eq(s, "PS") || crate::text::str_eq(s, "SG")
        || crate::text::str_eq(s, "SM") || crate::text::str_eq(s, "SR")
}

/// Whether the characters are a part's own name.
fn part_suffix(s: &[char]) -> (r: bool)
    ensures
        r == is_part_suffix(s@),
{
    if s.len() == 0 {
        return false;
    }
    let mut i: usize = 0;
    while i < s.len()
        invariant
            i <= s.len(),
            forall|j: int| 0 <= j < i ==> is_ascii_alphanumeric(#[trigger] s@[j]) || s@[j] == '_',
        decreases s.len() - i,
    {
        let c = s[i];
        let ok = (c >= '0' && c <= '9') || (c >= 'a' && c <= 'z') || (c >= 'A' && c <= 'Z') || c
            == '_';
        if !ok {
            assert(!(is_ascii_alphanumeric(s@[i as int]) || s@[i as int] == '_'));
            return false;
        }
        i = i + 1;
    }
    true
}

/// Splits a part name of the form `MANU_TYPE_Name` into manufacturer and
/// weapon type, if it is one.
pub fn parse_part_name(s: &str) -> (r: Option<(String, String)>)
    ensures
        spec_part_name(s@) == (match r {
            Some((m, w)) => Some((m@, w@)),
            None => None,
        }),
{
    let owned = chars_of(s);
    let chars = owned.as_slice();
    let total = chars.len();
    let a = match find_char(chars, '_', 0) {
        Some(a) => a,
        None => {
            return None;
        },
    };
    let b = match find_char(chars, '_', a + 1) {
        Some(b) => b,
        None => {
            return None;
        },
    };
    let manufacturer = s.substring_char(0, a);
    let weapon = s.substring_char(a + 1, b);
    let rest = slice_subrange(chars, b + 1, total);
    if known_manufacturer(manufacturer) && known_weapon_code(weapon) && part_suffix(rest) {
        Some((manufacturer.to_owned(), weapon.to_owned()))
    } else {
        None
    }
}

/// The serial index that follows the part name at position `i`, searched
/// from position `j` on: the first string within the window that is a
/// numeral below `INDEX_LIMIT`, unless another part name comes first.
pub open spec fn spec_index_after(strings: Seq<Seq<char>>, i: int, j: int) -> Option<u32>
    decreases strings.len() - j,
{
    if j < 0 || j >= strings.len() || j >= i + INDEX_WINDOW {
        None
    } else if spec_part_name(strings[j]) is Some {
        None
    } else if spec_parse_u32(strings[j]) is Some && spec_parse_u32(strings[j])->0 < INDEX_LIMIT {
        spec_parse_u32(strings[j])
    } else {
        spec_index_after(strings, i, j + 1)
    }
}

/// The part at position `i` with its index, if the string there is a part
/// name that an index follows.
pub open spec fn spec_part_at(strings: Seq<Seq<char>>, i: int) -> Option<PartIndexView> {
    match spec_part_name(strings[i]) {
        None => None,
        Some((manufacturer, weapon_type)) => match spec_index_after(strings, i, i + 1) {
            None => None,
            Some(serial_index) => Some(
                PartIndexView { part_name: strings[i], serial_index, manufacturer, weapon_type },
            ),
        },
    }
}

/// The parts with indices among the first `n` strings, in order.
pub open spec fn spec_part_indices(strings: Seq<Seq<char>>, n: int) -> Seq<PartIndexView>
    decreases n,
{
    if n <= 0 {
        Seq::empty()
    } else {
        match spec_part_at(strings, n - 1) {
            Some(p) => spec_part_indices(strings, n - 1).push(p),
            None => spec_part_indices(strings, n - 1),
        }
    }
}

/// The serial index that follows the part name at position `i`.
fn index_after(strings: &[String], i: usize) -> (r: Option<u32>)
    requires
        i < strings.len(),
    ensures
        r == spec_index_after(crate::table::view_each(strings@), i as int, i + 1),
{
    let ghost all = crate::table::view_each(strings@);
    let end: usize = if strings.len() - i > INDEX_WINDOW {
        i + INDEX_WINDOW
    } else {
        strings.len()
    };
    let mut j: usize = i + 1;
    while j < end
        invariant
            i < j <= end || (j == i + 1 && end == i + 1),
            end <= strings.len(),
            end == (if strings.len() - i > INDEX_WINDOW {
                i + INDEX_WINDOW
            } else {
                strings.len() as int
            }),
            all == crate::table::view_each(strings@),
            spec_index_after(all, i as int, i + 1) == spec_index_after(all, i as int, j as int),
        decreases end - j,
    {
        let candidate = strings[j].as_str();
        if parse_part_name(candidate).is_some() {
            return None;
        }
        match parse_u32(candidate) {
            Some(index) => {
                if index < INDEX_LIMIT {
                    return Some(index);
                }
            },
            None => {},
        }
        j = j + 1;
    }
    None
}

/// Finds the parts with serial indices among the strings of a catalog. The
/// last string is never taken for a part name, since nothing follows it.
pub fn collect_part_indices(strings: &[String]) -> (r: Vec<PartIndex>)
    ensures
        crate::table::view_each(r@) == spec_part_indices(
            crate::table::view_each(strings@),
            strings@.len() - 1,
        ),
{
    let ghost all = crate::table::view_each(strings@);
    let mut parts: Vec<PartIndex> = Vec::new();
    assert(crate::table::view_each(parts@) =~= Seq::<PartIndexView>::empty());
    if strings.len() == 0 {
        return parts;
    }
    let last: usize = strings.len() - 1;
    let mut i: usize = 0;
    while i < last
        invariant
            i <= last,
            last == strings.len() - 1,
            all == crate::table::view_each(strings@),
            crate::table::view_each(parts@) == spec_part_indices(all, i as int),
        decreases last - i,
    {
        match parse_part_name(strings[i].as_str()) {
            Some((manufacturer, weapon_type)) => {
                match index_after(strings, i) {
                    Some(serial_index) => {
                        let part = PartIndex {
                            part_name: strings[i].clone(),
                            serial_index,
                            manufacturer,
                            weapon_type,
                        };
                        proof {
                            crate::table::lemma_view_each_push(parts@, part);
                        }
                        parts.push(part);
                    },
                    None => {},
                }
            },
            None => {},
        }
        i = i + 1;
    }
    parts
}

/// Whether `x` comes before `y` in the order of parts: by manufacturer,
/// then by weapon type, then by serial index.
pub open spec fn part_lt(x: PartIndexView, y: PartIndexView) -> bool {
    text_lt(x.manufacturer, y.manufacturer) || (x.manufacturer == y.manufacturer && (text_lt(
        x.weapon_type,
        y.weapon_type,
    ) || (x.weapon_type == y.weapon_type && x.serial_index < y.serial_index)))
}

impl Ranked for PartIndex {
    open spec fn rank_lt(a: PartIndexView, b: PartIndexView) -> bool {
        part_lt(a, b)
    }

    proof fn lemma_rank_strict(a: PartIndexView, b: PartIndexView, c: PartIndexView) {
        lemma_text_lt_irreflexive(a.manufacturer, 0);
        lemma_text_lt_irreflexive(a.weapon_type, 0);
        if part_lt(a, b) && part_lt(b, c) {
            if text_lt(a.manufacturer, b.manufacturer) && text_lt(b.manufacturer, c.manufacturer) {
                lemma_text_lt_transitive(a.manufacturer, b.manufacturer, c.manufacturer, 0);
            }
            if text_lt(a.weapon_type, b.weapon_type) && text_lt(b.weapon_type, c.weapon_type) {
                lemma_text_lt_transitive(a.weapon_type, b.weapon_type, c.weapon_type, 0);
            }
        }
    }

    fn less(&self, other: &Self) -> (r: bool) {
        if text_less(self.manufacturer.as_str(), other.manufacturer.as_str()) {
            return true;
        }
        if !crate::text::str_eq(self.manufacturer.as_str(), other.manufacturer.as_str()) {
            return false;
        }
        if text_less(self.weapon_type.as_str(), other.weapon_type.as_str()) {
            return true;
        }
        if !crate::text::str_eq(self.weapon_type.as_str(), other.weapon_type.as_str()) {
            return false;
        }
        self.serial_index < other.serial_index
    }
}

/// Sorts parts by manufacturer, weapon type and serial index. Parts of
/// equal rank keep their order.
pub fn sort_part_indices(parts: Vec<PartIndex>) -> (r: Vec<PartIndex>)
    ensures
        crate::table::view_each(r@) == spec_sorted::<PartIndex>(crate::table::view_each(parts@)),
{
    stable_sort(parts)
}

} // verus!
