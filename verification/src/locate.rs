//! Locating the binary section of a catalog by its byte signature.

use vstd::prelude::*;

verus! {

/// Whether the signature of a record boundary stands at byte `at`: two
/// bytes that are not zero, then two zero bytes.
pub open spec fn is_section_start(data: Seq<u8>, at: int) -> bool {
    &&& 0 <= at
    &&& at + 4 <= data.len()
    &&& data[at] != 0
    &&& data[at + 1] != 0
    &&& data[at + 2] == 0
    &&& data[at + 3] == 0
}

/// Scans forward from byte `from`, usually the end of the string table, for
/// the first place where the signature of a record boundary stands. This is
/// a best-effort locator: it yields the first candidate, and nothing when
/// the signature stands nowhere from `from` on.
pub fn find_binary_section(data: &[u8], from: usize) -> (r: Option<usize>)
    ensures
        match r {
            Some(at) => from <= at && is_section_start(data@, at as int) && forall|j: int|
                from <= j < at ==> !is_section_start(data@, j),
            None => forall|j: int| from <= j ==> !is_section_start(data@, j),
        },
{
    if data.len() < 4 {
        return None;
    }
    let last: usize = data.len() - 4;
    let mut i: usize = from;
    while i <= last
        invariant
            from <= i,
            last == data.len() - 4,
            forall|j: int| from <= j < i ==> !is_section_start(data@, j),
        decreases last + 1 - i,
    {
        if data[i] != 0 && data[i + 1] != 0 && data[i + 2] == 0 && data[i + 3] == 0 {
            return Some(i);
        }
        if i == last {
            return None;
        }
        i = i + 1;
    }
    None
}

/// Whether a section divider stands at byte `at`: the tag terminator
/// followed by five zero bytes.
pub open spec fn is_divider(data: Seq<u8>, at: int) -> bool {
    &&& 0 <= at
    &&& at + 6 <= data.len()
    &&& data[at] == 0x7a
    &&& data[at + 1] == 0
    &&& data[at + 2] == 0
    &&& data[at + 3] == 0
    &&& data[at + 4] == 0
    &&& data[at + 5] == 0
}

/// The positions below `n` that satisfy `wanted`, in ascending order.
pub open spec fn positions_where(wanted: spec_fn(int) -> bool, n: int) -> Seq<int>
    decreases n,
{
    if n <= 0 {
        Seq::empty()
    } else if wanted(n - 1) {
        positions_where(wanted, n - 1).push(n - 1)
    } else {
        positions_where(wanted, n - 1)
    }
}

/// Positions as plain values.
pub open spec fn positions_view(positions: Seq<usize>) -> Seq<int> {
    Seq::new(positions.len(), |i: int| positions[i] as int)
}

/// Every place behind byte `after` where the signature of a record
/// boundary stands, in ascending order.
pub fn find_section_markers(data: &[u8], after: usize) -> (r: Vec<usize>)
    ensures
        positions_view(r@) == positions_where(
            |at: int| at > after && is_section_start(data@, at),
            data@.len() as int,
        ),
{
    let ghost wanted = |at: int| at > after && is_section_start(data@, at);
    let mut found: Vec<usize> = Vec::new();
    let mut i: usize = 0;
    assert(positions_view(found@) =~= Seq::<int>::empty());
    while i < data.len()
        invariant
            i <= data.len(),
            wanted == (|at: int| at > after && is_section_start(data@, at)),
            positions_view(found@) == positions_where(wanted, i as int),
        decreases data.len() - i,
    {
        if i > after && data.len() - i >= 4 && data[i] != 0 && data[i + 1] != 0 && data[i + 2] == 0
            && data[i + 3] == 0 {
            let ghost before = positions_view(found@);
            found.push(i);
            assert(positions_view(found@) =~= before.push(i as int));
        }
        i = i + 1;
    }
    found
}

/// Every place where a section divider stands, in ascending order.
pub fn find_dividers(data: &[u8]) -> (r: Vec<usize>)
    ensures
        positions_view(r@) == positions_where(|at: int| is_divider(data@, at), data@.len() as int),
{
    let ghost wanted = |at: int| is_divider(data@, at);
    let mut found: Vec<usize> = Vec::new();
    let mut i: usize = 0;
    assert(positions_view(found@) =~= Seq::<int>::empty());
    while i < data.len()
        invariant
            i <= data.len(),
            wanted == (|at: int| is_divider(data@, at)),
            positions_view(found@) == positions_where(wanted, i as int),
        decreases data.len() - i,
    {
        if data.len() - i >= 6 && data[i] == 0x7a && data[i + 1] == 0 && data[i + 2] == 0 && data[i
            + 3] == 0 && data[i + 4] == 0 && data[i + 5] == 0 {
            let ghost before = positions_view(found@);
            found.push(i);
            assert(positions_view(found@) =~= before.push(i as int));
        }
        i = i + 1;
    }
    found
}

/// The fixed preamble of a catalog: what it is, and where its sections
/// start. Offsets count bytes from the start of the file.
#[derive(Debug, Clone)]
pub struct Header {
    /// The name of the catalog's type.
    pub type_label: String,
    pub format_code: String,
    pub field_count: usize,
    pub type_offset: usize,
    pub format_offset: usize,
    pub entry_section_offset: usize,
    pub string_table_offset: usize,
    pub control_section_offset: Option<usize>,
    pub category_names_offset: Option<usize>,
    pub binary_offset: usize,
    pub string_count: Option<u32>,
}

/// Whether the offset that a header gives for the binary section can be
/// used as it is: it lies behind the string table and inside the data.
pub open spec fn is_usable_offset(data: Seq<u8>, offset: int, string_table_end: int) -> bool {
    string_table_end <= offset < data.len()
}

/// Settles where the binary section starts: at the offset from the header
/// where that is usable, else at the first record boundary found by
/// scanning forward from the end of the string table, else nowhere.
pub fn resolve_binary_offset(data: &[u8], header_offset: usize, string_table_end: usize) -> (r:
    Option<usize>)
    ensures
        is_usable_offset(data@, header_offset as int, string_table_end as int) ==> r == Some(
            header_offset,
        ),
        !is_usable_offset(data@, header_offset as int, string_table_end as int) ==> match r {
            Some(at) => string_table_end <= at && is_section_start(data@, at as int)
                && forall|j: int| string_table_end <= j < at ==> !is_section_start(data@, j),
            None => forall|j: int| string_table_end <= j ==> !is_section_start(data@, j),
        },
{
    if string_table_end <= header_offset && header_offset < data.len() {
        Some(header_offset)
    } else {
        find_binary_section(data, string_table_end)
    }
}

} // verus!
