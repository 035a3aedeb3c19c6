//! Document assembly and the extraction of serial-index assignments.

use crate::bits::can_read;
use crate::decode::{parse_fixed_width_array24, spec_fixed_width_array24};
use crate::fields::assoc_get;
use crate::grammar::{parse_record, spec_record};
use crate::model::{
    DepEntry,
    DepEntryView,
    Document,
    DocumentView,
    FieldValue,
    FieldValueView,
    FixedWidthArrayView,
    Record,
    RecordView,
    SerialIndexEntry,
    SerialIndexEntryView,
    MAX_RECORDS,
};
use crate::reader::BitReader;
use crate::table::{lemma_view_each_push, view_each, StringTable, TableView};
use crate::text::{parse_u32, spec_parse_u32};
use vstd::prelude::*;
use vstd::slice::slice_subrange;

verus! {

/// Decodes the records of a document, of which `acc` have been decoded and
/// the next of which starts at `pos`. Decoding ends once the document holds
/// `MAX_RECORDS` records, when fewer than 32 bits remain, or when a record
/// fails to decode; what has been decoded by then is kept. The ceiling cuts
/// the document short, it is no failure.
pub open spec fn spec_records(
    data: Seq<u8>,
    pos: int,
    table: TableView,
    deps: Seq<Seq<char>>,
    remap: FixedWidthArrayView,
    acc: Seq<RecordView>,
) -> Seq<RecordView>
    decreases MAX_RECORDS - acc.len(),
{
    if acc.len() >= MAX_RECORDS {
        acc
    } else if !can_read(data, pos, 32) {
        acc
    } else {
        match spec_record(data, pos, table, deps, remap) {
            (None, _) => acc,
            (Some(record), end) => spec_records(data, end, table, deps, remap, acc.push(record)),
        }
    }
}

/// A document never holds more records than the ceiling allows, and the
/// records that were decoded before a call stay in front, in order.
pub proof fn lemma_records_within_ceiling(
    data: Seq<u8>,
    pos: int,
    table: TableView,
    deps: Seq<Seq<char>>,
    remap: FixedWidthArrayView,
    acc: Seq<RecordView>,
)
    requires
        acc.len() <= MAX_RECORDS,
    ensures
        acc.len() <= spec_records(data, pos, table, deps, remap, acc).len() <= MAX_RECORDS,
        spec_records(data, pos, table, deps, remap, acc).subrange(0, acc.len() as int) == acc,
    decreases MAX_RECORDS - acc.len(),
{
    let all = spec_records(data, pos, table, deps, remap, acc);
    if acc.len() < MAX_RECORDS && can_read(data, pos, 32) {
        match spec_record(data, pos, table, deps, remap) {
            (None, _) => {},
            (Some(record), end) => {
                lemma_records_within_ceiling(data, end, table, deps, remap, acc.push(record));
                assert(all.subrange(0, acc.len() as int) =~= all.subrange(
                    0,
                    (acc.len() + 1) as int,
                ).subrange(0, acc.len() as int));
                assert(acc.push(record).subrange(0, acc.len() as int) =~= acc);
            },
        }
    }
    assert(acc.subrange(0, acc.len() as int) =~= acc);
}

/// Decodes the binary section of a catalog, which starts at byte `offset` of
/// `data`: the two remap arrays, then the records. There is no document
/// when the offset lies outside the data or a remap array fails to decode.
pub open spec fn spec_document(
    data: Seq<u8>,
    table: TableView,
    offset: int,
    table_id: Seq<char>,
    deps: Seq<Seq<char>>,
) -> Option<DocumentView> {
    if offset < 0 || offset > data.len() {
        None
    } else {
        let section = data.subrange(offset, data.len() as int);
        match spec_fixed_width_array24(section, 0) {
            (None, _) => None,
            (Some(remap_a), end) => match spec_fixed_width_array24(section, end) {
                (None, _) => None,
                (Some(remap_b), end2) => Some(
                    DocumentView {
                        table_id,
                        deps,
                        remap_a,
                        remap_b,
                        records: spec_records(section, end2, table, deps, remap_a, Seq::empty()),
                    },
                ),
            },
        }
    }
}

/// Decodes the binary section of a catalog whose header named the table
/// `table_id` and the dependency tables `deps`.
pub fn assemble_document(
    data: &[u8],
    strings: &StringTable,
    binary_offset: usize,
    table_id: &str,
    deps: Vec<String>,
) -> (r: Option<Document>)
    ensures
        spec_document(data@, strings@, binary_offset as int, table_id@, view_each(deps@)) == (
            match r {
                Some(doc) => Some(doc@),
                None => None,
            }
        ),
        r is Some ==> r->0@.remap_a.wf() && r->0@.remap_b.wf(),
        r is Some ==> r->0@.records.len() <= MAX_RECORDS,
{
    if binary_offset > data.len() {
        return None;
    }
    let section = slice_subrange(data, binary_offset, data.len());
    let mut reader = BitReader::new(section);
    let remap_a = match parse_fixed_width_array24(&mut reader) {
        Some(a) => a,
        None => {
            return None;
        },
    };
    let remap_b = match parse_fixed_width_array24(&mut reader) {
        Some(b) => b,
        None => {
            return None;
        },
    };
    let ghost first = reader.pos();
    let mut records: Vec<Record> = Vec::new();
    assert(view_each(records@) =~= Seq::<RecordView>::empty());
    let mut open = true;
    while open && records.len() < MAX_RECORDS && reader.has_bits(32)
        invariant
            reader.data() == section@,
            records@.len() <= MAX_RECORDS,
            open ==> spec_records(
                section@,
                first,
                strings@,
                view_each(deps@),
                remap_a@,
                Seq::empty(),
            ) == spec_records(
                section@,
                reader.pos(),
                strings@,
                view_each(deps@),
                remap_a@,
                view_each(records@),
            ),
            !open ==> spec_records(
                section@,
                first,
                strings@,
                view_each(deps@),
                remap_a@,
                Seq::empty(),
            ) == view_each(records@),
        decreases MAX_RECORDS - records@.len() + (if open { 1int } else { 0int }),
    {
        proof {
            use_type_invariant(&reader);
            reader.lemma_cursor_in_bounds();
        }
        match parse_record(&mut reader, strings, deps.as_slice(), &remap_a) {
            Some(record) => {
                proof {
                    lemma_view_each_push(records@, record);
                }
                records.push(record);
            },
            None => {
                open = false;
            },
        }
    }
    proof {
        use_type_invariant(&reader);
        reader.lemma_cursor_in_bounds();
    }
    Some(Document { table_id: table_id.to_owned(), deps, remap_a, remap_b, records })
}

/// Decodes the binary section of an inventory catalog: a document for the
/// table `inv`, without dependency tables.
pub fn parse_document(data: &[u8], strings: &StringTable, binary_offset: usize) -> (r: Option<
    Document,
>)
    ensures
        spec_document(data@, strings@, binary_offset as int, "inv"@, Seq::empty()) == (
            match r {
                Some(doc) => Some(doc@),
                None => None,
            }
        ),
        r is Some ==> r->0@.remap_a.wf() && r->0@.remap_b.wf(),
        r is Some ==> r->0@.records.len() <= MAX_RECORDS,
{
    let deps: Vec<String> = Vec::new();
    assert(view_each(deps@) =~= Seq::<Seq<char>>::empty());
    assemble_document(data, strings, binary_offset, "inv", deps)
}

/// The item type of a record: the key of its first entry, or `Unknown` for
/// a record without entries.
pub open spec fn spec_item_type(record: RecordView) -> Seq<char> {
    if record.entries.len() > 0 {
        record.entries[0].0
    } else {
        "Unknown"@
    }
}

/// The string stored under `key` in a serial-index object, or `Unknown`.
pub open spec fn spec_or_unknown(object: Seq<(Seq<char>, Seq<char>)>, key: Seq<char>) -> Seq<
    char,
> {
    match assoc_get(object, key) {
        Some(s) => s,
        None => "Unknown"@,
    }
}

/// The serial-index assignment that a dependency entry carries: it has one
/// exactly when its field `serialindex` is an object whose `index` is an
/// unsigned decimal numeral.
pub open spec fn spec_serial_entry(item_type: Seq<char>, dep: DepEntryView) -> Option<
    SerialIndexEntryView,
> {
    match assoc_get(dep.fields, "serialindex"@) {
        Some(FieldValueView::Object(object)) => match assoc_get(object, "index"@) {
            Some(text) => match spec_parse_u32(text) {
                Some(index) => Some(
                    SerialIndexEntryView {
                        item_type,
                        part_name: dep.name,
                        index,
                        scope: spec_or_unknown(object, "_scope"@),
                        category: spec_or_unknown(object, "_category"@),
                        slot: Some(dep.dep_table_name),
                    },
                ),
                None => None,
            },
            None => None,
        },
        _ => None,
    }
}

/// The assignments carried by the dependency entries `deps` of a record of
/// type `item_type`, in order.
pub open spec fn spec_dep_serials(item_type: Seq<char>, deps: Seq<DepEntryView>) -> Seq<
    SerialIndexEntryView,
>
    decreases deps.len(),
{
    if deps.len() == 0 {
        Seq::empty()
    } else {
        match spec_serial_entry(item_type, deps.last()) {
            Some(e) => spec_dep_serials(item_type, deps.drop_last()).push(e),
            None => spec_dep_serials(item_type, deps.drop_last()),
        }
    }
}

/// The assignments carried by `records`, record by record.
pub open spec fn spec_serial_indices(records: Seq<RecordView>) -> Seq<SerialIndexEntryView>
    decreases records.len(),
{
    if records.len() == 0 {
        Seq::empty()
    } else {
        spec_serial_indices(records.drop_last()) + spec_dep_serials(
            spec_item_type(records.last()),
            records.last().dep_entries,
        )
    }
}

/// The string stored under `key`, or `Unknown`.
fn get_or_unknown(object: &crate::fields::FieldMap<String>, key: &str) -> (r: String)
    ensures
        r@ == spec_or_unknown(object@, key@),
{
    match object.get(key) {
        Some(s) => s.clone(),
        None => "Unknown".to_owned(),
    }
}

/// The serial-index assignment of one dependency entry, if it carries one.
fn serial_entry(item_type: &str, dep: &DepEntry) -> (r: Option<SerialIndexEntry>)
    ensures
        spec_serial_entry(item_type@, dep@) == (match r {
            Some(e) => Some(e@),
            None => None,
        }),
{
    match dep.fields.get("serialindex") {
        Some(FieldValue::Object(object)) => match object.get("index") {
            Some(text) => match parse_u32(text.as_str()) {
                Some(index) => Some(
                    SerialIndexEntry {
                        item_type: item_type.to_owned(),
                        part_name: dep.name.clone(),
                        index,
                        scope: get_or_unknown(object, "_scope"),
                        category: get_or_unknown(object, "_category"),
                        slot: Some(dep.dep_table_name.clone()),
                    },
                ),
                None => None,
            },
            None => None,
        },
        _ => None,
    }
}

/// Collects the serial-index assignments of a document: one for every
/// dependency entry whose `serialindex` object has a numeric `index`, in
/// document order.
pub fn extract_serial_indices(doc: &Document) -> (r: Vec<SerialIndexEntry>)
    ensures
        view_each(r@) == spec_serial_indices(doc@.records),
{
    let mut out: Vec<SerialIndexEntry> = Vec::new();
    assert(view_each(out@) =~= Seq::<SerialIndexEntryView>::empty());
    let mut i: usize = 0;
    while i < doc.records.len()
        invariant
            i <= doc.records.len(),
            view_each(out@) == spec_serial_indices(doc@.records.subrange(0, i as int)),
        decreases doc.records.len() - i,
    {
        let record = &doc.records[i];
        let item_type: String = match record.entries.first_key() {
            Some(k) => k.to_owned(),
            None => "Unknown".to_owned(),
        };
        let ghost before = view_each(out@);
        let ghost deps = record@.dep_entries;
        let mut j: usize = 0;
        assert(deps.subrange(0, 0) =~= Seq::<DepEntryView>::empty());
        while j < record.dep_entries.len()
            invariant
                j <= record.dep_entries.len(),
                deps == view_each(record.dep_entries@),
                item_type@ == spec_item_type(record@),
                view_each(out@) == before + spec_dep_serials(
                    item_type@,
                    deps.subrange(0, j as int),
                ),
            decreases record.dep_entries.len() - j,
        {
            let ghost prefix = deps.subrange(0, j + 1);
            assert(prefix.drop_last() =~= deps.subrange(0, j as int));
            assert(prefix.last() == record.dep_entries@[j as int]@);
            match serial_entry(item_type.as_str(), &record.dep_entries[j]) {
                Some(e) => {
                    proof {
                        lemma_view_each_push(out@, e);
                        assert((before + spec_dep_serials(
                            item_type@,
                            deps.subrange(0, j as int),
                        )).push(e@) =~= before + spec_dep_serials(item_type@, prefix));
                    }
                    out.push(e);
                },
                None => {},
            }
            j = j + 1;
        }
        proof {
            let records = doc@.records.subrange(0, i + 1);
            assert(records.drop_last() =~= doc@.records.subrange(0, i as int));
            assert(records.last() == record@);
            assert(deps.subrange(0, j as int) =~= deps);
        }
        i = i + 1;
    }
    assert(doc@.records.subrange(0, i as int) =~= doc@.records);
    out
}

} // verus!
