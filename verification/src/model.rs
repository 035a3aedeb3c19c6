//! The decoded catalog: documents, records, tags, entries and the values
//! they carry, each with the plain mathematical value that contracts speak
//! of.

use crate::fields::FieldMap;
use crate::table::view_each;
use vstd::arithmetic::power2::pow2;
use vstd::prelude::*;

verus! {

/// Largest element count that a fixed-width array may announce. A larger
/// count means that the decoder has lost its place in the stream.
pub const MAX_ARRAY_COUNT: u32 = 100000;

/// Largest string index that counts as a dependency.
pub const MAX_DEPENDENCY_INDEX: u32 = 1024;

/// Largest number of dependencies that is decoded.
pub const MAX_DEPENDENCIES: usize = 1024;

/// Largest number of items in a string list.
pub const MAX_LIST_ITEMS: usize = 4095;

/// Largest number of records in a document: document assembly stops once
/// it holds this many, and what follows in the stream is not decoded.
pub const MAX_RECORDS: usize = 100;

/// Number of key/value pairs of a serial-index object.
pub const SERIAL_INDEX_FIELDS: usize = 4;

/// Array of unsigned integers that all occupy the same number of bits.
#[derive(Debug, Clone)]
pub struct FixedWidthArray {
    pub count: u32,
    pub width: u8,
    pub values: Vec<u32>,
}

/// A fixed-width array as a plain value.
pub ghost struct FixedWidthArrayView {
    pub count: u32,
    pub width: u8,
    pub values: Seq<u32>,
}

impl View for FixedWidthArray {
    type V = FixedWidthArrayView;

    open spec fn view(&self) -> FixedWidthArrayView {
        FixedWidthArrayView { count: self.count, width: self.width, values: self.values@ }
    }
}

impl FixedWidthArrayView {
    /// The array holds as many values as it announces, of a width between 1
    /// and 32 bits, and every value fits in that width.
    pub open spec fn wf(self) -> bool {
        &&& self.values.len() == self.count
        &&& self.count <= MAX_ARRAY_COUNT
        &&& 1 <= self.width <= 32
        &&& forall|i: int| 0 <= i < self.values.len() ==> (#[trigger] self.values[i]) < pow2(
            self.width as nat,
        )
    }
}

/// One element of a record's tag section.
#[derive(Debug, Clone)]
pub enum Tag {
    /// A small index resolved through the first remap array.
    Pair { value: u32 },
    /// A 32-bit unsigned value.
    U32 { value: u32 },
    /// A 32-bit value that also stands for an IEEE-754 single; `u32_val`
    /// holds its bits.
    U32F32 { u32_val: u32 },
    /// A list of strings.
    List { items: Vec<String> },
    /// A two-bit subtype code.
    Variant { subtype: u8 },
}

/// A tag as a plain value.
pub ghost enum TagView {
    Pair { value: u32 },
    U32 { value: u32 },
    U32F32 { u32_val: u32 },
    List { items: Seq<Seq<char>> },
    Variant { subtype: u8 },
}

impl View for Tag {
    type V = TagView;

    open spec fn view(&self) -> TagView {
        match *self {
            Tag::Pair { value } => TagView::Pair { value },
            Tag::U32 { value } => TagView::U32 { value },
            Tag::U32F32 { u32_val } => TagView::U32F32 { u32_val },
            Tag::List { items } => TagView::List { items: view_each(items@) },
            Tag::Variant { subtype } => TagView::Variant { subtype },
        }
    }
}

/// The value of a named entry of a record.
#[derive(Debug, Clone)]
pub enum EntryValue {
    /// The entry is a flag: its presence is its value.
    Present,
    /// The entry carries a string.
    String(String),
    /// The entry refers to another string by name.
    Ref(String),
}

/// An entry value as a plain value.
pub ghost enum EntryValueView {
    Present,
    String(Seq<char>),
    Ref(Seq<char>),
}

impl View for EntryValue {
    type V = EntryValueView;

    open spec fn view(&self) -> EntryValueView {
        match *self {
            EntryValue::Present => EntryValueView::Present,
            EntryValue::String(s) => EntryValueView::String(s@),
            EntryValue::Ref(s) => EntryValueView::Ref(s@),
        }
    }
}

/// The value of a field of a dependency entry.
#[derive(Debug, Clone)]
pub enum FieldValue {
    /// A scalar field.
    String(String),
    /// A nested object; only `serialindex` fields have one.
    Object(FieldMap<String>),
}

/// A field value as a plain value.
pub ghost enum FieldValueView {
    String(Seq<char>),
    Object(Seq<(Seq<char>, Seq<char>)>),
}

impl View for FieldValue {
    type V = FieldValueView;

    open spec fn view(&self) -> FieldValueView {
        match *self {
            FieldValue::String(s) => FieldValueView::String(s@),
            FieldValue::Object(m) => FieldValueView::Object(m@),
        }
    }
}

/// An entry that a record holds for one of the document's dependency
/// tables.
#[derive(Debug, Clone)]
pub struct DepEntry {
    pub dep_table_name: String,
    pub dep_table_id: usize,
    pub name: String,
    pub fields: FieldMap<FieldValue>,
}

/// A dependency entry as a plain value.
pub ghost struct DepEntryView {
    pub dep_table_name: Seq<char>,
    pub dep_table_id: usize,
    pub name: Seq<char>,
    pub fields: Seq<(Seq<char>, FieldValueView)>,
}

impl View for DepEntry {
    type V = DepEntryView;

    open spec fn view(&self) -> DepEntryView {
        DepEntryView {
            dep_table_name: self.dep_table_name@,
            dep_table_id: self.dep_table_id,
            name: self.name@,
            fields: self.fields@,
        }
    }
}

/// One record of a document.
#[derive(Debug, Clone)]
pub struct Record {
    pub tags: Vec<Tag>,
    pub entries: FieldMap<EntryValue>,
    pub dep_entries: Vec<DepEntry>,
}

/// A record as a plain value.
pub ghost struct RecordView {
    pub tags: Seq<TagView>,
    pub entries: Seq<(Seq<char>, EntryValueView)>,
    pub dep_entries: Seq<DepEntryView>,
}

impl View for Record {
    type V = RecordView;

    open spec fn view(&self) -> RecordView {
        RecordView {
            tags: view_each(self.tags@),
            entries: self.entries@,
            dep_entries: view_each(self.dep_entries@),
        }
    }
}

/// A decoded catalog.
#[derive(Debug, Clone)]
pub struct Document {
    pub table_id: String,
    pub deps: Vec<String>,
    pub remap_a: FixedWidthArray,
    pub remap_b: FixedWidthArray,
    pub records: Vec<Record>,
}

/// A document as a plain value.
pub ghost struct DocumentView {
    pub table_id: Seq<char>,
    pub deps: Seq<Seq<char>>,
    pub remap_a: FixedWidthArrayView,
    pub remap_b: FixedWidthArrayView,
    pub records: Seq<RecordView>,
}

impl View for Document {
    type V = DocumentView;

    open spec fn view(&self) -> DocumentView {
        DocumentView {
            table_id: self.table_id@,
            deps: view_each(self.deps@),
            remap_a: self.remap_a@,
            remap_b: self.remap_b@,
            records: view_each(self.records@),
        }
    }
}

/// A serial-index assignment found in a document.
#[derive(Debug, Clone)]
pub struct SerialIndexEntry {
    pub item_type: String,
    pub part_name: String,
    pub index: u32,
    pub scope: String,
    pub category: String,
    pub slot: Option<String>,
}

/// A serial-index assignment as a plain value.
pub ghost struct SerialIndexEntryView {
    pub item_type: Seq<char>,
    pub part_name: Seq<char>,
    pub index: u32,
    pub scope: Seq<char>,
    pub category: Seq<char>,
    pub slot: Option<Seq<char>>,
}

impl View for SerialIndexEntry {
    type V = SerialIndexEntryView;

    open spec fn view(&self) -> SerialIndexEntryView {
        SerialIndexEntryView {
            item_type: self.item_type@,
            part_name: self.part_name@,
            index: self.index,
            scope: self.scope@,
            category: self.category@,
            slot: match self.slot {
                Some(s) => Some(s@),
                None => None,
            },
        }
    }
}

} // verus!
