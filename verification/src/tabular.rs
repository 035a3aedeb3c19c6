//! Rendering a table of named records as tab-separated values.

use crate::fields::{assoc_get, FieldMap};
use crate::order::{spec_sorted, stable_sort};
use crate::table::{lemma_view_each_push, view_each};
use crate::text::{push_signed, signed_decimal, str_eq};
use vstd::prelude::*;
use vstd::string::StringExecFns;

verus! {

/// The value of a field of a table record.
#[derive(Debug, Clone)]
pub enum Value {
    /// A string.
    String(String),
    /// A number with a fraction, as the text it is written as.
    Number(String),
    /// A whole number.
    Integer(i64),
    /// A truth value.
    Boolean(bool),
    /// A reference to another record, by name.
    Reference(String),
    /// A list; each element as the text it is written as.
    Array(Vec<String>),
    /// A nested object.
    Object,
    /// No value.
    Null,
}

/// A value as a plain value.
pub ghost enum ValueView {
    String(Seq<char>),
    Number(Seq<char>),
    Integer(i64),
    Boolean(bool),
    Reference(Seq<char>),
    Array(Seq<Seq<char>>),
    Object,
    Null,
}

impl View for Value {
    type V = ValueView;

    open spec fn view(&self) -> ValueView {
        match *self {
            Value::String(s) => ValueView::String(s@),
            Value::Number(s) => ValueView::Number(s@),
            Value::Integer(i) => ValueView::Integer(i),
            Value::Boolean(b) => ValueView::Boolean(b),
            Value::Reference(s) => ValueView::Reference(s@),
            Value::Array(items) => ValueView::Array(view_each(items@)),
            Value::Object => ValueView::Object,
            Value::Null => ValueView::Null,
        }
    }
}

/// A named record of a table.
#[derive(Debug, Clone)]
pub struct TableRecord {
    pub name: String,
    pub fields: FieldMap<Value>,
}

/// A table record as a plain value.
pub ghost struct TableRecordView {
    pub name: Seq<char>,
    pub fields: Seq<(Seq<char>, ValueView)>,
}

impl View for TableRecord {
    type V = TableRecordView;

    open spec fn view(&self) -> TableRecordView {
        TableRecordView { name: self.name@, fields: self.fields@ }
    }
}

/// A table of named records.
#[derive(Debug, Clone)]
pub struct TableDocument {
    pub records: Vec<TableRecord>,
}

/// Whether `name` is among `names`.
pub open spec fn has_name(names: Seq<Seq<char>>, name: Seq<char>) -> bool {
    exists|i: int| 0 <= i < names.len() && names[i] == name
}

/// `names` with the first `k` keys of `fields` added, each once, in order.
pub open spec fn with_keys(
    names: Seq<Seq<char>>,
    fields: Seq<(Seq<char>, ValueView)>,
    k: int,
) -> Seq<Seq<char>>
    decreases k,
{
    if k <= 0 {
        names
    } else if has_name(with_keys(names, fields, k - 1), fields[k - 1].0) {
        with_keys(names, fields, k - 1)
    } else {
        with_keys(names, fields, k - 1).push(fields[k - 1].0)
    }
}

/// The field names of the first `n` records, each once, in the order in
/// which they first occur.
pub open spec fn spec_field_names(records: Seq<TableRecordView>, n: int) -> Seq<Seq<char>>
    decreases n,
{
    if n <= 0 {
        Seq::empty()
    } else {
        with_keys(
            spec_field_names(records, n - 1),
            records[n - 1].fields,
            records[n - 1].fields.len() as int,
        )
    }
}

/// The first `n` items, separated by commas.
pub open spec fn spec_joined(items: Seq<Seq<char>>, n: int) -> Seq<char>
    decreases n,
{
    if n <= 0 {
        Seq::empty()
    } else if n == 1 {
        items[0]
    } else {
        spec_joined(items, n - 1) + seq![','] + items[n - 1]
    }
}

/// The text of a value in a cell: strings, numbers and references as they
/// are, a truth value as `true` or `false`, a list in brackets with commas,
/// an object as `{...}`, and nothing for no value.
pub open spec fn spec_cell_text(value: ValueView) -> Seq<char> {
    match value {
        ValueView::String(s) => s,
        ValueView::Number(s) => s,
        ValueView::Integer(i) => signed_decimal(i as int),
        ValueView::Boolean(b) => if b {
            "true"@
        } else {
            "false"@
        },
        ValueView::Reference(s) => s,
        ValueView::Array(items) => seq!['['] + spec_joined(items, items.len() as int) + seq![']'],
        ValueView::Object => "{...}"@,
        ValueView::Null => Seq::empty(),
    }
}

/// The header line without its line feed: `name`, then a tab and a field
/// name for each of the first `n` columns.
pub open spec fn spec_header(columns: Seq<Seq<char>>, n: int) -> Seq<char>
    decreases n,
{
    if n <= 0 {
        "name"@
    } else {
        spec_header(columns, n - 1) + seq!['\t'] + columns[n - 1]
    }
}

/// The row of a record without its line feed: the record's name, then a
/// tab and the cell for each of the first `n` columns. The cell of a field
/// that the record lacks is empty.
pub open spec fn spec_row(record: TableRecordView, columns: Seq<Seq<char>>, n: int) -> Seq<char>
    decreases n,
{
    if n <= 0 {
        record.name
    } else {
        spec_row(record, columns, n - 1) + seq!['\t'] + (match assoc_get(
            record.fields,
            columns[n - 1],
        ) {
            Some(v) => spec_cell_text(v),
            None => Seq::empty(),
        })
    }
}

/// The rows of the first `n` records, each with its line feed.
pub open spec fn spec_rows(
    records: Seq<TableRecordView>,
    columns: Seq<Seq<char>>,
    n: int,
) -> Seq<char>
    decreases n,
{
    if n <= 0 {
        Seq::empty()
    } else {
        spec_rows(records, columns, n - 1) + spec_row(
            records[n - 1],
            columns,
            columns.len() as int,
        ) + seq!['\n']
    }
}

/// The columns of a table: its field names in the order of strings.
pub open spec fn spec_columns(records: Seq<TableRecordView>) -> Seq<Seq<char>> {
    spec_sorted::<String>(spec_field_names(records, records.len() as int))
}

/// A table as tab-separated values: a header line with every field name,
/// then one row per record.
pub open spec fn spec_format_tsv(records: Seq<TableRecordView>) -> Seq<char> {
    spec_header(spec_columns(records), spec_columns(records).len() as int) + seq!['\n']
        + spec_rows(records, spec_columns(records), records.len() as int)
}

/// Whether `name` is among `names`.
fn contains_name(names: &Vec<String>, name: &str) -> (r: bool)
    ensures
        r == has_name(view_each(names@), name@),
{
    let mut i: usize = 0;
    while i < names.len()
        invariant
            i <= names.len(),
            forall|j: int| 0 <= j < i ==> view_each(names@)[j] != name@,
        decreases names.len() - i,
    {
        if str_eq(names[i].as_str(), name) {
            assert(view_each(names@)[i as int] == name@);
            return true;
        }
        i = i + 1;
    }
    false
}

/// The field names of a table, each once, in the order in which they first
/// occur.
fn field_names(doc: &TableDocument) -> (r: Vec<String>)
    ensures
        view_each(r@) == spec_field_names(view_each(doc.records@), doc.records@.len() as int),
{
    let ghost records = view_each(doc.records@);
    let mut names: Vec<String> = Vec::new();
    assert(view_each(names@) =~= Seq::<Seq<char>>::empty());
    let mut i: usize = 0;
    while i < doc.records.len()
        invariant
            i <= doc.records.len(),
            records == view_each(doc.records@),
            view_each(names@) == spec_field_names(records, i as int),
        decreases doc.records.len() - i,
    {
        let record = &doc.records[i];
        let ghost base = view_each(names@);
        let ghost fields = record@.fields;
        assert(records[i as int] == record@);
        let count = record.fields.len();
        let mut k: usize = 0;
        while k < count
            invariant
                k <= count,
                count == fields.len(),
                fields == record.fields@,
                view_each(names@) == with_keys(base, fields, k as int),
            decreases count - k,
        {
            match record.fields.key_at(k) {
                Some(key) => {
                    if !contains_name(&names, key) {
                        let owned = key.to_owned();
                        proof {
                            lemma_view_each_push(names@, owned);
                        }
                        names.push(owned);
                    }
                },
                None => {},
            }
            k = k + 1;
        }
        i = i + 1;
    }
    names
}

/// Appends the text of a value in a cell.
fn push_cell(out: &mut String, value: &Value)
    ensures
        final(out)@ == old(out)@ + spec_cell_text(value@),
{
    proof {
        reveal_strlit("[");
        reveal_strlit("]");
        reveal_strlit(",");
    }
    match value {
        Value::String(s) => {
            out.append(s.as_str());
        },
        Value::Number(s) => {
            out.append(s.as_str());
        },
        Value::Integer(i) => {
            push_signed(out, *i);
        },
        Value::Boolean(b) => {
            if *b {
                out.append("true");
            } else {
                out.append("false");
            }
        },
        Value::Reference(s) => {
            out.append(s.as_str());
        },
        Value::Array(items) => {
            let ghost all = view_each(items@);
            out.append("[");
            let mut i: usize = 0;
            assert(out@ =~= old(out)@ + seq!['['] + spec_joined(all, 0));
            while i < items.len()
                invariant
                    i <= items.len(),
                    all == view_each(items@),
                    out@ == old(out)@ + seq!['['] + spec_joined(all, i as int),
                    ","@ == seq![','],
                decreases items.len() - i,
            {
                if i > 0 {
                    out.append(",");
                }
                out.append(items[i].as_str());
                assert(out@ =~= old(out)@ + seq!['['] + spec_joined(all, i + 1)) by {
                    assert(all[i as int] == items@[i as int]@);
                }
                i = i + 1;
            }
            out.append("]");
            assert(out@ =~= old(out)@ + spec_cell_text(value@));
        },
        Value::Object => {
            out.append("{...}");
        },
        Value::Null => {
            assert(out@ =~= old(out)@ + Seq::<char>::empty());
        },
    }
}

/// Renders a table as tab-separated values: a header line with `name` and
/// every field name in the order of strings, then one row per record with
/// the record's name and its cells.
pub fn format_tsv(doc: &TableDocument) -> (r: String)
    ensures
        r@ == spec_format_tsv(view_each(doc.records@)),
{
    let ghost records = view_each(doc.records@);
    let columns = stable_sort(field_names(doc));
    let ghost cols = view_each(columns@);
    proof {
        reveal_strlit("\t");
        reveal_strlit("\n");
    }
    let mut out = "name".to_owned();
    let mut c: usize = 0;
    while c < columns.len()
        invariant
            c <= columns.len(),
            cols == view_each(columns@),
            "\t"@ == seq!['\t'],
            out@ == spec_header(cols, c as int),
        decreases columns.len() - c,
    {
        out.append("\t");
        out.append(columns[c].as_str());
        assert(cols[c as int] == columns@[c as int]@);
        c = c + 1;
    }
    out.append("\n");
    let ghost head = out@;
    assert(head =~= spec_header(cols, cols.len() as int) + seq!['\n']);
    let mut i: usize = 0;
    assert(out@ =~= head + spec_rows(records, cols, 0));
    while i < doc.records.len()
        invariant
            i <= doc.records.len(),
            records == view_each(doc.records@),
            cols == view_each(columns@),
            "\t"@ == seq!['\t'],
            "\n"@ == seq!['\n'],
            out@ == head + spec_rows(records, cols, i as int),
        decreases doc.records.len() - i,
    {
        let record = &doc.records[i];
        let ghost before = out@;
        assert(records[i as int] == record@);
        out.append(record.name.as_str());
        let mut k: usize = 0;
        assert(out@ =~= before + spec_row(record@, cols, 0));
        while k < columns.len()
            invariant
                k <= columns.len(),
                cols == view_each(columns@),
                "\t"@ == seq!['\t'],
                out@ == before + spec_row(record@, cols, k as int),
            decreases columns.len() - k,
        {
            assert(cols[k as int] == columns@[k as int]@);
            out.append("\t");
            match record.fields.get(columns[k].as_str()) {
                Some(value) => {
                    push_cell(&mut out, value);
                },
                None => {},
            }
            assert(out@ =~= before + spec_row(record@, cols, k + 1));
            k = k + 1;
        }
        out.append("\n");
        assert(out@ =~= head + spec_rows(records, cols, i + 1));
        i = i + 1;
    }
    out
}

} // verus!
