//! The record grammar: tag sections, string lists, entries, dependency
//! entries and their nested fields.
//!
//! The mathematical decoders in this module define the grammar. Each takes
//! the bytes, a bit position and what has been decoded of the construct so
//! far, and yields the decoded value, if there is one, together with the
//! position at which decoding stopped.

use crate::bits::{bit_width, bit_width_spec, bits_value, can_read, lemma_bits_value_bound};
use crate::fields::{assoc_insert, FieldMap};
use crate::model::{
    DepEntry,
    DepEntryView,
    EntryValue,
    EntryValueView,
    FieldValue,
    FieldValueView,
    FixedWidthArray,
    FixedWidthArrayView,
    Record,
    RecordView,
    Tag,
    TagView,
    MAX_LIST_ITEMS,
    SERIAL_INDEX_FIELDS,
};
use crate::reader::BitReader;
use crate::table::{
    lemma_view_each_push,
    read_string,
    spec_read_string,
    view_each,
    StringTable,
    TableView,
};
use crate::text::{is_sentinel, is_sentinel_str};
use vstd::arithmetic::power2::lemma2_to64;
use vstd::prelude::*;

verus! {

/// Tag byte that ends a tag section.
pub const TAG_END: u32 = 0x7a;

/// Tag byte of a value resolved through the first remap array.
pub const TAG_PAIR: u32 = 0x61;

/// Tag byte of a 32-bit unsigned value.
pub const TAG_U32: u32 = 0x62;

/// Tag byte of a 32-bit value that also stands for a float.
pub const TAG_U32F32: u32 = 0x63;

/// First of the three tag bytes that introduce a string list.
pub const TAG_LIST_A: u32 = 0x64;

/// Second of the three tag bytes that introduce a string list.
pub const TAG_LIST_B: u32 = 0x65;

/// Third of the three tag bytes that introduce a string list.
pub const TAG_LIST_C: u32 = 0x66;

/// Tag byte of a two-bit variant code.
pub const TAG_VARIANT: u32 = 0x70;

/// Width in bits of an index into the whole of `table`.
pub open spec fn index_width(table: TableView) -> nat {
    bit_width_spec(table.strings.len())
}

/// Width in bits of an index of a string list: that of an index into the
/// primary table.
pub open spec fn list_width(table: TableView) -> nat {
    bit_width_spec(table.primary)
}

/// Decodes a string list of which `acc` has been decoded and the next index
/// of which is at `pos`. Each index is as wide as an index into the primary
/// table. The list ends with the first index that resolves to a sentinel,
/// or once it holds `MAX_LIST_ITEMS` strings.
pub open spec fn spec_list(data: Seq<u8>, pos: int, table: TableView, acc: Seq<Seq<char>>) -> (
    Option<Seq<Seq<char>>>,
    int,
)
    decreases MAX_LIST_ITEMS - acc.len(),
{
    if acc.len() >= MAX_LIST_ITEMS {
        (Some(acc), pos)
    } else {
        match spec_read_string(data, pos, list_width(table), table.strings) {
            (None, end) => (None, end),
            (Some(s), end) => if is_sentinel(s) {
                (Some(acc), end)
            } else {
                spec_list(data, end, table, acc.push(s))
            },
        }
    }
}

/// Decoding a list never moves backwards and never leaves the buffer.
pub proof fn lemma_list_advances(
    data: Seq<u8>,
    pos: int,
    table: TableView,
    acc: Seq<Seq<char>>,
)
    requires
        0 <= pos <= data.len() * 8,
    ensures
        pos <= spec_list(data, pos, table, acc).1 <= data.len() * 8,
    decreases MAX_LIST_ITEMS - acc.len(),
{
    if acc.len() < MAX_LIST_ITEMS {
        match spec_read_string(data, pos, list_width(table), table.strings) {
            (None, end) => {},
            (Some(s), end) => {
                if !is_sentinel(s) {
                    lemma_list_advances(data, end, table, acc.push(s));
                }
            },
        }
    }
}

/// Reads a list of strings, each given by its index, up to a sentinel.
pub fn parse_list(reader: &mut BitReader, strings: &StringTable) -> (r: Option<Vec<String>>)
    ensures
        final(reader).data() == old(reader).data(),
        final(reader).pos() >= old(reader).pos(),
        spec_list(old(reader).data(), old(reader).pos(), strings@, Seq::empty()) == (
            match r {
                Some(items) => Some(view_each(items@)),
                None => None,
            },
            final(reader).pos(),
        ),
{
    let width = bit_width(strings.primary_len());
    let mut items: Vec<String> = Vec::new();
    assert(view_each(items@) =~= Seq::<Seq<char>>::empty());
    while items.len() < MAX_LIST_ITEMS
        invariant
            width == list_width(strings@),
            reader.data() == old(reader).data(),
            reader.pos() >= old(reader).pos(),
            spec_list(old(reader).data(), old(reader).pos(), strings@, Seq::empty()) == spec_list(
                reader.data(),
                reader.pos(),
                strings@,
                view_each(items@),
            ),
        decreases MAX_LIST_ITEMS - items.len(),
    {
        let s = match read_string(reader, strings, width) {
            Some(s) => s,
            None => {
                return None;
            },
        };
        if is_sentinel_str(s) {
            return Some(items);
        }
        let item = s.to_owned();
        proof {
            lemma_view_each_push(items@, item);
        }
        items.push(item);
    }
    Some(items)
}

/// Whether `code` is one of the tag bytes that carry a value.
pub open spec fn is_tag_code(code: nat) -> bool {
    code == TAG_PAIR || code == TAG_U32 || code == TAG_U32F32 || code == TAG_LIST_A || code
        == TAG_LIST_B || code == TAG_LIST_C || code == TAG_VARIANT
}

/// Decodes the value of a tag whose byte `code` has been read, the value
/// starting at `pos`.
pub open spec fn spec_tag(
    data: Seq<u8>,
    pos: int,
    code: nat,
    table: TableView,
    remap: FixedWidthArrayView,
) -> (Option<TagView>, int) {
    if code == TAG_PAIR {
        if !can_read(data, pos, remap.width as nat) {
            (None, pos)
        } else if bits_value(data, pos, remap.width as nat) < remap.values.len() {
            (
                Some(
                    TagView::Pair {
                        value: remap.values[bits_value(data, pos, remap.width as nat) as int],
                    },
                ),
                pos + remap.width,
            )
        } else {
            (None, pos + remap.width)
        }
    } else if code == TAG_U32 {
        if can_read(data, pos, 32) {
            (Some(TagView::U32 { value: bits_value(data, pos, 32) as u32 }), pos + 32)
        } else {
            (None, pos)
        }
    } else if code == TAG_U32F32 {
        if can_read(data, pos, 32) {
            (Some(TagView::U32F32 { u32_val: bits_value(data, pos, 32) as u32 }), pos + 32)
        } else {
            (None, pos)
        }
    } else if code == TAG_VARIANT {
        if can_read(data, pos, 2) {
            (Some(TagView::Variant { subtype: bits_value(data, pos, 2) as u8 }), pos + 2)
        } else {
            (None, pos)
        }
    } else {
        match spec_list(data, pos, table, Seq::empty()) {
            (Some(items), end) => (Some(TagView::List { items }), end),
            (None, end) => (None, end),
        }
    }
}

/// Decodes a tag section of which `acc` has been decoded and the next tag
/// byte of which is at `pos`. The section ends with the byte `TAG_END`;
/// bytes that are no tag code are passed over.
pub open spec fn spec_tags(
    data: Seq<u8>,
    pos: int,
    table: TableView,
    remap: FixedWidthArrayView,
    acc: Seq<TagView>,
) -> (Option<Seq<TagView>>, int)
    decreases data.len() * 8 - pos,
{
    if !can_read(data, pos, 8) {
        (None, pos)
    } else if bits_value(data, pos, 8) == TAG_END {
        (Some(acc), pos + 8)
    } else if !is_tag_code(bits_value(data, pos, 8)) {
        spec_tags(data, pos + 8, table, remap, acc)
    } else {
        proof {
            lemma_list_advances(data, pos + 8, table, Seq::empty());
        }
        match spec_tag(data, pos + 8, bits_value(data, pos, 8), table, remap) {
            (Some(tag), end) => spec_tags(data, end, table, remap, acc.push(tag)),
            (None, end) => (None, end),
        }
    }
}

/// A tag section that decodes has been read up to and including its
/// terminator: the last eight bits before the final position are `TAG_END`.
pub proof fn lemma_tags_end_with_terminator(
    data: Seq<u8>,
    pos: int,
    table: TableView,
    remap: FixedWidthArrayView,
    acc: Seq<TagView>,
)
    ensures
        spec_tags(data, pos, table, remap, acc).0 is Some ==> {
            let end = spec_tags(data, pos, table, remap, acc).1;
            &&& pos + 8 <= end <= data.len() * 8
            &&& can_read(data, end - 8, 8)
            &&& bits_value(data, end - 8, 8) == TAG_END
        },
    decreases data.len() * 8 - pos,
{
    if can_read(data, pos, 8) && bits_value(data, pos, 8) != TAG_END {
        if !is_tag_code(bits_value(data, pos, 8)) {
            lemma_tags_end_with_terminator(data, pos + 8, table, remap, acc);
        } else {
            lemma_list_advances(data, pos + 8, table, Seq::empty());
            match spec_tag(data, pos + 8, bits_value(data, pos, 8), table, remap) {
                (Some(tag), end) => {
                    lemma_tags_end_with_terminator(data, end, table, remap, acc.push(tag));
                },
                (None, end) => {},
            }
        }
    }
}

/// A tag section in a buffer that holds the terminator nowhere, at no bit
/// offset, does not decode.
pub proof fn lemma_tags_without_terminator_fail(
    data: Seq<u8>,
    pos: int,
    table: TableView,
    remap: FixedWidthArrayView,
)
    requires
        forall|p: int| can_read(data, p, 8) ==> #[trigger] bits_value(data, p, 8) != TAG_END,
    ensures
        spec_tags(data, pos, table, remap, Seq::empty()).0 is None,
{
    lemma_tags_end_with_terminator(data, pos, table, remap, Seq::empty());
    let (r, end) = spec_tags(data, pos, table, remap, Seq::empty());
    if r is Some {
        assert(bits_value(data, end - 8, 8) != TAG_END);
    }
}

/// Reads a tag section up to its terminator.
pub fn parse_tags(reader: &mut BitReader, strings: &StringTable, remap_a: &FixedWidthArray) -> (r:
    Option<Vec<Tag>>)
    ensures
        final(reader).data() == old(reader).data(),
        final(reader).pos() >= old(reader).pos(),
        spec_tags(old(reader).data(), old(reader).pos(), strings@, remap_a@, Seq::empty()) == (
            match r {
                Some(tags) => Some(view_each(tags@)),
                None => None,
            },
            final(reader).pos(),
        ),
{
    let mut tags: Vec<Tag> = Vec::new();
    assert(view_each(tags@) =~= Seq::<TagView>::empty());
    loop
        invariant
            reader.data() == old(reader).data(),
            reader.pos() >= old(reader).pos(),
            spec_tags(old(reader).data(), old(reader).pos(), strings@, remap_a@, Seq::empty())
                == spec_tags(reader.data(), reader.pos(), strings@, remap_a@, view_each(tags@)),
        decreases reader.remaining(),
    {
        let ghost data = reader.data();
        let ghost p = reader.pos();
        let code = match reader.read_bits(8) {
            Some(c) => c,
            None => {
                return None;
            },
        };
        if code == TAG_END {
            return Some(tags);
        }
        let mut tag: Option<Tag> = None;
        if code == TAG_PAIR {
            let index = match reader.read_bits(remap_a.width) {
                Some(i) => i,
                None => {
                    return None;
                },
            };
            if (index as usize) < remap_a.values.len() {
                tag = Some(Tag::Pair { value: remap_a.values[index as usize] });
            } else {
                return None;
            }
        } else if code == TAG_U32 {
            match reader.read_bits(32) {
                Some(value) => {
                    tag = Some(Tag::U32 { value });
                },
                None => {
                    return None;
                },
            }
        } else if code == TAG_U32F32 {
            match reader.read_bits(32) {
                Some(bits) => {
                    tag = Some(Tag::U32F32 { u32_val: bits });
                },
                None => {
                    return None;
                },
            }
        } else if code == TAG_LIST_A || code == TAG_LIST_B || code == TAG_LIST_C {
            match parse_list(reader, strings) {
                Some(items) => {
                    tag = Some(Tag::List { items });
                },
                None => {
                    return None;
                },
            }
        } else if code == TAG_VARIANT {
            match reader.read_bits(2) {
                Some(subtype) => {
                    proof {
                        lemma_bits_value_bound(data, p + 8, 2);
                        lemma2_to64();
                    }
                    tag = Some(Tag::Variant { subtype: subtype as u8 });
                },
                None => {
                    return None;
                },
            }
        }
        match tag {
            Some(t) => {
                proof {
                    lemma_view_each_push(tags@, t);
                }
                tags.push(t);
            },
            None => {},
        }
        proof {
            use_type_invariant(&*reader);
            reader.lemma_cursor_in_bounds();
        }
    }
}

/// Decodes an entries section of which `acc` has been decoded and the next
/// type code of which is at `pos`. Each entry starts with a two-bit type
/// code: 0 ends the section, 1 and 2 name a flag, 3 names a reference and
/// the string it refers to.
pub open spec fn spec_entries(
    data: Seq<u8>,
    pos: int,
    table: TableView,
    acc: Seq<(Seq<char>, EntryValueView)>,
) -> (Option<Seq<(Seq<char>, EntryValueView)>>, int)
    decreases data.len() * 8 - pos,
{
    if !can_read(data, pos, 2) {
        (None, pos)
    } else if bits_value(data, pos, 2) == 0 {
        (Some(acc), pos + 2)
    } else {
        match spec_read_string(data, pos + 2, index_width(table), table.strings) {
            (None, end) => (None, end),
            (Some(name), end) => if bits_value(data, pos, 2) != 3 {
                spec_entries(data, end, table, assoc_insert(acc, name, EntryValueView::Present))
            } else {
                match spec_read_string(data, end, index_width(table), table.strings) {
                    (None, end2) => (None, end2),
                    (Some(target), end2) => spec_entries(
                        data,
                        end2,
                        table,
                        assoc_insert(acc, name, EntryValueView::Ref(target)),
                    ),
                }
            },
        }
    }
}

/// Reads the entries section of a record.
pub fn parse_entries(reader: &mut BitReader, strings: &StringTable) -> (r: Option<
    FieldMap<EntryValue>,
>)
    ensures
        final(reader).data() == old(reader).data(),
        final(reader).pos() >= old(reader).pos(),
        spec_entries(old(reader).data(), old(reader).pos(), strings@, Seq::empty()) == (
            match r {
                Some(entries) => Some(entries@),
                None => None,
            },
            final(reader).pos(),
        ),
{
    let width = bit_width(strings.len());
    let mut entries: FieldMap<EntryValue> = FieldMap::new();
    loop
        invariant
            width == index_width(strings@),
            reader.data() == old(reader).data(),
            reader.pos() >= old(reader).pos(),
            spec_entries(old(reader).data(), old(reader).pos(), strings@, Seq::empty())
                == spec_entries(reader.data(), reader.pos(), strings@, entries@),
        decreases reader.remaining(),
    {
        let code = match reader.read_bits(2) {
            Some(c) => c,
            None => {
                return None;
            },
        };
        if code == 0 {
            return Some(entries);
        }
        let name = match read_string(reader, strings, width) {
            Some(s) => s,
            None => {
                return None;
            },
        };
        if code == 3 {
            let target = match read_string(reader, strings, width) {
                Some(s) => s,
                None => {
                    return None;
                },
            };
            entries.insert(name.to_owned(), EntryValue::Ref(target.to_owned()));
        } else {
            entries.insert(name.to_owned(), EntryValue::Present);
        }
        proof {
            use_type_invariant(&*reader);
            reader.lemma_cursor_in_bounds();
        }
    }
}

/// Decodes the key/value pairs of a serial-index object, of which `acc`
/// have been decoded, at most `left` more are expected and the next key of
/// which is at `pos`. A key that is a sentinel ends the object early.
pub open spec fn spec_object(
    data: Seq<u8>,
    pos: int,
    table: TableView,
    acc: Seq<(Seq<char>, Seq<char>)>,
    left: nat,
) -> (Option<Seq<(Seq<char>, Seq<char>)>>, int)
    decreases left,
{
    if left == 0 {
        (Some(acc), pos)
    } else {
        match spec_read_string(data, pos, index_width(table), table.strings) {
            (None, end) => (None, end),
            (Some(key), end) => if is_sentinel(key) {
                (Some(acc), end)
            } else {
                match spec_read_string(data, end, index_width(table), table.strings) {
                    (None, end2) => (None, end2),
                    (Some(value), end2) => spec_object(
                        data,
                        end2,
                        table,
                        assoc_insert(acc, key, value),
                        (left - 1) as nat,
                    ),
                }
            },
        }
    }
}

/// Decoding an object never moves backwards and never leaves the buffer.
pub proof fn lemma_object_advances(
    data: Seq<u8>,
    pos: int,
    table: TableView,
    acc: Seq<(Seq<char>, Seq<char>)>,
    left: nat,
)
    requires
        0 <= pos <= data.len() * 8,
    ensures
        pos <= spec_object(data, pos, table, acc, left).1 <= data.len() * 8,
    decreases left,
{
    if left > 0 {
        match spec_read_string(data, pos, index_width(table), table.strings) {
            (None, end) => {},
            (Some(key), end) => {
                if !is_sentinel(key) {
                    match spec_read_string(data, end, index_width(table), table.strings) {
                        (None, end2) => {},
                        (Some(value), end2) => {
                            lemma_object_advances(
                                data,
                                end2,
                                table,
                                assoc_insert(acc, key, value),
                                (left - 1) as nat,
                            );
                        },
                    }
                }
            },
        }
    }
}

/// Reads the pairs of a serial-index object.
fn parse_object(reader: &mut BitReader, strings: &StringTable) -> (r: Option<FieldMap<String>>)
    ensures
        final(reader).data() == old(reader).data(),
        final(reader).pos() >= old(reader).pos(),
        spec_object(
            old(reader).data(),
            old(reader).pos(),
            strings@,
            Seq::empty(),
            SERIAL_INDEX_FIELDS as nat,
        ) == (
            match r {
                Some(object) => Some(object@),
                None => None,
            },
            final(reader).pos(),
        ),
{
    let width = bit_width(strings.len());
    let mut object: FieldMap<String> = FieldMap::new();
    let mut done: usize = 0;
    while done < SERIAL_INDEX_FIELDS
        invariant
            done <= SERIAL_INDEX_FIELDS,
            width == index_width(strings@),
            reader.data() == old(reader).data(),
            reader.pos() >= old(reader).pos(),
            spec_object(
                old(reader).data(),
                old(reader).pos(),
                strings@,
                Seq::empty(),
                SERIAL_INDEX_FIELDS as nat,
            ) == spec_object(
                reader.data(),
                reader.pos(),
                strings@,
                object@,
                (SERIAL_INDEX_FIELDS - done) as nat,
            ),
        decreases SERIAL_INDEX_FIELDS - done,
    {
        let key = match read_string(reader, strings, width) {
            Some(s) => s,
            None => {
                return None;
            },
        };
        if is_sentinel_str(key) {
            return Some(object);
        }
        let value = match read_string(reader, strings, width) {
            Some(s) => s,
            None => {
                return None;
            },
        };
        object.insert(key.to_owned(), value.to_owned());
        done = done + 1;
    }
    Some(object)
}

/// Decodes a block of nested fields of which `acc` has been decoded and the
/// next field name of which is at `pos`. A name that is a sentinel ends the
/// block. The field named `serialindex` holds an object; every other field
/// holds one string.
pub open spec fn spec_nested_fields(
    data: Seq<u8>,
    pos: int,
    table: TableView,
    acc: Seq<(Seq<char>, FieldValueView)>,
) -> (Option<Seq<(Seq<char>, FieldValueView)>>, int)
    decreases data.len() * 8 - pos,
{
    match spec_read_string(data, pos, index_width(table), table.strings) {
        (None, end) => (None, end),
        (Some(name), end) => if is_sentinel(name) {
            (Some(acc), end)
        } else if name == "serialindex"@ {
            proof {
                lemma_object_advances(data, end, table, Seq::empty(), SERIAL_INDEX_FIELDS as nat);
            }
            match spec_object(data, end, table, Seq::empty(), SERIAL_INDEX_FIELDS as nat) {
                (None, end2) => (None, end2),
                (Some(object), end2) => spec_nested_fields(
                    data,
                    end2,
                    table,
                    assoc_insert(acc, name, FieldValueView::Object(object)),
                ),
            }
        } else {
            match spec_read_string(data, end, index_width(table), table.strings) {
                (None, end2) => (None, end2),
                (Some(value), end2) => spec_nested_fields(
                    data,
                    end2,
                    table,
                    assoc_insert(acc, name, FieldValueView::String(value)),
                ),
            }
        },
    }
}

/// Decoding nested fields never moves backwards and never leaves the buffer.
pub proof fn lemma_nested_fields_advances(
    data: Seq<u8>,
    pos: int,
    table: TableView,
    acc: Seq<(Seq<char>, FieldValueView)>,
)
    requires
        0 <= pos <= data.len() * 8,
    ensures
        pos <= spec_nested_fields(data, pos, table, acc).1 <= data.len() * 8,
    decreases data.len() * 8 - pos,
{
    match spec_read_string(data, pos, index_width(table), table.strings) {
        (None, end) => {},
        (Some(name), end) => {
            if is_sentinel(name) {
            } else if name == "serialindex"@ {
                lemma_object_advances(data, end, table, Seq::empty(), SERIAL_INDEX_FIELDS as nat);
                match spec_object(data, end, table, Seq::empty(), SERIAL_INDEX_FIELDS as nat) {
                    (None, end2) => {},
                    (Some(object), end2) => {
                        lemma_nested_fields_advances(
                            data,
                            end2,
                            table,
                            assoc_insert(acc, name, FieldValueView::Object(object)),
                        );
                    },
                }
            } else {
                match spec_read_string(data, end, index_width(table), table.strings) {
                    (None, end2) => {},
                    (Some(value), end2) => {
                        lemma_nested_fields_advances(
                            data,
                            end2,
                            table,
                            assoc_insert(acc, name, FieldValueView::String(value)),
                        );
                    },
                }
            }
        },
    }
}

/// Reads a block of nested fields.
pub fn parse_nested_fields(reader: &mut BitReader, strings: &StringTable) -> (r: Option<
    FieldMap<FieldValue>,
>)
    ensures
        final(reader).data() == old(reader).data(),
        final(reader).pos() >= old(reader).pos(),
        spec_nested_fields(old(reader).data(), old(reader).pos(), strings@, Seq::empty()) == (
            match r {
                Some(fields) => Some(fields@),
                None => None,
            },
            final(reader).pos(),
        ),
{
    let width = bit_width(strings.len());
    let serial_key = "serialindex".to_owned();
    let mut fields: FieldMap<FieldValue> = FieldMap::new();
    loop
        invariant
            width == index_width(strings@),
            serial_key@ == "serialindex"@,
            reader.data() == old(reader).data(),
            reader.pos() >= old(reader).pos(),
            spec_nested_fields(old(reader).data(), old(reader).pos(), strings@, Seq::empty())
                == spec_nested_fields(reader.data(), reader.pos(), strings@, fields@),
        decreases reader.remaining(),
    {
        let name = match read_string(reader, strings, width) {
            Some(s) => s,
            None => {
                return None;
            },
        };
        if is_sentinel_str(name) {
            return Some(fields);
        }
        let key = name.to_owned();
        if key == serial_key {
            let object = match parse_object(reader, strings) {
                Some(o) => o,
                None => {
                    return None;
                },
            };
            fields.insert(key, FieldValue::Object(object));
        } else {
            let value = match read_string(reader, strings, width) {
                Some(s) => s,
                None => {
                    return None;
                },
            };
            fields.insert(key, FieldValue::String(value.to_owned()));
        }
        proof {
            use_type_invariant(&*reader);
            reader.lemma_cursor_in_bounds();
        }
    }
}

/// Decodes the fields of a dependency entry of type `code` (1, 2 or 3)
/// whose name has been read, the fields starting at `pos`: none for a plain
/// entry, a block of nested fields, or a single field `ref`.
pub open spec fn spec_dep_fields(data: Seq<u8>, pos: int, code: nat, table: TableView) -> (
    Option<Seq<(Seq<char>, FieldValueView)>>,
    int,
) {
    if code == 2 {
        spec_nested_fields(data, pos, table, Seq::empty())
    } else if code == 3 {
        match spec_read_string(data, pos, index_width(table), table.strings) {
            (None, end) => (None, end),
            (Some(target), end) => (
                Some(
                    assoc_insert(Seq::empty(), "ref"@, FieldValueView::String(target)),
                ),
                end,
            ),
        }
    } else {
        (Some(Seq::empty()), pos)
    }
}

/// Decodes the dependency entries of a record, table by table, of which
/// `acc` have been decoded; the next type code is at `pos` and belongs to
/// the table `deps[dep]`. The entries of one table end with the type code 0
/// or with an entry whose name is a sentinel.
pub open spec fn spec_dep_entries(
    data: Seq<u8>,
    pos: int,
    table: TableView,
    deps: Seq<Seq<char>>,
    dep: nat,
    acc: Seq<DepEntryView>,
) -> (Option<Seq<DepEntryView>>, int)
    decreases deps.len() - dep, data.len() * 8 - pos,
{
    if dep >= deps.len() {
        (Some(acc), pos)
    } else if !can_read(data, pos, 2) {
        (None, pos)
    } else if bits_value(data, pos, 2) == 0 {
        spec_dep_entries(data, pos + 2, table, deps, dep + 1, acc)
    } else {
        match spec_read_string(data, pos + 2, index_width(table), table.strings) {
            (None, end) => (None, end),
            (Some(name), end) => if is_sentinel(name) {
                spec_dep_entries(data, end, table, deps, dep + 1, acc)
            } else {
                proof {
                    lemma_nested_fields_advances(data, end, table, Seq::empty());
                }
                match spec_dep_fields(data, end, bits_value(data, pos, 2), table) {
                    (None, end2) => (None, end2),
                    (Some(fields), end2) => spec_dep_entries(
                        data,
                        end2,
                        table,
                        deps,
                        dep,
                        acc.push(
                            DepEntryView {
                                dep_table_name: deps[dep as int],
                                dep_table_id: dep as usize,
                                name,
                                fields,
                            },
                        ),
                    ),
                }
            },
        }
    }
}

/// Reads the fields of a dependency entry of type `code`.
fn parse_dep_fields(reader: &mut BitReader, strings: &StringTable, code: u32) -> (r: Option<
    FieldMap<FieldValue>,
>)
    ensures
        final(reader).data() == old(reader).data(),
        final(reader).pos() >= old(reader).pos(),
        spec_dep_fields(old(reader).data(), old(reader).pos(), code as nat, strings@) == (
            match r {
                Some(fields) => Some(fields@),
                None => None,
            },
            final(reader).pos(),
        ),
{
    if code == 2 {
        parse_nested_fields(reader, strings)
    } else if code == 3 {
        let width = bit_width(strings.len());
        match read_string(reader, strings, width) {
            Some(target) => {
                let mut fields: FieldMap<FieldValue> = FieldMap::new();
                fields.insert("ref".to_owned(), FieldValue::String(target.to_owned()));
                Some(fields)
            },
            None => None,
        }
    } else {
        Some(FieldMap::new())
    }
}

/// Reads the dependency entries of a record, one run of entries for each
/// table named in `deps`.
pub fn parse_dep_entries(reader: &mut BitReader, strings: &StringTable, deps: &[String]) -> (r:
    Option<Vec<DepEntry>>)
    ensures
        final(reader).data() == old(reader).data(),
        final(reader).pos() >= old(reader).pos(),
        spec_dep_entries(
            old(reader).data(),
            old(reader).pos(),
            strings@,
            view_each(deps@),
            0,
            Seq::empty(),
        ) == (
            match r {
                Some(entries) => Some(view_each(entries@)),
                None => None,
            },
            final(reader).pos(),
        ),
{
    let width = bit_width(strings.len());
    let mut all: Vec<DepEntry> = Vec::new();
    assert(view_each(all@) =~= Seq::<DepEntryView>::empty());
    let mut dep: usize = 0;
    while dep < deps.len()
        invariant
            dep <= deps.len(),
            width == index_width(strings@),
            reader.data() == old(reader).data(),
            reader.pos() >= old(reader).pos(),
            spec_dep_entries(
                old(reader).data(),
                old(reader).pos(),
                strings@,
                view_each(deps@),
                0,
                Seq::empty(),
            ) == spec_dep_entries(
                reader.data(),
                reader.pos(),
                strings@,
                view_each(deps@),
                dep as nat,
                view_each(all@),
            ),
        decreases deps.len() - dep, reader.remaining(),
    {
        let code = match reader.read_bits(2) {
            Some(c) => c,
            None => {
                return None;
            },
        };
        if code == 0 {
            dep = dep + 1;
        } else {
            let name = match read_string(reader, strings, width) {
                Some(s) => s,
                None => {
                    return None;
                },
            };
            if is_sentinel_str(name) {
                dep = dep + 1;
            } else {
                let fields = match parse_dep_fields(reader, strings, code) {
                    Some(f) => f,
                    None => {
                        return None;
                    },
                };
                let entry = DepEntry {
                    dep_table_name: deps[dep].clone(),
                    dep_table_id: dep,
                    name: name.to_owned(),
                    fields,
                };
                proof {
                    lemma_view_each_push(all@, entry);
                }
                all.push(entry);
            }
        }
        proof {
            use_type_invariant(&*reader);
            reader.lemma_cursor_in_bounds();
        }
    }
    Some(all)
}

/// Decodes one record at `pos`: a 32-bit byte count, which is read and not
/// interpreted, a tag section, an entries section and, when the document
/// has dependencies, the dependency entries.
pub open spec fn spec_record(
    data: Seq<u8>,
    pos: int,
    table: TableView,
    deps: Seq<Seq<char>>,
    remap: FixedWidthArrayView,
) -> (Option<RecordView>, int) {
    if !can_read(data, pos, 32) {
        (None, pos)
    } else {
        match spec_tags(data, pos + 32, table, remap, Seq::empty()) {
            (None, end) => (None, end),
            (Some(tags), end) => match spec_entries(data, end, table, Seq::empty()) {
                (None, end2) => (None, end2),
                (Some(entries), end2) => match spec_dep_entries(
                    data,
                    end2,
                    table,
                    deps,
                    0,
                    Seq::empty(),
                ) {
                    (None, end3) => (None, end3),
                    (Some(dep_entries), end3) => (
                        Some(RecordView { tags, entries, dep_entries }),
                        end3,
                    ),
                },
            },
        }
    }
}

/// A record in a buffer that holds the tag terminator nowhere, at no bit
/// offset, does not decode.
pub proof fn lemma_record_without_terminator_fails(
    data: Seq<u8>,
    pos: int,
    table: TableView,
    deps: Seq<Seq<char>>,
    remap: FixedWidthArrayView,
)
    requires
        forall|p: int| can_read(data, p, 8) ==> #[trigger] bits_value(data, p, 8) != TAG_END,
    ensures
        spec_record(data, pos, table, deps, remap).0 is None,
{
    lemma_tags_without_terminator_fail(data, pos + 32, table, remap);
}

/// Reads one record.
pub fn parse_record(
    reader: &mut BitReader,
    strings: &StringTable,
    deps: &[String],
    remap_a: &FixedWidthArray,
) -> (r: Option<Record>)
    ensures
        final(reader).data() == old(reader).data(),
        final(reader).pos() >= old(reader).pos(),
        spec_record(old(reader).data(), old(reader).pos(), strings@, view_each(deps@), remap_a@)
            == (
            match r {
                Some(record) => Some(record@),
                None => None,
            },
            final(reader).pos(),
        ),
        r is Some ==> final(reader).pos() >= old(reader).pos() + 32,
{
    let _byte_count = match reader.read_bits(32) {
        Some(c) => c,
        None => {
            return None;
        },
    };
    let tags = match parse_tags(reader, strings, remap_a) {
        Some(t) => t,
        None => {
            return None;
        },
    };
    let entries = match parse_entries(reader, strings) {
        Some(e) => e,
        None => {
            return None;
        },
    };
    let dep_entries = if deps.len() > 0 {
        match parse_dep_entries(reader, strings, deps) {
            Some(d) => d,
            None => {
                return None;
            },
        }
    } else {
        let none: Vec<DepEntry> = Vec::new();
        assert(view_each(none@) =~= Seq::<DepEntryView>::empty());
        none
    };
    Some(Record { tags, entries, dep_entries })
}

} // verus!
