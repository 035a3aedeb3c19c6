//! The string table that bit-packed indices refer to, and the combined table
//! that appends auxiliary strings to a primary one.

use crate::bits::{bits_value, can_read};
use crate::reader::BitReader;
use vstd::prelude::*;

verus! {

/// The views of the elements of a sequence, in order.
pub open spec fn view_each<T: View>(s: Seq<T>) -> Seq<T::V> {
    Seq::new(s.len(), |i: int| s[i]@)
}

/// Appending an element appends its view.
pub proof fn lemma_view_each_push<T: View>(s: Seq<T>, x: T)
    ensures
        view_each(s.push(x)) == view_each(s).push(x@),
{
    assert(view_each(s.push(x)) =~= view_each(s).push(x@));
}

/// Ordered collection of strings addressed by a dense index.
///
/// The first `primary` strings form the primary table; the strings after
/// them are auxiliary strings that a combined table appends. String lists
/// index the primary table and are sized to it; every other index is sized
/// to the whole table.
#[derive(Debug, Clone)]
pub struct StringTable {
    pub strings: Vec<String>,
    pub primary: usize,
}

/// A string table as a plain value.
pub ghost struct TableView {
    pub strings: Seq<Seq<char>>,
    pub primary: nat,
}

impl View for StringTable {
    type V = TableView;

    open spec fn view(&self) -> TableView {
        TableView { strings: view_each(self.strings@), primary: self.primary as nat }
    }
}

impl StringTable {
    /// A table without strings.
    pub fn new() -> (t: Self)
        ensures
            t@.strings == Seq::<Seq<char>>::empty(),
            t@.primary == 0,
    {
        let t = StringTable { strings: Vec::new(), primary: 0 };
        assert(t@.strings =~= Seq::<Seq<char>>::empty());
        t
    }

    /// A primary table that holds `strings` in the given order.
    pub fn from_strings(strings: Vec<String>) -> (t: Self)
        ensures
            t@.strings == view_each(strings@),
            t@.primary == strings@.len(),
    {
        let primary = strings.len();
        StringTable { strings, primary }
    }

    /// Number of strings in the table, auxiliary strings included.
    pub fn len(&self) -> (n: usize)
        ensures
            n == self@.strings.len(),
    {
        self.strings.len()
    }

    /// Number of strings in the primary table.
    pub fn primary_len(&self) -> (n: usize)
        ensures
            n == self@.primary,
    {
        self.primary
    }

    /// Whether the table holds no string.
    pub fn is_empty(&self) -> (b: bool)
        ensures
            b == (self@.strings.len() == 0),
    {
        self.strings.len() == 0
    }

    /// Appends one string; it receives the next free index. The string
    /// joins the primary table if the table has no auxiliary strings yet,
    /// and is an auxiliary string otherwise.
    pub fn push(&mut self, s: String)
        ensures
            final(self)@.strings == old(self)@.strings.push(s@),
            final(self)@.primary == (if old(self)@.primary == old(self)@.strings.len() {
                old(self)@.primary + 1
            } else {
                old(self)@.primary
            }),
    {
        proof {
            lemma_view_each_push(self.strings@, s);
        }
        let whole = self.primary == self.strings.len();
        self.strings.push(s);
        if whole {
            self.primary = self.strings.len();
        }
    }

    /// Appends one auxiliary string; it receives the next free index.
    pub fn push_auxiliary(&mut self, s: String)
        ensures
            final(self)@.strings == old(self)@.strings.push(s@),
            final(self)@.primary == old(self)@.primary,
    {
        proof {
            lemma_view_each_push(self.strings@, s);
        }
        self.strings.push(s);
    }

    /// The string at `index`, or nothing when the index is out of range.
    pub fn get(&self, index: usize) -> (r: Option<&str>)
        ensures
            index < self@.strings.len() ==> r is Some && r->0@ == self@.strings[index as int],
            index >= self@.strings.len() ==> r is None,
    {
        if index < self.strings.len() {
            Some(self.strings[index].as_str())
        } else {
            None
        }
    }
}

/// A table that holds the strings of `primary` followed by those of
/// `inline`, so that indices past the primary table resolve to the
/// auxiliary strings. The primary table of the result is that of `primary`.
pub fn create_combined_string_table(primary: &StringTable, inline: &[String]) -> (t: StringTable)
    ensures
        t@.strings == primary@.strings + view_each(inline@),
        t@.primary == primary@.primary,
{
    let ghost base = primary@.strings;
    let mut strings: Vec<String> = Vec::new();
    let mut i: usize = 0;
    while i < primary.strings.len()
        invariant
            i <= primary.strings.len(),
            base == primary@.strings,
            view_each(strings@) == base.subrange(0, i as int),
        decreases primary.strings.len() - i,
    {
        let s = primary.strings[i].clone();
        proof {
            lemma_view_each_push(strings@, s);
            assert(base.subrange(0, i as int).push(s@) =~= base.subrange(0, i + 1));
        }
        strings.push(s);
        i = i + 1;
    }
    assert(base.subrange(0, i as int) =~= base);
    let mut j: usize = 0;
    while j < inline.len()
        invariant
            j <= inline.len(),
            view_each(strings@) == base + view_each(inline@).subrange(0, j as int),
        decreases inline.len() - j,
    {
        let s = inline[j].clone();
        proof {
            lemma_view_each_push(strings@, s);
            assert((base + view_each(inline@).subrange(0, j as int)).push(s@) =~= base
                + view_each(inline@).subrange(0, j + 1));
        }
        strings.push(s);
        j = j + 1;
    }
    assert(view_each(inline@).subrange(0, j as int) =~= view_each(inline@));
    StringTable { strings, primary: primary.primary }
}

/// The auxiliary strings of a combined table, in the order in which indices
/// past the primary table resolve: the inline strings, then the field
/// abbreviation if there is one, then the type name.
pub open spec fn auxiliary_strings(
    inline: Seq<Seq<char>>,
    field_abbrev: Option<Seq<char>>,
    type_label: Seq<char>,
) -> Seq<Seq<char>> {
    match field_abbrev {
        Some(a) => inline.push(a).push(type_label),
        None => inline.push(type_label),
    }
}

/// Builds the combined table of a catalog: the primary strings, then the
/// inline strings, then the field abbreviation if present, then the type
/// name.
pub fn combined_string_table(
    primary: &StringTable,
    inline: &[String],
    field_abbrev: Option<&str>,
    type_label: &str,
) -> (t: StringTable)
    ensures
        t@.strings == primary@.strings + auxiliary_strings(
            view_each(inline@),
            match field_abbrev {
                Some(a) => Some(a@),
                None => None,
            },
            type_label@,
        ),
        t@.primary == primary@.primary,
{
    let mut t = create_combined_string_table(primary, inline);
    let ghost base = t@.strings;
    match field_abbrev {
        Some(a) => {
            t.push_auxiliary(a.to_owned());
            t.push_auxiliary(type_label.to_owned());
            assert(base.push(a@).push(type_label@) =~= primary@.strings + view_each(
                inline@,
            ).push(a@).push(type_label@));
        },
        None => {
            t.push_auxiliary(type_label.to_owned());
            assert(base.push(type_label@) =~= primary@.strings + view_each(inline@).push(
                type_label@,
            ));
        },
    }
    t
}

/// The outcome of reading one string index of `width` bits at `pos`: the
/// string it resolves to and the position after it. The read fails in place
/// when the bits are not there, and after the index when the index is out of
/// range.
pub open spec fn spec_read_string(data: Seq<u8>, pos: int, width: nat, table: Seq<Seq<char>>) -> (
    Option<Seq<char>>,
    int,
) {
    if !can_read(data, pos, width) {
        (None, pos)
    } else if bits_value(data, pos, width) < table.len() {
        (Some(table[bits_value(data, pos, width) as int]), pos + width)
    } else {
        (None, pos + width)
    }
}

/// Reads one string index of `width` bits and resolves it in `strings`.
pub fn read_string<'t>(reader: &mut BitReader, strings: &'t StringTable, width: u8) -> (r: Option<
    &'t str,
>)
    ensures
        final(reader).data() == old(reader).data(),
        spec_read_string(old(reader).data(), old(reader).pos(), width as nat, strings@.strings) == (
            match r {
                Some(s) => Some(s@),
                None => None,
            },
            final(reader).pos(),
        ),
{
    match reader.read_bits(width) {
        Some(index) => strings.get(index as usize),
        None => None,
    }
}

} // verus!
