//! Tab-separated tables of parts: splitting text into lines and lines into
//! columns, and reading part entries from them.

use crate::order::Ranked;
use crate::parts::PartEntry;
use crate::table::{lemma_view_each_push, view_each};
use crate::order::{lemma_text_lt_irreflexive, lemma_text_lt_transitive, text_less, text_lt};
use crate::text::{
    chars_of,
    find_char,
    first_index_of,
    parse_i64_chars,
    push_signed,
    signed_decimal,
    spec_parse_i64,
};
use vstd::string::StringExecFns;
use vstd::prelude::*;
use vstd::slice::slice_subrange;
use vstd::string::StrSliceExecFns;

verus! {

/// What `first_index_of` yields lies at or after `from` and holds the
/// character.
pub proof fn lemma_first_index_of(s: Seq<char>, c: char, from: int)
    requires
        0 <= from,
    ensures
        match first_index_of(s, c, from) {
            Some(at) => from <= at < s.len() && s[at] == c && forall|j: int|
                from <= j < at ==> #[trigger] s[j] != c,
            None => forall|j: int| from <= j < s.len() ==> #[trigger] s[j] != c,
        },
    decreases s.len() - from,
{
    if from < s.len() && s[from] != c {
        lemma_first_index_of(s, c, from + 1);
    }
}

/// The lines of a text as ranges of character positions, of which `acc`
/// have been found and the next of which starts at `start`. A line ends
/// before a line feed; a carriage return right before that line feed is not
/// part of the line. Text after the last line feed is a line of its own,
/// if there is any.
pub open spec fn spec_line_ranges(s: Seq<char>, start: int, acc: Seq<(int, int)>) -> Seq<
    (int, int),
>
    decreases s.len() - start,
{
    if start < 0 || start >= s.len() {
        acc
    } else {
        match first_index_of(s, '\n', start) {
            None => acc.push((start, s.len() as int)),
            Some(feed) => {
                proof {
                    lemma_first_index_of(s, '\n', start);
                }
                if feed > start && s[feed - 1] == '\r' {
                    spec_line_ranges(s, feed + 1, acc.push((start, feed - 1)))
                } else {
                    spec_line_ranges(s, feed + 1, acc.push((start, feed)))
                }
            },
        }
    }
}

/// The lines of a text.
pub open spec fn spec_lines(s: Seq<char>) -> Seq<Seq<char>> {
    Seq::new(
        spec_line_ranges(s, 0, Seq::empty()).len(),
        |i: int|
            s.subrange(
                spec_line_ranges(s, 0, Seq::empty())[i].0,
                spec_line_ranges(s, 0, Seq::empty())[i].1,
            ),
    )
}

/// Ranges as plain values.
pub open spec fn ranges_view(ranges: Seq<(usize, usize)>) -> Seq<(int, int)> {
    Seq::new(ranges.len(), |i: int| (ranges[i].0 as int, ranges[i].1 as int))
}

/// Every range lies inside a text of `len` characters.
pub open spec fn ranges_within(ranges: Seq<(usize, usize)>, len: int) -> bool {
    forall|i: int| 0 <= i < ranges.len() ==> (#[trigger] ranges[i]).0 <= ranges[i].1 <= len
}

/// Splits a text into lines, each given as the range of its characters.
pub fn line_ranges(chars: &[char]) -> (r: Vec<(usize, usize)>)
    ensures
        ranges_view(r@) == spec_line_ranges(chars@, 0, Seq::empty()),
        ranges_within(r@, chars@.len() as int),
{
    let mut ranges: Vec<(usize, usize)> = Vec::new();
    let mut start: usize = 0;
    assert(ranges_view(ranges@) =~= Seq::<(int, int)>::empty());
    while start < chars.len()
        invariant
            start <= chars.len(),
            ranges_within(ranges@, chars@.len() as int),
            spec_line_ranges(chars@, 0, Seq::empty()) == spec_line_ranges(
                chars@,
                start as int,
                ranges_view(ranges@),
            ),
        decreases chars.len() - start,
    {
        let ghost before = ranges_view(ranges@);
        match find_char(chars, '\n', start) {
            None => {
                ranges.push((start, chars.len()));
                assert(ranges_view(ranges@) =~= before.push((start as int, chars@.len() as int)));
                return ranges;
            },
            Some(feed) => {
                let end: usize = if feed > start && chars[feed - 1] == '\r' {
                    feed - 1
                } else {
                    feed
                };
                ranges.push((start, end));
                assert(ranges_view(ranges@) =~= before.push((start as int, end as int)));
                start = feed + 1;
            },
        }
    }
    ranges
}

/// A part entry as a plain value.
pub ghost struct PartEntryView {
    pub name: Seq<char>,
    pub category: i64,
    pub index: i64,
}

impl View for PartEntry {
    type V = PartEntryView;

    open spec fn view(&self) -> PartEntryView {
        PartEntryView { name: self.name@, category: self.category, index: self.index }
    }
}

/// The part on a line of the form `category<TAB>index<TAB>name`. A line
/// with fewer than three columns, or whose category or index is no number,
/// holds no part. The name is everything after the second tab.
pub open spec fn spec_part_line(line: Seq<char>) -> Option<PartEntryView> {
    match first_index_of(line, '\t', 0) {
        None => None,
        Some(a) => match spec_parse_i64(line.subrange(0, a)) {
            None => None,
            Some(category) => match first_index_of(line, '\t', a + 1) {
                None => None,
                Some(b) => match spec_parse_i64(line.subrange(a + 1, b)) {
                    None => None,
                    Some(index) => Some(
                        PartEntryView {
                            name: line.subrange(b + 1, line.len() as int),
                            category,
                            index,
                        },
                    ),
                },
            },
        },
    }
}

/// The part of `category` on a line of the form `index<TAB>name`. A line
/// without a tab, or whose index is no number, holds no part.
pub open spec fn spec_category_line(line: Seq<char>, category: i64) -> Option<PartEntryView> {
    match first_index_of(line, '\t', 0) {
        None => None,
        Some(a) => match spec_parse_i64(line.subrange(0, a)) {
            None => None,
            Some(index) => Some(
                PartEntryView { name: line.subrange(a + 1, line.len() as int), category, index },
            ),
        },
    }
}

/// The part on a line: of a table with a category column when `category`
/// is absent, else of the table of that category.
pub open spec fn spec_line_part(line: Seq<char>, category: Option<i64>) -> Option<PartEntryView> {
    match category {
        None => spec_part_line(line),
        Some(c) => spec_category_line(line, c),
    }
}

/// The parts on the first `n` lines of a table, the header line left out.
pub open spec fn spec_table_parts(lines: Seq<Seq<char>>, category: Option<i64>, n: int) -> Seq<
    PartEntryView,
>
    decreases n,
{
    if n <= 1 {
        Seq::empty()
    } else {
        match spec_line_part(lines[n - 1], category) {
            Some(p) => spec_table_parts(lines, category, n - 1).push(p),
            None => spec_table_parts(lines, category, n - 1),
        }
    }
}

/// Reads the part on the line that occupies `start..end` of `content`.
fn parse_line(content: &str, chars: &[char], start: usize, end: usize, category: Option<i64>) -> (r:
    Option<PartEntry>)
    requires
        chars@ == content@,
        start <= end <= chars@.len(),
    ensures
        spec_line_part(chars@.subrange(start as int, end as int), category) == (match r {
            Some(p) => Some(p@),
            None => None,
        }),
{
    let line = slice_subrange(chars, start, end);
    let a = match find_char(line, '\t', 0) {
        Some(a) => a,
        None => {
            return None;
        },
    };
    let first = match parse_i64_chars(slice_subrange(line, 0, a)) {
        Some(n) => n,
        None => {
            return None;
        },
    };
    match category {
        Some(c) => {
            let name = content.substring_char(start + a + 1, end);
            assert(name@ =~= line@.subrange(a + 1, line@.len() as int));
            Some(PartEntry { name: name.to_owned(), category: c, index: first })
        },
        None => {
            let b = match find_char(line, '\t', a + 1) {
                Some(b) => b,
                None => {
                    return None;
                },
            };
            let index = match parse_i64_chars(slice_subrange(line, a + 1, b)) {
                Some(n) => n,
                None => {
                    return None;
                },
            };
            let name = content.substring_char(start + b + 1, end);
            assert(name@ =~= line@.subrange(b + 1, line@.len() as int));
            Some(PartEntry { name: name.to_owned(), category: first, index })
        },
    }
}

/// Reads the parts of a table, skipping its header line and every line
/// that holds no part.
fn parse_table(content: &str, category: Option<i64>) -> (r: Vec<PartEntry>)
    ensures
        view_each(r@) == spec_table_parts(
            spec_lines(content@),
            category,
            spec_lines(content@).len() as int,
        ),
{
    let owned = chars_of(content);
    let chars = owned.as_slice();
    let ranges = line_ranges(chars);
    let ghost lines = spec_lines(content@);
    let mut parts: Vec<PartEntry> = Vec::new();
    assert(view_each(parts@) =~= Seq::<PartEntryView>::empty());
    if ranges.len() < 2 {
        return parts;
    }
    let mut i: usize = 1;
    while i < ranges.len()
        invariant
            1 <= i <= ranges.len(),
            chars@ == content@,
            lines == spec_lines(content@),
            ranges_view(ranges@) == spec_line_ranges(content@, 0, Seq::empty()),
            ranges_within(ranges@, chars@.len() as int),
            view_each(parts@) == spec_table_parts(lines, category, i as int),
        decreases ranges.len() - i,
    {
        let (start, end) = ranges[i];
        proof {
            assert(ranges_view(ranges@)[i as int] == (start as int, end as int));
            assert(lines[i as int] == content@.subrange(start as int, end as int));
        }
        match parse_line(content, chars, start, end, category) {
            Some(p) => {
                proof {
                    lemma_view_each_push(parts@, p);
                }
                parts.push(p);
            },
            None => {},
        }
        i = i + 1;
    }
    parts
}

/// Reads a parts table with the columns category, index and name. The
/// first line is the header; lines that hold no part are skipped.
pub fn parse_parts_tsv(content: &str) -> (r: Vec<PartEntry>)
    ensures
        view_each(r@) == spec_table_parts(
            spec_lines(content@),
            None,
            spec_lines(content@).len() as int,
        ),
{
    parse_table(content, None)
}

/// Reads the parts table of one category, with the columns index and name.
/// The first line is the header; lines that hold no part are skipped.
pub fn parse_category_tsv(content: &str, category: i64) -> (r: Vec<PartEntry>)
    ensures
        view_each(r@) == spec_table_parts(
            spec_lines(content@),
            Some(category),
            spec_lines(content@).len() as int,
        ),
{
    parse_table(content, Some(category))
}

/// Whether the text starts with the header of a parts table.
pub fn is_parts_header(content: &str) -> (r: bool)
    ensures
        r == crate::text::occurs_at(content@, "category\t"@, 0),
{
    let owned = chars_of(content);
    let header = chars_of("category\t");
    crate::text::matches_at(owned.as_slice(), header.as_slice(), 0)
}

/// The category and the name on a line of the form
/// `category<TAB>index<TAB>name` of a pools table. The index column is not
/// read. A line with fewer than three columns, or whose category is no
/// number above zero, holds nothing.
pub open spec fn spec_pool_line(line: Seq<char>) -> Option<(i64, Seq<char>)> {
    match first_index_of(line, '\t', 0) {
        None => None,
        Some(a) => match spec_parse_i64(line.subrange(0, a)) {
            None => None,
            Some(category) => match first_index_of(line, '\t', a + 1) {
                None => None,
                Some(b) => if category > 0 {
                    Some((category, line.subrange(b + 1, line.len() as int)))
                } else {
                    None
                },
            },
        },
    }
}

/// The name on a line of the form `index<TAB>name`. The index column is
/// not read. A line without a tab holds nothing.
pub open spec fn spec_name_line(line: Seq<char>) -> Option<Seq<char>> {
    match first_index_of(line, '\t', 0) {
        None => None,
        Some(a) => Some(line.subrange(a + 1, line.len() as int)),
    }
}

/// What the first `n` lines of a pools table hold, the header line left
/// out.
pub open spec fn spec_pool_lines(lines: Seq<Seq<char>>, n: int) -> Seq<(i64, Seq<char>)>
    decreases n,
{
    if n <= 1 {
        Seq::empty()
    } else {
        match spec_pool_line(lines[n - 1]) {
            Some(p) => spec_pool_lines(lines, n - 1).push(p),
            None => spec_pool_lines(lines, n - 1),
        }
    }
}

/// The names on the first `n` lines of a table of names, the header line
/// left out.
pub open spec fn spec_name_lines(lines: Seq<Seq<char>>, n: int) -> Seq<Seq<char>>
    decreases n,
{
    if n <= 1 {
        Seq::empty()
    } else {
        match spec_name_line(lines[n - 1]) {
            Some(p) => spec_name_lines(lines, n - 1).push(p),
            None => spec_name_lines(lines, n - 1),
        }
    }
}

/// Categories with names as plain values.
pub open spec fn pool_view(entries: Seq<(i64, String)>) -> Seq<(i64, Seq<char>)> {
    Seq::new(entries.len(), |i: int| (entries[i].0, entries[i].1@))
}

/// Reads the categories and names of a pools table with the columns
/// category, index and name. The first line is the header.
pub fn parse_pool_tsv(content: &str) -> (r: Vec<(i64, String)>)
    ensures
        pool_view(r@) == spec_pool_lines(spec_lines(content@), spec_lines(content@).len() as int),
{
    let owned = chars_of(content);
    let chars = owned.as_slice();
    let ranges = line_ranges(chars);
    let ghost lines = spec_lines(content@);
    let mut out: Vec<(i64, String)> = Vec::new();
    assert(pool_view(out@) =~= Seq::<(i64, Seq<char>)>::empty());
    if ranges.len() < 2 {
        return out;
    }
    let mut i: usize = 1;
    while i < ranges.len()
        invariant
            1 <= i <= ranges.len(),
            chars@ == content@,
            lines == spec_lines(content@),
            ranges_view(ranges@) == spec_line_ranges(content@, 0, Seq::empty()),
            ranges_within(ranges@, chars@.len() as int),
            pool_view(out@) == spec_pool_lines(lines, i as int),
        decreases ranges.len() - i,
    {
        let (start, end) = ranges[i];
        proof {
            assert(ranges_view(ranges@)[i as int] == (start as int, end as int));
            assert(lines[i as int] == content@.subrange(start as int, end as int));
        }
        let line = slice_subrange(chars, start, end);
        match find_char(line, '\t', 0) {
            Some(a) => match parse_i64_chars(slice_subrange(line, 0, a)) {
                Some(category) => match find_char(line, '\t', a + 1) {
                    Some(b) => {
                        if category > 0 {
                            let name = content.substring_char(start + b + 1, end);
                            assert(name@ =~= line@.subrange(b + 1, line@.len() as int));
                            let ghost before = pool_view(out@);
                            out.push((category, name.to_owned()));
                            assert(pool_view(out@) =~= before.push((category, name@)));
                        }
                    },
                    None => {},
                },
                None => {},
            },
            None => {},
        }
        i = i + 1;
    }
    out
}

/// Reads the names of a table with the columns index and name. The first
/// line is the header.
pub fn parse_names_tsv(content: &str) -> (r: Vec<String>)
    ensures
        view_each(r@) == spec_name_lines(spec_lines(content@), spec_lines(content@).len() as int),
{
    let owned = chars_of(content);
    let chars = owned.as_slice();
    let ranges = line_ranges(chars);
    let ghost lines = spec_lines(content@);
    let mut out: Vec<String> = Vec::new();
    assert(view_each(out@) =~= Seq::<Seq<char>>::empty());
    if ranges.len() < 2 {
        return out;
    }
    let mut i: usize = 1;
    while i < ranges.len()
        invariant
            1 <= i <= ranges.len(),
            chars@ == content@,
            lines == spec_lines(content@),
            ranges_view(ranges@) == spec_line_ranges(content@, 0, Seq::empty()),
            ranges_within(ranges@, chars@.len() as int),
            view_each(out@) == spec_name_lines(lines, i as int),
        decreases ranges.len() - i,
    {
        let (start, end) = ranges[i];
        proof {
            assert(ranges_view(ranges@)[i as int] == (start as int, end as int));
            assert(lines[i as int] == content@.subrange(start as int, end as int));
        }
        let line = slice_subrange(chars, start, end);
        match find_char(line, '\t', 0) {
            Some(a) => {
                let name = content.substring_char(start + a + 1, end).to_owned();
                assert(name@ =~= line@.subrange(a + 1, line@.len() as int));
                proof {
                    lemma_view_each_push(out@, name);
                }
                out.push(name);
            },
            None => {},
        }
        i = i + 1;
    }
    out
}

/// A part in its pool: the category and the part's name.
#[derive(Debug, Clone)]
pub struct PoolEntry {
    pub category: i64,
    pub name: String,
}

impl View for PoolEntry {
    type V = (i64, Seq<char>);

    open spec fn view(&self) -> (i64, Seq<char>) {
        (self.category, self.name@)
    }
}

/// Whether pool entry `a` comes before `b`: by category, then by name.
pub open spec fn pool_lt(a: (i64, Seq<char>), b: (i64, Seq<char>)) -> bool {
    a.0 < b.0 || (a.0 == b.0 && text_lt(a.1, b.1))
}

impl Ranked for PoolEntry {
    open spec fn rank_lt(a: (i64, Seq<char>), b: (i64, Seq<char>)) -> bool {
        pool_lt(a, b)
    }

    proof fn lemma_rank_strict(a: (i64, Seq<char>), b: (i64, Seq<char>), c: (i64, Seq<char>)) {
        lemma_text_lt_irreflexive(a.1, 0);
        if text_lt(a.1, b.1) && text_lt(b.1, c.1) {
            lemma_text_lt_transitive(a.1, b.1, c.1, 0);
        }
    }

    fn less(&self, other: &Self) -> (r: bool) {
        self.category < other.category || (self.category == other.category && text_less(
            self.name.as_str(),
            other.name.as_str(),
        ))
    }
}

/// The pool entries of categories and names.
pub fn pool_entries(pairs: Vec<(i64, String)>) -> (r: Vec<PoolEntry>)
    ensures
        view_each(r@) == pool_view(pairs@),
{
    let mut rest = pairs;
    let ghost all = pool_view(rest@);
    let mut out: Vec<PoolEntry> = Vec::new();
    let mut i: usize = 0;
    assert(view_each(out@) =~= all.subrange(0, 0));
    while i < rest.len()
        invariant
            i <= rest.len(),
            all == pool_view(rest@),
            view_each(out@) == all.subrange(0, i as int),
        decreases rest.len() - i,
    {
        let entry = PoolEntry { category: rest[i].0, name: rest[i].1.clone() };
        proof {
            lemma_view_each_push(out@, entry);
            assert(all.subrange(0, i as int).push(entry@) =~= all.subrange(0, i + 1));
        }
        out.push(entry);
        i = i + 1;
    }
    assert(all.subrange(0, i as int) =~= all);
    out
}

/// The lines of a pools table for the first `n` entries: for each entry its
/// category, a tab, its name and a line feed.
pub open spec fn spec_pool_rows(entries: Seq<(i64, Seq<char>)>, n: int) -> Seq<char>
    decreases n,
{
    if n <= 0 {
        Seq::empty()
    } else {
        spec_pool_rows(entries, n - 1) + signed_decimal(entries[n - 1].0 as int) + seq!['\t']
            + entries[n - 1].1 + seq!['\n']
    }
}

/// A pools table as text: the header line, then one line per entry.
pub open spec fn spec_pools_tsv(entries: Seq<(i64, Seq<char>)>) -> Seq<char> {
    "category\tpart_name\n"@ + spec_pool_rows(entries, entries.len() as int)
}

/// Writes pool entries as a table with the columns category and part name,
/// in the order given.
pub fn render_pools(entries: &[PoolEntry]) -> (r: String)
    ensures
        r@ == spec_pools_tsv(view_each(entries@)),
{
    let ghost all = view_each(entries@);
    let mut out = "category\tpart_name\n".to_owned();
    let mut i: usize = 0;
    assert(out@ =~= "category\tpart_name\n"@ + spec_pool_rows(all, 0));
    while i < entries.len()
        invariant
            i <= entries.len(),
            all == view_each(entries@),
            out@ == "category\tpart_name\n"@ + spec_pool_rows(all, i as int),
        decreases entries.len() - i,
    {
        proof {
            reveal_strlit("\t");
            reveal_strlit("\n");
        }
        let ghost before = out@;
        push_signed(&mut out, entries[i].category);
        out.append("\t");
        out.append(entries[i].name.as_str());
        out.append("\n");
        assert(out@ =~= "category\tpart_name\n"@ + spec_pool_rows(all, i + 1)) by {
            assert("\t"@ =~= seq!['\t']);
            assert("\n"@ =~= seq!['\n']);
            assert(all[i as int] == entries@[i as int]@);
        }
        i = i + 1;
    }
    out
}

/// Number of categories among the first `n` entries of a sequence in
/// which equal categories stand together: the number of places where a
/// category differs from the one before it.
pub open spec fn spec_pool_count(entries: Seq<(i64, Seq<char>)>, n: int) -> nat
    decreases n,
{
    if n <= 0 {
        0
    } else if n == 1 || entries[n - 1].0 != entries[n - 2].0 {
        spec_pool_count(entries, n - 1) + 1
    } else {
        spec_pool_count(entries, n - 1)
    }
}

/// Counts the pools of entries in which equal categories stand together.
pub fn count_pools(entries: &[PoolEntry]) -> (r: usize)
    ensures
        r == spec_pool_count(view_each(entries@), entries@.len() as int),
{
    let ghost all = view_each(entries@);
    let mut count: usize = 0;
    let mut i: usize = 0;
    while i < entries.len()
        invariant
            i <= entries.len(),
            all == view_each(entries@),
            count == spec_pool_count(all, i as int),
            count <= i,
        decreases entries.len() - i,
    {
        proof {
            assert(all[i as int] == entries@[i as int]@);
            if i > 0 {
                assert(all[i - 1] == entries@[i - 1]@);
            }
        }
        if i == 0 || entries[i].category != entries[i - 1].category {
            count = count + 1;
        }
        i = i + 1;
    }
    count
}

/// Turns a parts table with the columns category, index and name into the
/// pools table: one line per part with a category above zero, ordered by
/// category and, within a category, by name.
pub fn part_pools_tsv(content: &str) -> (r: String)
    ensures
        r@ == spec_pools_tsv(
            crate::order::spec_sorted::<PoolEntry>(
                spec_pool_lines(spec_lines(content@), spec_lines(content@).len() as int),
            ),
        ),
{
    let entries = crate::order::stable_sort(pool_entries(parse_pool_tsv(content)));
    render_pools(entries.as_slice())
}

/// Whether part `a` comes before part `b`: by category, then by index.
pub open spec fn entry_lt(a: PartEntryView, b: PartEntryView) -> bool {
    a.category < b.category || (a.category == b.category && a.index < b.index)
}

impl Ranked for PartEntry {
    open spec fn rank_lt(a: PartEntryView, b: PartEntryView) -> bool {
        entry_lt(a, b)
    }

    proof fn lemma_rank_strict(a: PartEntryView, b: PartEntryView, c: PartEntryView) {
    }

    fn less(&self, other: &Self) -> (r: bool) {
        self.category < other.category || (self.category == other.category && self.index
            < other.index)
    }
}

} // verus!
