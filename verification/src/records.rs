//! Byte records: the length-prefixed record format, and grouping and
//! filtering of records by the byte at a position.

use crate::text::{chars_of, str_eq};
use crate::tsv::{line_ranges, ranges_view, ranges_within, spec_line_ranges, spec_lines};
use std::collections::HashMap;
use vstd::prelude::*;
use vstd::slice::slice_subrange;

verus! {

broadcast use vstd::std_specs::hash::group_hash_axioms;

/// The records whose byte at `position` is `value`, in order. A record that
/// is too short to have a byte at `position` is left out.
pub open spec fn having_byte(records: Seq<Vec<u8>>, position: int, value: u8) -> Seq<Vec<u8>>
    decreases records.len(),
{
    if records.len() == 0 {
        Seq::empty()
    } else if position < records.last()@.len() && records.last()@[position] == value {
        having_byte(records.drop_last(), position, value).push(records.last())
    } else {
        having_byte(records.drop_last(), position, value)
    }
}

/// The records that a sequence of references points to.
pub open spec fn targets(refs: Seq<&Vec<u8>>) -> Seq<Vec<u8>> {
    Seq::new(refs.len(), |i: int| *refs[i])
}

/// Selects the records whose byte at `position` is `value`.
pub fn filter_by_position(records: &[Vec<u8>], position: usize, value: u8) -> (r: Vec<&Vec<u8>>)
    ensures
        targets(r@) == having_byte(records@, position as int, value),
{
    let mut out: Vec<&Vec<u8>> = Vec::new();
    let mut i: usize = 0;
    assert(records@.subrange(0, 0) =~= Seq::<Vec<u8>>::empty());
    assert(targets(out@) =~= Seq::<Vec<u8>>::empty());
    while i < records.len()
        invariant
            i <= records.len(),
            targets(out@) == having_byte(records@.subrange(0, i as int), position as int, value),
        decreases records.len() - i,
    {
        let record = &records[i];
        let ghost next = records@.subrange(0, i + 1);
        proof {
            assert(next.drop_last() =~= records@.subrange(0, i as int));
            assert(next.last() == *record);
        }
        if position < record.len() && record[position] == value {
            let ghost before = targets(out@);
            out.push(record);
            assert(targets(out@) =~= before.push(*record));
        }
        i = i + 1;
    }
    assert(records@.subrange(0, i as int) =~= records@);
    out
}

/// Whether some record has the byte `value` at `position`.
pub open spec fn byte_occurs(records: Seq<Vec<u8>>, position: int, value: u8) -> bool {
    having_byte(records, position, value).len() > 0
}

/// Groups the records by their byte at `position`. A byte is a key of the
/// result exactly when some record has it at `position`, and it maps to
/// those records in order. Records too short to have such a byte belong to
/// no group.
pub fn group_by_position(records: &[Vec<u8>], position: usize) -> (r: HashMap<u8, Vec<&Vec<u8>>>)
    ensures
        forall|b: u8| #[trigger] r@.contains_key(b) <==> byte_occurs(records@, position as int, b),
        forall|b: u8| #[trigger]
            r@.contains_key(b) ==> targets(r@[b]@) == having_byte(records@, position as int, b),
{
    let mut groups: HashMap<u8, Vec<&Vec<u8>>> = HashMap::new();
    let mut i: usize = 0;
    assert(records@.subrange(0, 0) =~= Seq::<Vec<u8>>::empty());
    while i < records.len()
        invariant
            i <= records.len(),
            forall|b: u8| #[trigger]
                groups@.contains_key(b) <==> byte_occurs(
                    records@.subrange(0, i as int),
                    position as int,
                    b,
                ),
            forall|b: u8| #[trigger]
                groups@.contains_key(b) ==> targets(groups@[b]@) == having_byte(
                    records@.subrange(0, i as int),
                    position as int,
                    b,
                ),
        decreases records.len() - i,
    {
        let record = &records[i];
        let ghost prefix = records@.subrange(0, i as int);
        let ghost next = records@.subrange(0, i + 1);
        proof {
            assert(next.drop_last() =~= prefix);
            assert(next.last() == *record);
        }
        if position < record.len() {
            let key = record[position];
            let ghost before = groups@;
            let mut group: Vec<&Vec<u8>> = match groups.remove(&key) {
                Some(g) => g,
                None => Vec::new(),
            };
            proof {
                if before.contains_key(key) {
                    assert(targets(group@) == having_byte(prefix, position as int, key));
                } else {
                    assert(targets(group@) =~= having_byte(prefix, position as int, key));
                }
            }
            let ghost old_group = group@;
            group.push(record);
            proof {
                assert(targets(group@) =~= targets(old_group).push(*record));
            }
            groups.insert(key, group);
            proof {
                assert forall|b: u8| #[trigger]
                    groups@.contains_key(b) <==> byte_occurs(next, position as int, b) by {
                    if b != key {
                        assert(groups@.contains_key(b) == before.contains_key(b));
                    }
                }
                assert forall|b: u8| #[trigger] groups@.contains_key(b) implies targets(
                    groups@[b]@,
                ) == having_byte(next, position as int, b) by {
                    if b != key {
                        assert(before.contains_key(b));
                        assert(groups@[b] == before[b]);
                    }
                }
            }
        }
        i = i + 1;
    }
    assert(records@.subrange(0, i as int) =~= records@);
    groups
}

/// Why a file of records could not be decoded.
#[derive(Debug, Clone, Copy, PartialEq, Eq, Structural)]
pub enum RecordError {
    /// A length prefix announces more bytes than the data holds.
    Truncated,
    /// A line holds something else than pairs of hexadecimal digits.
    InvalidHex,
    /// The format is neither `length16` nor `lines`.
    UnknownFormat,
}

/// The length that the two bytes at `pos` announce, least significant byte
/// first.
pub open spec fn length_prefix(data: Seq<u8>, pos: int) -> int {
    data[pos] + 256 * data[pos + 1]
}

/// Decodes length-prefixed records, of which `acc` have been decoded and
/// the next of which starts at `pos`. A record is a 16-bit length, least
/// significant byte first, and that many bytes. Decoding ends where fewer
/// than two bytes are left, and fails where a record is cut short.
pub open spec fn spec_length16(data: Seq<u8>, pos: int, acc: Seq<Seq<u8>>) -> Result<
    Seq<Seq<u8>>,
    RecordError,
>
    decreases data.len() - pos,
{
    if pos < 0 || pos + 2 > data.len() {
        Ok(acc)
    } else if pos + 2 + length_prefix(data, pos) > data.len() {
        Err(RecordError::Truncated)
    } else {
        spec_length16(
            data,
            pos + 2 + length_prefix(data, pos),
            acc.push(data.subrange(pos + 2, pos + 2 + length_prefix(data, pos))),
        )
    }
}

/// The contents of records, as plain values.
pub open spec fn contents(records: Seq<Vec<u8>>) -> Seq<Seq<u8>> {
    Seq::new(records.len(), |i: int| records[i]@)
}

/// Decodes a file of length-prefixed records.
pub fn decode_length16(data: &[u8]) -> (r: Result<Vec<Vec<u8>>, RecordError>)
    ensures
        spec_length16(data@, 0, Seq::empty()) == (match r {
            Ok(records) => Ok(contents(records@)),
            Err(e) => Err(e),
        }),
{
    let mut records: Vec<Vec<u8>> = Vec::new();
    let mut pos: usize = 0;
    assert(contents(records@) =~= Seq::<Seq<u8>>::empty());
    while data.len() - pos >= 2
        invariant
            pos <= data.len(),
            spec_length16(data@, 0, Seq::empty()) == spec_length16(
                data@,
                pos as int,
                contents(records@),
            ),
        decreases data.len() - pos,
    {
        let len: usize = data[pos] as usize + 256 * (data[pos + 1] as usize);
        let start: usize = pos + 2;
        if len > data.len() - start {
            return Err(RecordError::Truncated);
        }
        let mut record: Vec<u8> = Vec::new();
        let mut k: usize = 0;
        while k < len
            invariant
                k <= len,
                start + len <= data.len(),
                record@ == data@.subrange(start as int, start + k),
            decreases len - k,
        {
            record.push(data[start + k]);
            assert(record@ =~= data@.subrange(start as int, start + k + 1));
            k = k + 1;
        }
        let ghost before = contents(records@);
        records.push(record);
        assert(contents(records@) =~= before.push(record@));
        pos = start + len;
    }
    Ok(records)
}

/// Whether `c` is white space: a character with the Unicode property
/// `White_Space`.
pub open spec fn is_whitespace(c: char) -> bool {
    ('\u{9}' <= c <= '\u{d}') || c == ' ' || c == '\u{85}' || c == '\u{a0}' || c == '\u{1680}' || (
    '\u{2000}' <= c <= '\u{200a}') || c == '\u{2028}' || c == '\u{2029}' || c == '\u{202f}' || c
        == '\u{205f}' || c == '\u{3000}'
}

/// Decides whether a character is white space.
pub fn is_whitespace_char(c: char) -> (r: bool)
    ensures
        r == is_whitespace(c),
{
    (c >= '\u{9}' && c <= '\u{d}') || c == ' ' || c == '\u{85}' || c == '\u{a0}' || c == '\u{1680}'
        || (c >= '\u{2000}' && c <= '\u{200a}') || c == '\u{2028}' || c == '\u{2029}' || c
        == '\u{202f}' || c == '\u{205f}' || c == '\u{3000}'
}

/// First position at or after `from` and below `end` that holds no white
/// space; `end` if there is none.
pub open spec fn trim_start(s: Seq<char>, from: int, end: int) -> int
    decreases end - from,
{
    if from >= end || from < 0 || end > s.len() {
        end
    } else if is_whitespace(s[from]) {
        trim_start(s, from + 1, end)
    } else {
        from
    }
}

/// End of the text in `from..end` once trailing white space is dropped.
pub open spec fn trim_end(s: Seq<char>, from: int, end: int) -> int
    decreases end - from,
{
    if from >= end || from < 0 || end > s.len() {
        from
    } else if is_whitespace(s[end - 1]) {
        trim_end(s, from, end - 1)
    } else {
        end
    }
}

/// The text without white space at either end.
pub open spec fn spec_trim(s: Seq<char>) -> Seq<char> {
    s.subrange(
        trim_start(s, 0, s.len() as int),
        trim_end(s, trim_start(s, 0, s.len() as int), s.len() as int),
    )
}

/// The value of a hexadecimal digit.
pub open spec fn hex_value(c: char) -> Option<nat> {
    if '0' <= c <= '9' {
        Some((c as nat - '0' as nat) as nat)
    } else if 'a' <= c <= 'f' {
        Some((c as nat - 'a' as nat + 10) as nat)
    } else if 'A' <= c <= 'F' {
        Some((c as nat - 'A' as nat + 10) as nat)
    } else {
        None
    }
}

/// The byte that two characters denote: two hexadecimal digits, or a plus
/// sign and one hexadecimal digit.
pub open spec fn hex_pair(high: char, low: char) -> Option<u8> {
    match hex_value(low) {
        None => None,
        Some(l) => if high == '+' {
            Some(l as u8)
        } else {
            match hex_value(high) {
                Some(h) => Some((16 * h + l) as u8),
                None => None,
            }
        },
    }
}

/// The bytes that a line of hexadecimal text denotes, of which `acc` have
/// been decoded and the next pair of which starts at `pos`. A line of odd
/// length and a pair that denotes no byte make the line invalid.
pub open spec fn spec_hex_bytes(line: Seq<char>, pos: int, acc: Seq<u8>) -> Option<Seq<u8>>
    decreases line.len() - pos,
{
    if pos < 0 || pos >= line.len() {
        Some(acc)
    } else if pos + 1 >= line.len() {
        None
    } else {
        match hex_pair(line[pos], line[pos + 1]) {
            Some(b) => spec_hex_bytes(line, pos + 2, acc.push(b)),
            None => None,
        }
    }
}

/// The records of the first `n` lines of hexadecimal text: each line is
/// trimmed, empty lines are skipped, and the first invalid line fails the
/// whole text.
pub open spec fn spec_hex_lines(lines: Seq<Seq<char>>, n: int) -> Result<Seq<Seq<u8>>, RecordError>
    decreases n,
{
    if n <= 0 {
        Ok(Seq::empty())
    } else {
        match spec_hex_lines(lines, n - 1) {
            Err(e) => Err(e),
            Ok(done) => if spec_trim(lines[n - 1]).len() == 0 {
                Ok(done)
            } else {
                match spec_hex_bytes(spec_trim(lines[n - 1]), 0, Seq::empty()) {
                    Some(bytes) => Ok(done.push(bytes)),
                    None => Err(RecordError::InvalidHex),
                }
            },
        }
    }
}

/// The value of a hexadecimal digit.
fn hex_digit(c: char) -> (r: Option<u8>)
    ensures
        match r {
            Some(v) => hex_value(c) == Some(v as nat) && v < 16,
            None => hex_value(c) is None,
        },
{
    if c >= '0' && c <= '9' {
        Some((c as u32 - '0' as u32) as u8)
    } else if c >= 'a' && c <= 'f' {
        Some((c as u32 - 'a' as u32 + 10) as u8)
    } else if c >= 'A' && c <= 'F' {
        Some((c as u32 - 'A' as u32 + 10) as u8)
    } else {
        None
    }
}

/// Decodes one trimmed line of hexadecimal text.
pub fn decode_hex_line(line: &[char]) -> (r: Option<Vec<u8>>)
    ensures
        spec_hex_bytes(line@, 0, Seq::empty()) == (match r {
            Some(bytes) => Some(bytes@),
            None => None,
        }),
{
    let mut bytes: Vec<u8> = Vec::new();
    let mut pos: usize = 0;
    while pos < line.len()
        invariant
            spec_hex_bytes(line@, 0, Seq::empty()) == spec_hex_bytes(line@, pos as int, bytes@),
        decreases line.len() - pos,
    {
        if line.len() - pos < 2 {
            return None;
        }
        let low = match hex_digit(line[pos + 1]) {
            Some(l) => l,
            None => {
                return None;
            },
        };
        let byte: u8 = if line[pos] == '+' {
            low
        } else {
            match hex_digit(line[pos]) {
                Some(h) => 16 * h + low,
                None => {
                    return None;
                },
            }
        };
        bytes.push(byte);
        pos = pos + 2;
    }
    Some(bytes)
}

/// Decodes a text of hexadecimal lines, one record per line.
pub fn decode_hex_lines(text: &str) -> (r: Result<Vec<Vec<u8>>, RecordError>)
    ensures
        spec_hex_lines(spec_lines(text@), spec_lines(text@).len() as int) == (match r {
            Ok(records) => Ok(contents(records@)),
            Err(e) => Err(e),
        }),
{
    let owned = chars_of(text);
    let chars = owned.as_slice();
    let ranges = line_ranges(chars);
    let ghost lines = spec_lines(text@);
    let mut records: Vec<Vec<u8>> = Vec::new();
    assert(contents(records@) =~= Seq::<Seq<u8>>::empty());
    let mut i: usize = 0;
    while i < ranges.len()
        invariant
            i <= ranges.len(),
            chars@ == text@,
            lines == spec_lines(text@),
            lines.len() == ranges.len(),
            ranges_view(ranges@) == spec_line_ranges(text@, 0, Seq::empty()),
            ranges_within(ranges@, chars@.len() as int),
            spec_hex_lines(lines, i as int) == Ok::<Seq<Seq<u8>>, RecordError>(contents(records@)),
        decreases ranges.len() - i,
    {
        let (start, end) = ranges[i];
        proof {
            assert(ranges_view(ranges@)[i as int] == (start as int, end as int));
            assert(lines[i as int] == text@.subrange(start as int, end as int));
        }
        let line = slice_subrange(chars, start, end);
        let mut a: usize = 0;
        while a < line.len() && is_whitespace_char(line[a])
            invariant
                a <= line.len(),
                trim_start(line@, 0, line@.len() as int) == trim_start(
                    line@,
                    a as int,
                    line@.len() as int,
                ),
            decreases line.len() - a,
        {
            a = a + 1;
        }
        let mut b: usize = line.len();
        while b > a && is_whitespace_char(line[b - 1])
            invariant
                a <= b <= line.len(),
                trim_end(line@, a as int, line@.len() as int) == trim_end(
                    line@,
                    a as int,
                    b as int,
                ),
            decreases b - a,
        {
            b = b - 1;
        }
        let trimmed = slice_subrange(line, a, b);
        assert(trimmed@ == spec_trim(line@));
        if trimmed.len() > 0 {
            match decode_hex_line(trimmed) {
                Some(bytes) => {
                    let ghost before = contents(records@);
                    records.push(bytes);
                    assert(contents(records@) =~= before.push(bytes@));
                },
                None => {
                    proof {
                        lemma_hex_lines_stay_failed(lines, i + 1, lines.len() as int);
                    }
                    return Err(RecordError::InvalidHex);
                },
            }
        }
        i = i + 1;
    }
    Ok(records)
}

/// Once a line has failed, the text as a whole has.
pub proof fn lemma_hex_lines_stay_failed(lines: Seq<Seq<char>>, k: int, n: int)
    requires
        k <= n,
        spec_hex_lines(lines, k) is Err,
    ensures
        spec_hex_lines(lines, n) == spec_hex_lines(lines, k),
    decreases n - k,
{
    if k < n {
        lemma_hex_lines_stay_failed(lines, k, n - 1);
    }
}

/// The formats of a file of records.
#[derive(Debug, Clone, Copy, PartialEq, Eq, Structural)]
pub enum RecordFormat {
    /// Records with a 16-bit length prefix.
    Length16,
    /// One record per line, in hexadecimal.
    Lines,
}

/// The format that a name denotes: `length16` or `lines`.
pub fn record_format(name: &str) -> (r: Result<RecordFormat, RecordError>)
    ensures
        r == (if name@ == "length16"@ {
            Ok::<RecordFormat, RecordError>(RecordFormat::Length16)
        } else if name@ == "lines"@ {
            Ok(RecordFormat::Lines)
        } else {
            Err(RecordError::UnknownFormat)
        }),
{
    if str_eq(name, "length16") {
        Ok(RecordFormat::Length16)
    } else if str_eq(name, "lines") {
        Ok(RecordFormat::Lines)
    } else {
        Err(RecordError::UnknownFormat)
    }
}

} // verus!
