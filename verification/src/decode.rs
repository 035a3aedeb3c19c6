//! Primitive decoders: fixed-width arrays, Elias-gamma integers and the
//! dependency list built from them.
//!
//! Each decoder comes with a mathematical decoder over the bytes and a bit
//! position. It yields the decoded value, if there is one, and the position
//! at which decoding stopped, which is where the executable reader stands
//! afterwards whether decoding succeeded or not.

use crate::bits::{bit_at, bits_value, can_read, lemma_bit_at_range, lemma_bits_value_bound};
use crate::model::{
    FixedWidthArray,
    FixedWidthArrayView,
    MAX_ARRAY_COUNT,
    MAX_DEPENDENCIES,
    MAX_DEPENDENCY_INDEX,
};
use crate::reader::BitReader;
use crate::table::{lemma_view_each_push, view_each, StringTable, TableView};
use vstd::arithmetic::power2::{lemma2_to64, lemma_pow2_strictly_increases, lemma_pow2_unfold, pow2};
use vstd::prelude::*;

verus! {

/// Decodes the values of a fixed-width array of `count` elements, of which
/// `acc` have been decoded and the next one starts at `pos`.
pub open spec fn spec_array_values(
    data: Seq<u8>,
    pos: int,
    width: nat,
    count: nat,
    acc: Seq<u32>,
) -> (Option<Seq<u32>>, int)
    decreases count - acc.len(),
{
    if acc.len() >= count {
        (Some(acc), pos)
    } else if !can_read(data, pos, width) {
        (None, pos)
    } else {
        spec_array_values(
            data,
            pos + width,
            width,
            count,
            acc.push(bits_value(data, pos, width) as u32),
        )
    }
}

/// Decodes a fixed-width array at `pos`: a 24-bit count, an 8-bit element
/// width, then `count` values of `width` bits each. A width of 0 or above
/// 32 and a count above `MAX_ARRAY_COUNT` are refused once the header has
/// been read.
pub open spec fn spec_fixed_width_array24(data: Seq<u8>, pos: int) -> (
    Option<FixedWidthArrayView>,
    int,
) {
    if !can_read(data, pos, 24) {
        (None, pos)
    } else if !can_read(data, pos + 24, 8) {
        (None, pos + 24)
    } else {
        let count = bits_value(data, pos, 24);
        let width = bits_value(data, pos + 24, 8);
        if width == 0 || width > 32 || count > MAX_ARRAY_COUNT {
            (None, pos + 32)
        } else {
            match spec_array_values(data, pos + 32, width, count, Seq::empty()) {
                (Some(values), end) => (
                    Some(
                        FixedWidthArrayView { count: count as u32, width: width as u8, values },
                    ),
                    end,
                ),
                (None, end) => (None, end),
            }
        }
    }
}

/// The values of a decoded array lie one after the other in the stream:
/// decoding succeeds exactly when all of them fit, value `i` is the
/// `width`-bit integer at offset `i * width`, and each fits in `width` bits.
pub proof fn lemma_array_values(data: Seq<u8>, pos: int, width: nat, count: nat, acc: Seq<u32>)
    requires
        0 <= pos <= data.len() * 8,
        1 <= width <= 32,
        acc.len() <= count,
    ensures
        ({
            let (r, end) = spec_array_values(data, pos, width, count, acc);
            let rest = count - acc.len();
            &&& r is Some <==> pos + rest * width <= data.len() * 8
            &&& r is Some ==> {
                &&& end == pos + rest * width
                &&& r->0.len() == count
                &&& r->0.subrange(0, acc.len() as int) == acc
                &&& forall|i: int|
                    acc.len() <= i < count ==> (#[trigger] r->0[i]) == bits_value(
                        data,
                        pos + (i - acc.len()) * width,
                        width,
                    ) && r->0[i] < pow2(width)
            }
            &&& pos <= end <= data.len() * 8
        }),
    decreases count - acc.len(),
{
    let rest = count - acc.len();
    if acc.len() >= count {
        assert(rest * width == 0) by (nonlinear_arith)
            requires
                rest == 0,
        ;
        assert(acc.subrange(0, acc.len() as int) =~= acc);
    } else if !can_read(data, pos, width) {
        assert(rest * width >= width) by (nonlinear_arith)
            requires
                rest >= 1,
                width >= 1,
        ;
    } else {
        let v = bits_value(data, pos, width) as u32;
        let acc2 = acc.push(v);
        lemma_array_values(data, pos + width, width, count, acc2);
        lemma_bits_value_bound(data, pos, width);
        lemma2_to64();
        if width < 32 {
            lemma_pow2_strictly_increases(width, 32);
        }
        let (r, end) = spec_array_values(data, pos + width, width, count, acc2);
        assert(width + (rest - 1) * width == rest * width) by (nonlinear_arith);
        if r is Some {
            assert(r->0.subrange(0, acc.len() as int) =~= acc2.subrange(0, acc.len() as int));
            assert(acc2.subrange(0, acc.len() as int) =~= acc);
            assert(r->0.subrange(0, acc2.len() as int)[acc.len() as int] == v);
            assert forall|i: int| acc.len() <= i < count implies (#[trigger] r->0[i])
                == bits_value(data, pos + (i - acc.len()) * width, width) && r->0[i] < pow2(
                width,
            ) by {
                if i == acc.len() {
                    assert((i - acc.len()) * width == 0) by (nonlinear_arith)
                        requires
                            i - acc.len() == 0,
                    ;
                } else {
                    assert(pos + width + (i - acc2.len()) * width == pos + (i - acc.len())
                        * width) by (nonlinear_arith)
                        requires
                            acc2.len() == acc.len() + 1,
                    ;
                }
            }
        }
    }
}

/// Reads a fixed-width array: a 24-bit count, an 8-bit element width, then
/// `count` values of `width` bits each.
pub fn parse_fixed_width_array24(reader: &mut BitReader) -> (r: Option<FixedWidthArray>)
    ensures
        final(reader).data() == old(reader).data(),
        spec_fixed_width_array24(old(reader).data(), old(reader).pos()) == (
            match r {
                Some(a) => Some(a@),
                None => None,
            },
            final(reader).pos(),
        ),
        r is Some ==> r->0@.wf(),
{
    let ghost data = reader.data();
    let ghost start = reader.pos();
    proof {
        use_type_invariant(&*reader);
        reader.lemma_cursor_in_bounds();
    }
    let count = match reader.read_bits(24) {
        Some(c) => c,
        None => {
            return None;
        },
    };
    let width = match reader.read_bits(8) {
        Some(w) => w,
        None => {
            return None;
        },
    };
    proof {
        lemma_bits_value_bound(data, start + 24, 8);
        lemma2_to64();
    }
    if width == 0 || width > 32 {
        return None;
    }
    if count > MAX_ARRAY_COUNT {
        return None;
    }
    let width: u8 = width as u8;
    let mut values: Vec<u32> = Vec::new();
    let mut i: u32 = 0;
    while i < count
        invariant
            i <= count,
            values@.len() == i,
            1 <= width <= 32,
            count <= MAX_ARRAY_COUNT,
            can_read(data, start, 24),
            can_read(data, start + 24, 8),
            count == bits_value(data, start, 24),
            width == bits_value(data, start + 24, 8),
            reader.data() == data,
            data == old(reader).data(),
            start == old(reader).pos(),
            spec_array_values(data, start + 32, width as nat, count as nat, Seq::empty())
                == spec_array_values(data, reader.pos(), width as nat, count as nat, values@),
        decreases count - i,
    {
        match reader.read_bits(width) {
            Some(v) => {
                values.push(v);
            },
            None => {
                return None;
            },
        }
        i = i + 1;
    }
    proof {
        lemma_array_values(data, start + 32, width as nat, count as nat, Seq::empty());
    }
    Some(FixedWidthArray { count, width, values })
}

/// Counts the zero bits of an Elias-gamma prefix, `zeros` of which have been
/// counted and the next bit of which is at `pos`. The prefix ends with the
/// first one bit; a run of 32 zeros is not a prefix.
pub open spec fn spec_gamma_prefix(data: Seq<u8>, pos: int, zeros: nat) -> (Option<nat>, int)
    decreases 32 - zeros,
{
    if zeros >= 32 {
        (None, pos)
    } else if !can_read(data, pos, 1) {
        (None, pos)
    } else if bit_at(data, pos) == 1 {
        (Some(zeros), pos + 1)
    } else {
        spec_gamma_prefix(data, pos + 1, zeros + 1)
    }
}

/// Decodes an Elias-gamma integer at `pos`: `z` zero bits, a one bit, then
/// `z` more bits `r`; the value is `2^z + r`.
pub open spec fn spec_elias_gamma(data: Seq<u8>, pos: int) -> (Option<u32>, int) {
    match spec_gamma_prefix(data, pos, 0) {
        (None, end) => (None, end),
        (Some(zeros), end) => if zeros == 0 {
            (Some(1u32), end)
        } else if !can_read(data, end, zeros) {
            (None, end)
        } else {
            (Some((pow2(zeros) + bits_value(data, end, zeros)) as u32), end + zeros)
        },
    }
}

/// Reads one Elias-gamma coded integer.
pub fn read_elias_gamma(reader: &mut BitReader) -> (r: Option<u32>)
    ensures
        final(reader).data() == old(reader).data(),
        spec_elias_gamma(old(reader).data(), old(reader).pos()) == (r, final(reader).pos()),
        r is Some ==> r->0 >= 1 && final(reader).pos() > old(reader).pos(),
        final(reader).pos() >= old(reader).pos(),
{
    let ghost data = reader.data();
    let ghost start = reader.pos();
    let mut zeros: u8 = 0;
    let mut done = false;
    while zeros < 32 && !done
        invariant
            zeros <= 32,
            reader.data() == data,
            data == old(reader).data(),
            start == old(reader).pos(),
            reader.pos() >= start,
            !done ==> spec_gamma_prefix(data, start, 0) == spec_gamma_prefix(
                data,
                reader.pos(),
                zeros as nat,
            ),
            done ==> zeros < 32 && reader.pos() > start && spec_gamma_prefix(data, start, 0) == (
                Some(zeros as nat),
                reader.pos(),
            ),
        decreases 32 - zeros + (if done { 0int } else { 1int }),
    {
        let ghost p = reader.pos();
        match reader.read_bits(1) {
            Some(b) => {
                assert(bits_value(data, p, 1) == 2 * bits_value(data, p, 0) + bit_at(data, p));
                if b == 0 {
                    zeros = zeros + 1;
                } else {
                    proof {
                        lemma_bit_at_range(data, p);
                    }
                    done = true;
                }
            },
            None => {
                return None;
            },
        }
    }
    if zeros == 0 {
        return Some(1);
    }
    if zeros > 31 {
        return None;
    }
    let ghost p = reader.pos();
    match reader.read_bits(zeros) {
        Some(remainder) => {
            let high: u32 = 1u32 << (zeros as u32);
            proof {
                let z = zeros as u32;
                lemma_bits_value_bound(data, p, zeros as nat);
                lemma2_to64();
                lemma_pow2_strictly_increases(zeros as nat, 32);
                vstd::bits::lemma_u32_shl_is_mul(1u32, z);
                assert(high == pow2(zeros as nat));
                assert(remainder < (1u32 << z) && z < 32 ==> ((1u32 << z) | remainder) == (1u32
                    << z) + remainder) by (bit_vector);
                lemma_pow2_unfold((zeros as nat) + 1);
                if zeros < 31 {
                    lemma_pow2_strictly_increases((zeros as nat) + 1, 32);
                }
            }
            Some(high | remainder)
        },
        None => None,
    }
}

/// An Elias-gamma code that starts with a one bit is the code of 1 and
/// takes a single bit.
pub proof fn lemma_gamma_leading_one(data: Seq<u8>, pos: int)
    requires
        can_read(data, pos, 1),
        bit_at(data, pos) == 1,
    ensures
        spec_elias_gamma(data, pos) == (Some(1u32), pos + 1),
{
}

/// Decodes a dependency list of which `acc` has been decoded and the next
/// code of which starts at `pos`. Each dependency is an Elias-gamma coded
/// index into `table`. The list ends, successfully, with the first code
/// that is 0, above `MAX_DEPENDENCY_INDEX` or not below the table's length,
/// or once it holds `MAX_DEPENDENCIES` strings.
pub open spec fn spec_dependencies(
    data: Seq<u8>,
    pos: int,
    table: TableView,
    acc: Seq<Seq<char>>,
) -> (Option<Seq<Seq<char>>>, int)
    decreases MAX_DEPENDENCIES - acc.len(),
{
    match spec_elias_gamma(data, pos) {
        (None, end) => (None, end),
        (Some(index), end) => if index == 0 || index > MAX_DEPENDENCY_INDEX || index
            >= table.strings.len() {
            (Some(acc), end)
        } else if acc.len() + 1 >= MAX_DEPENDENCIES {
            (Some(acc.push(table.strings[index as int])), end)
        } else {
            spec_dependencies(data, end, table, acc.push(table.strings[index as int]))
        },
    }
}

/// Reads the self-terminating list of dependency names.
pub fn parse_dependencies(reader: &mut BitReader, strings: &StringTable) -> (r: Option<
    Vec<String>,
>)
    ensures
        final(reader).data() == old(reader).data(),
        spec_dependencies(old(reader).data(), old(reader).pos(), strings@, Seq::empty()) == (
            match r {
                Some(deps) => Some(view_each(deps@)),
                None => None,
            },
            final(reader).pos(),
        ),
{
    let ghost data = reader.data();
    let ghost start = reader.pos();
    let mut deps: Vec<String> = Vec::new();
    assert(view_each(deps@) =~= Seq::<Seq<char>>::empty());
    loop
        invariant
            deps@.len() < MAX_DEPENDENCIES,
            reader.data() == data,
            data == old(reader).data(),
            start == old(reader).pos(),
            spec_dependencies(data, start, strings@, Seq::empty()) == spec_dependencies(
                data,
                reader.pos(),
                strings@,
                view_each(deps@),
            ),
        decreases MAX_DEPENDENCIES - deps@.len(),
    {
        let index = match read_elias_gamma(reader) {
            Some(i) => i,
            None => {
                return None;
            },
        };
        if index == 0 || index > MAX_DEPENDENCY_INDEX || index as usize >= strings.len() {
            return Some(deps);
        }
        match strings.get(index as usize) {
            Some(s) => {
                let name = s.to_owned();
                proof {
                    lemma_view_each_push(deps@, name);
                }
                deps.push(name);
            },
            None => {
                return None;
            },
        }
        if deps.len() >= MAX_DEPENDENCIES {
            return Some(deps);
        }
    }
}

} // verus!
