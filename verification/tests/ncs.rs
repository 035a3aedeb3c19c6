use bl4_ncs::text::{is_sentinel_str, parse_u32, str_eq};
use bl4_ncs::{
    assemble_document, bit_width, combined_string_table, create_combined_string_table,
    extract_serial_indices, parse_dep_entries, parse_dependencies, parse_document, parse_entries,
    parse_fixed_width_array24, parse_list, parse_nested_fields, parse_record, parse_tags,
    read_elias_gamma, BitReader, EntryValue, FieldMap, FieldValue, FixedWidthArray, StringTable,
    Tag,
};

/// Packs values into bytes, most significant bit first.
struct BitWriter {
    bits: Vec<bool>,
}

impl BitWriter {
    fn new() -> Self {
        BitWriter { bits: Vec::new() }
    }

    fn put(&mut self, value: u32, width: u8) -> &mut Self {
        for i in (0..width).rev() {
            self.bits.push((value >> i) & 1 == 1);
        }
        self
    }

    fn gamma(&mut self, value: u32) -> &mut Self {
        let digits = 32 - value.leading_zeros();
        for _ in 1..digits {
            self.bits.push(false);
        }
        for i in (0..digits).rev() {
            self.bits.push((value >> i) & 1 == 1);
        }
        self
    }

    fn bytes(&self) -> Vec<u8> {
        let mut out = vec![0u8; (self.bits.len() + 7) / 8];
        for (i, bit) in self.bits.iter().enumerate() {
            if *bit {
                out[i / 8] |= 0x80 >> (i % 8);
            }
        }
        out
    }

    fn len(&self) -> usize {
        self.bits.len()
    }
}

fn table(strings: &[&str]) -> StringTable {
    StringTable::from_strings(strings.iter().map(|s| s.to_string()).collect())
}

fn position(reader: &BitReader) -> usize {
    reader.byte_position() * 8 + reader.bit_offset() as usize
}

/// Ten strings; index 9 is the sentinel.
fn ten() -> StringTable {
    table(&["zero", "one", "two", "three", "four", "five", "six", "seven", "eight", "none"])
}

#[test]
fn read_bits_is_msb_first() {
    let data = [0b1010_0000u8, 0xFF];
    let mut reader = BitReader::new(&data);
    assert_eq!(reader.read_bits(1), Some(1));
    assert_eq!(reader.read_bits(1), Some(0));
    assert_eq!(reader.read_bits(2), Some(0b10));
    assert_eq!(reader.read_bits(8), Some(0x0F));
    assert_eq!(position(&reader), 12);
    assert_eq!(reader.read_bits(4), Some(0xF));
    assert_eq!(position(&reader), 16);
}

#[test]
fn read_bits_of_thirty_two() {
    let data = [0xDE, 0xAD, 0xBE, 0xEF, 0x01];
    let mut reader = BitReader::new(&data);
    assert_eq!(reader.read_bits(32), Some(0xDEADBEEF));
    assert_eq!(reader.read_bits(8), Some(1));
    assert_eq!(reader.read_bits(1), None);
}

#[test]
fn read_bits_unaligned_thirty_two() {
    let data = [0x0F, 0xFF, 0xFF, 0xFF, 0xF0];
    let mut reader = BitReader::new(&data);
    assert_eq!(reader.read_bits(4), Some(0));
    assert_eq!(reader.read_bits(32), Some(0xFFFF_FFFF));
    assert_eq!(reader.read_bits(4), Some(0));
}

#[test]
fn read_zero_bits_yields_zero_and_stays() {
    let data = [0xFFu8];
    let mut reader = BitReader::new(&data);
    assert_eq!(reader.read_bits(0), Some(0));
    assert_eq!(position(&reader), 0);
    assert_eq!(reader.read_bits(8), Some(0xFF));
    assert_eq!(reader.read_bits(0), Some(0));
    assert_eq!(position(&reader), 8);
}

#[test]
fn read_more_than_thirty_two_bits_fails_in_place() {
    let data = [0u8; 16];
    let mut reader = BitReader::new(&data);
    assert_eq!(reader.read_bits(33), None);
    assert_eq!(reader.read_bits(255), None);
    assert_eq!(position(&reader), 0);
}

#[test]
fn read_exactly_to_the_boundary() {
    let data = [0x12, 0x34];
    let mut reader = BitReader::new(&data);
    assert_eq!(reader.read_bits(16), Some(0x1234));
    assert!(reader.has_bits(0));
    assert!(!reader.has_bits(1));
    assert_eq!(reader.read_bits(1), None);
    assert_eq!(position(&reader), 16);
}

#[test]
fn failed_read_leaves_cursor_for_every_width() {
    let data = [0xA5u8, 0x5A, 0xC3];
    for n in 1u8..=32 {
        for consumed in 0u8..=24 {
            let mut reader = BitReader::new(&data);
            if consumed > 0 {
                assert!(reader.read_bits(consumed).is_some());
            }
            let left = 24 - consumed as usize;
            if (n as usize) > left {
                assert_eq!(reader.read_bits(n), None);
                assert_eq!(position(&reader), consumed as usize);
                assert_eq!(reader.read_bits(n), None);
                assert_eq!(position(&reader), consumed as usize);
                assert_eq!(reader.has_bits(left), true);
            } else {
                assert!(reader.read_bits(n).is_some());
                assert_eq!(position(&reader), consumed as usize + n as usize);
            }
        }
    }
}

#[test]
fn has_bits_consumes_nothing() {
    let data = [0u8; 4];
    let mut reader = BitReader::new(&data);
    assert!(reader.has_bits(32));
    assert!(!reader.has_bits(33));
    assert_eq!(position(&reader), 0);
    reader.read_bits(3);
    assert!(reader.has_bits(29));
    assert!(!reader.has_bits(30));
    assert!(!reader.has_bits(usize::MAX));
}

#[test]
fn empty_buffer_has_no_bits() {
    let data: [u8; 0] = [];
    let mut reader = BitReader::new(&data);
    assert!(reader.has_bits(0));
    assert!(!reader.has_bits(1));
    assert_eq!(reader.read_bits(1), None);
    assert_eq!(reader.read_bits(0), Some(0));
}

#[test]
fn bit_width_values() {
    assert_eq!(bit_width(0), 1);
    assert_eq!(bit_width(1), 1);
    assert_eq!(bit_width(2), 1);
    assert_eq!(bit_width(3), 2);
    assert_eq!(bit_width(4), 2);
    assert_eq!(bit_width(5), 3);
    assert_eq!(bit_width(256), 8);
    assert_eq!(bit_width(257), 9);
    assert_eq!(bit_width(18393), 15);
    assert_eq!(bit_width(65536), 16);
    assert_eq!(bit_width(65537), 17);
}

#[test]
fn bit_width_covers_every_index() {
    for count in 2usize..5000 {
        let w = bit_width(count) as u32;
        assert!(count <= 1usize << w);
        assert!(count > 1usize << (w - 1) || w == 1);
    }
}

#[test]
fn elias_gamma_round_trip() {
    let mut values: Vec<u32> = (1..=2000).collect();
    values.extend([4095, 4096, 65535, 65536, (1 << 20) - 1, 1 << 20]);
    for v in values {
        let mut w = BitWriter::new();
        w.gamma(v);
        let bits = w.len();
        let data = w.bytes();
        let mut reader = BitReader::new(&data);
        assert_eq!(read_elias_gamma(&mut reader), Some(v));
        assert_eq!(position(&reader), bits);
    }
}

#[test]
fn elias_gamma_largest_value() {
    let mut w = BitWriter::new();
    w.gamma(u32::MAX);
    let data = w.bytes();
    let mut reader = BitReader::new(&data);
    assert_eq!(read_elias_gamma(&mut reader), Some(u32::MAX));
    assert_eq!(position(&reader), 63);
}

#[test]
fn elias_gamma_of_one_bits_is_always_one() {
    let data = [0xFFu8; 4];
    let mut reader = BitReader::new(&data);
    for i in 0..32 {
        assert_eq!(read_elias_gamma(&mut reader), Some(1));
        assert_eq!(position(&reader), i + 1);
    }
    assert_eq!(read_elias_gamma(&mut reader), None);
}

#[test]
fn elias_gamma_exact_codes() {
    // 0b010 -> 2, 0b011 -> 3, 0b00100 -> 4, 0b00111 -> 7
    let data = [0b0100_1100, 0b1000_0111];
    let mut reader = BitReader::new(&data);
    assert_eq!(read_elias_gamma(&mut reader), Some(2));
    assert_eq!(read_elias_gamma(&mut reader), Some(3));
    assert_eq!(read_elias_gamma(&mut reader), Some(4));
    assert_eq!(read_elias_gamma(&mut reader), Some(7));
    assert_eq!(position(&reader), 16);
}

#[test]
fn elias_gamma_rejects_thirty_two_zeros() {
    let data = [0u8, 0, 0, 0, 0xFF, 0xFF, 0xFF, 0xFF, 0xFF];
    let mut reader = BitReader::new(&data);
    assert_eq!(read_elias_gamma(&mut reader), None);
    assert_eq!(position(&reader), 32);
}

#[test]
fn elias_gamma_fails_when_remainder_is_missing() {
    // three zeros, a one, then exactly the three remainder bits
    let whole = [0b0001_0110u8];
    let mut reader = BitReader::new(&whole);
    assert_eq!(read_elias_gamma(&mut reader), Some(11));
    assert_eq!(position(&reader), 7);
    // seven zeros, a one, and none of the seven remainder bits
    let short = [0b0000_0001u8];
    let mut reader = BitReader::new(&short);
    assert_eq!(read_elias_gamma(&mut reader), None);
    assert_eq!(position(&reader), 8);
    // zeros only
    let zeros = [0u8, 0];
    let mut reader = BitReader::new(&zeros);
    assert_eq!(read_elias_gamma(&mut reader), None);
    assert_eq!(position(&reader), 16);
}

#[test]
fn elias_gamma_fails_on_empty_input() {
    let data: [u8; 0] = [];
    let mut reader = BitReader::new(&data);
    assert_eq!(read_elias_gamma(&mut reader), None);
}

#[test]
fn fixed_width_array_of_five_nibbles() {
    let data = [0x00, 0x00, 0x05, 0x04, 0x12, 0x34, 0x50];
    let mut reader = BitReader::new(&data);
    let array = parse_fixed_width_array24(&mut reader).unwrap();
    assert_eq!(array.count, 5);
    assert_eq!(array.width, 4);
    assert_eq!(array.values, vec![1, 2, 3, 4, 5]);
    assert_eq!(position(&reader), 52);
}

#[test]
fn fixed_width_array_is_deterministic() {
    let data = [0x00, 0x00, 0x05, 0x04, 0x12, 0x34, 0x50];
    let mut first = BitReader::new(&data);
    let mut second = BitReader::new(&data);
    let a = parse_fixed_width_array24(&mut first).unwrap();
    let b = parse_fixed_width_array24(&mut second).unwrap();
    assert_eq!(a.count, b.count);
    assert_eq!(a.width, b.width);
    assert_eq!(a.values, b.values);
}

#[test]
fn fixed_width_array_rejects_bad_width() {
    let zero = [0x00, 0x00, 0x01, 0x00, 0xFF];
    let mut reader = BitReader::new(&zero);
    assert!(parse_fixed_width_array24(&mut reader).is_none());
    assert_eq!(position(&reader), 32);
    let wide = [0x00, 0x00, 0x01, 33, 0xFF, 0xFF, 0xFF, 0xFF, 0xFF];
    let mut reader = BitReader::new(&wide);
    assert!(parse_fixed_width_array24(&mut reader).is_none());
    assert_eq!(position(&reader), 32);
}

#[test]
fn fixed_width_array_rejects_large_count() {
    // 100001 = 0x0186A1
    let data = [0x01, 0x86, 0xA1, 0x01, 0xFF];
    let mut reader = BitReader::new(&data);
    assert!(parse_fixed_width_array24(&mut reader).is_none());
    // 100000 = 0x0186A0 is accepted when the values are there
    let mut ok = vec![0x01, 0x86, 0xA0, 0x01];
    ok.extend(vec![0xAAu8; 12500]);
    let mut reader = BitReader::new(&ok);
    let array = parse_fixed_width_array24(&mut reader).unwrap();
    assert_eq!(array.values.len(), 100000);
    assert_eq!(array.values[0], 1);
    assert_eq!(array.values[1], 0);
}

#[test]
fn fixed_width_array_fails_when_values_are_missing() {
    let data = [0x00, 0x00, 0x03, 0x08, 0x01, 0x02];
    let mut reader = BitReader::new(&data);
    assert!(parse_fixed_width_array24(&mut reader).is_none());
    assert_eq!(position(&reader), 48);
    let header_only = [0x00, 0x00, 0x03];
    let mut reader = BitReader::new(&header_only);
    assert!(parse_fixed_width_array24(&mut reader).is_none());
    assert_eq!(position(&reader), 24);
}

#[test]
fn fixed_width_array_of_full_words() {
    let data = [0x00, 0x00, 0x02, 32, 0xDE, 0xAD, 0xBE, 0xEF, 0x00, 0x00, 0x00, 0x2A];
    let mut reader = BitReader::new(&data);
    let array = parse_fixed_width_array24(&mut reader).unwrap();
    assert_eq!(array.values, vec![0xDEADBEEF, 42]);
}

#[test]
fn empty_fixed_width_array() {
    let data = [0x00, 0x00, 0x00, 0x01];
    let mut reader = BitReader::new(&data);
    let array = parse_fixed_width_array24(&mut reader).unwrap();
    assert_eq!(array.count, 0);
    assert_eq!(array.width, 1);
    assert!(array.values.is_empty());
}

#[test]
fn dependencies_stop_at_index_past_the_table() {
    let strings = ten();
    let mut w = BitWriter::new();
    w.gamma(3).gamma(1).gamma(9).gamma(10).gamma(2);
    let data = w.bytes();
    let mut reader = BitReader::new(&data);
    let deps = parse_dependencies(&mut reader, &strings).unwrap();
    assert_eq!(deps, vec!["three", "one", "none"]);
}

#[test]
fn dependencies_fail_when_the_stream_ends() {
    let strings = ten();
    let mut w = BitWriter::new();
    w.gamma(3).gamma(1);
    w.put(0, 3);
    let data = w.bytes();
    let mut reader = BitReader::new(&data[..1]);
    assert!(parse_dependencies(&mut reader, &strings).is_none());
}

#[test]
fn dependencies_stop_above_the_index_ceiling() {
    let strings = StringTable::from_strings((0..3000).map(|i| format!("s{}", i)).collect());
    let mut w = BitWriter::new();
    w.gamma(1024).gamma(1025).gamma(5);
    let data = w.bytes();
    let mut reader = BitReader::new(&data);
    let deps = parse_dependencies(&mut reader, &strings).unwrap();
    assert_eq!(deps, vec!["s1024"]);
}

#[test]
fn dependencies_stop_at_the_count_ceiling() {
    let strings = ten();
    let mut w = BitWriter::new();
    for _ in 0..2000 {
        w.gamma(1);
    }
    let data = w.bytes();
    let mut reader = BitReader::new(&data);
    let deps = parse_dependencies(&mut reader, &strings).unwrap();
    assert_eq!(deps.len(), 1024);
    assert_eq!(position(&reader), 1024);
}

#[test]
fn string_list_stops_at_the_sentinel() {
    let strings = ten();
    assert_eq!(bit_width(strings.len()), 4);
    let mut w = BitWriter::new();
    w.put(2, 4).put(5, 4).put(9, 4).put(7, 4);
    let data = w.bytes();
    let mut reader = BitReader::new(&data);
    let items = parse_list(&mut reader, &strings).unwrap();
    assert_eq!(items, vec!["two", "five"]);
    assert_eq!(position(&reader), 12);
}

#[test]
fn string_list_sentinel_ignores_case_and_accepts_empty() {
    let strings = table(&["a", "NoNe", "", "b"]);
    let mut w = BitWriter::new();
    w.put(0, 2).put(3, 2).put(1, 2).put(0, 2);
    let data = w.bytes();
    let mut reader = BitReader::new(&data);
    assert_eq!(parse_list(&mut reader, &strings).unwrap(), vec!["a", "b"]);
    assert_eq!(position(&reader), 6);
    let mut w = BitWriter::new();
    w.put(3, 2).put(2, 2).put(0, 2);
    let data = w.bytes();
    let mut reader = BitReader::new(&data);
    assert_eq!(parse_list(&mut reader, &strings).unwrap(), vec!["b"]);
    assert_eq!(position(&reader), 4);
}

#[test]
fn string_list_fails_on_index_out_of_range() {
    let strings = ten();
    let mut w = BitWriter::new();
    w.put(2, 4).put(12, 4).put(9, 4);
    let data = w.bytes();
    let mut reader = BitReader::new(&data);
    assert!(parse_list(&mut reader, &strings).is_none());
    assert_eq!(position(&reader), 8);
}

#[test]
fn string_list_fails_without_sentinel() {
    let strings = ten();
    let data = [0x22u8, 0x22];
    let mut reader = BitReader::new(&data);
    assert!(parse_list(&mut reader, &strings).is_none());
}

#[test]
fn string_list_stops_at_item_ceiling() {
    let strings = table(&["x", "none"]);
    let data = vec![0u8; 1024];
    let mut reader = BitReader::new(&data);
    let items = parse_list(&mut reader, &strings).unwrap();
    assert_eq!(items.len(), 4095);
    assert_eq!(position(&reader), 4095);
}

fn remap(values: Vec<u32>, width: u8) -> FixedWidthArray {
    FixedWidthArray { count: values.len() as u32, width, values }
}

#[test]
fn tags_of_every_kind() {
    let strings = ten();
    let remap_a = remap(vec![7, 42, 99], 2);
    let mut w = BitWriter::new();
    w.put(0x61, 8).put(1, 2);
    w.put(0x62, 8).put(0xCAFEBABE, 32);
    w.put(0x63, 8).put(0x3F800000, 32);
    w.put(0x64, 8).put(2, 4).put(9, 4);
    w.put(0x65, 8).put(9, 4);
    w.put(0x66, 8).put(5, 4).put(6, 4).put(9, 4);
    w.put(0x70, 8).put(3, 2);
    w.put(0x7a, 8);
    let data = w.bytes();
    let mut reader = BitReader::new(&data);
    let tags = parse_tags(&mut reader, &strings, &remap_a).unwrap();
    assert_eq!(tags.len(), 7);
    assert!(matches!(tags[0], Tag::Pair { value: 42 }));
    assert!(matches!(tags[1], Tag::U32 { value: 0xCAFEBABE }));
    assert!(matches!(tags[2], Tag::U32F32 { u32_val: 0x3F800000 }));
    match &tags[2] {
        Tag::U32F32 { u32_val } => assert_eq!(f32::from_bits(*u32_val), 1.0f32),
        _ => panic!("expected a float tag"),
    }
    match &tags[3] {
        Tag::List { items } => assert_eq!(items, &vec!["two".to_string()]),
        _ => panic!("expected a list"),
    }
    match &tags[4] {
        Tag::List { items } => assert!(items.is_empty()),
        _ => panic!("expected a list"),
    }
    match &tags[5] {
        Tag::List { items } => assert_eq!(items, &vec!["five".to_string(), "six".to_string()]),
        _ => panic!("expected a list"),
    }
    assert!(matches!(tags[6], Tag::Variant { subtype: 3 }));
    assert_eq!(position(&reader), w.len());
}

#[test]
fn unknown_tag_bytes_are_skipped() {
    let strings = ten();
    let remap_a = remap(vec![1], 1);
    let data = [0x00, 0x99, 0x62, 0x00, 0x00, 0x00, 0x05, 0xFF, 0x7a];
    let mut reader = BitReader::new(&data);
    let tags = parse_tags(&mut reader, &strings, &remap_a).unwrap();
    assert_eq!(tags.len(), 1);
    assert!(matches!(tags[0], Tag::U32 { value: 5 }));
}

#[test]
fn tags_without_terminator_fail() {
    let strings = ten();
    let remap_a = remap(vec![1], 1);
    for len in 0..64 {
        let data = vec![0u8; len];
        let mut reader = BitReader::new(&data);
        assert!(parse_tags(&mut reader, &strings, &remap_a).is_none());
        let data = vec![0x62u8; len];
        let mut reader = BitReader::new(&data);
        assert!(parse_tags(&mut reader, &strings, &remap_a).is_none());
    }
}

#[test]
fn record_without_terminator_fails() {
    let strings = ten();
    let remap_a = remap(vec![1], 1);
    let data = vec![0x11u8; 40];
    let mut reader = BitReader::new(&data);
    assert!(parse_record(&mut reader, &strings, &[], &remap_a).is_none());
}

#[test]
fn pair_tag_fails_on_index_past_remap() {
    let strings = ten();
    let remap_a = remap(vec![7, 42], 2);
    let mut w = BitWriter::new();
    w.put(0x61, 8).put(2, 2).put(0x7a, 8);
    let data = w.bytes();
    let mut reader = BitReader::new(&data);
    assert!(parse_tags(&mut reader, &strings, &remap_a).is_none());
    assert_eq!(position(&reader), 10);
}

#[test]
fn pair_tag_with_unusable_remap_width_fails() {
    let strings = ten();
    let remap_a = FixedWidthArray { count: 1, width: 40, values: vec![1] };
    let data = [0x61u8, 0, 0, 0, 0, 0, 0, 0x7a];
    let mut reader = BitReader::new(&data);
    assert!(parse_tags(&mut reader, &strings, &remap_a).is_none());
    assert_eq!(position(&reader), 8);
}

#[test]
fn entries_of_every_type() {
    let strings = ten();
    let mut w = BitWriter::new();
    w.put(1, 2).put(3, 4);
    w.put(2, 2).put(4, 4);
    w.put(3, 2).put(5, 4).put(6, 4);
    w.put(0, 2);
    let data = w.bytes();
    let mut reader = BitReader::new(&data);
    let entries = parse_entries(&mut reader, &strings).unwrap();
    assert_eq!(entries.len(), 3);
    assert_eq!(entries.first_key(), Some("three"));
    assert_eq!(entries.key_at(1), Some("four"));
    assert_eq!(entries.key_at(2), Some("five"));
    assert!(matches!(entries.get("three"), Some(EntryValue::Present)));
    assert!(matches!(entries.get("four"), Some(EntryValue::Present)));
    match entries.get("five") {
        Some(EntryValue::Ref(target)) => assert_eq!(target, "six"),
        _ => panic!("expected a reference"),
    }
    assert!(entries.get("six").is_none());
    assert_eq!(position(&reader), w.len());
}

#[test]
fn later_entry_replaces_earlier_of_same_name() {
    let strings = ten();
    let mut w = BitWriter::new();
    w.put(1, 2).put(3, 4);
    w.put(1, 2).put(4, 4);
    w.put(3, 2).put(3, 4).put(8, 4);
    w.put(0, 2);
    let data = w.bytes();
    let mut reader = BitReader::new(&data);
    let entries = parse_entries(&mut reader, &strings).unwrap();
    assert_eq!(entries.len(), 2);
    assert_eq!(entries.first_key(), Some("three"));
    match entries.get("three") {
        Some(EntryValue::Ref(target)) => assert_eq!(target, "eight"),
        _ => panic!("expected a reference"),
    }
}

#[test]
fn entries_fail_on_truncation_and_bad_index() {
    let strings = ten();
    let mut w = BitWriter::new();
    w.put(1, 2).put(3, 4).put(3, 2);
    let data = w.bytes();
    let mut reader = BitReader::new(&data);
    assert!(parse_entries(&mut reader, &strings).is_none());
    let mut w = BitWriter::new();
    w.put(1, 2).put(15, 4).put(0, 2);
    let data = w.bytes();
    let mut reader = BitReader::new(&data);
    assert!(parse_entries(&mut reader, &strings).is_none());
    assert_eq!(position(&reader), 6);
}

fn serial_table() -> StringTable {
    table(&[
        "none",         // 0
        "serialindex",  // 1
        "status",       // 2
        "Active",       // 3
        "index",        // 4
        "42",           // 5
        "_category",    // 6
        "inv_type",     // 7
        "_scope",       // 8
        "Root",         // 9
        "BOR_SG_Grip",  // 10
        "damage",       // 11
        "high",         // 12
        "firmware",     // 13
        "weapon",       // 14
        "x7",           // 15
    ])
}

fn put_serial_object(w: &mut BitWriter) {
    w.put(1, 4);
    w.put(2, 4).put(3, 4);
    w.put(4, 4).put(5, 4);
    w.put(6, 4).put(7, 4);
    w.put(8, 4).put(9, 4);
}

#[test]
fn nested_fields_with_serial_index_object() {
    let strings = serial_table();
    assert_eq!(bit_width(strings.len()), 4);
    let mut w = BitWriter::new();
    w.put(11, 4).put(12, 4);
    put_serial_object(&mut w);
    w.put(0, 4);
    let data = w.bytes();
    let mut reader = BitReader::new(&data);
    let fields = parse_nested_fields(&mut reader, &strings).unwrap();
    assert_eq!(fields.len(), 2);
    match fields.get("damage") {
        Some(FieldValue::String(s)) => assert_eq!(s, "high"),
        _ => panic!("expected a string field"),
    }
    match fields.get("serialindex") {
        Some(FieldValue::Object(object)) => {
            assert_eq!(object.len(), 4);
            assert_eq!(object.get("status").map(|s| s.as_str()), Some("Active"));
            assert_eq!(object.get("index").map(|s| s.as_str()), Some("42"));
            assert_eq!(object.get("_category").map(|s| s.as_str()), Some("inv_type"));
            assert_eq!(object.get("_scope").map(|s| s.as_str()), Some("Root"));
            assert_eq!(object.key_at(0), Some("status"));
            assert_eq!(object.key_at(3), Some("_scope"));
        }
        _ => panic!("expected an object"),
    }
    assert_eq!(position(&reader), w.len());
}

#[test]
fn serial_index_object_may_end_early() {
    let strings = serial_table();
    let mut w = BitWriter::new();
    w.put(1, 4);
    w.put(4, 4).put(5, 4);
    w.put(0, 4);
    w.put(0, 4);
    let data = w.bytes();
    let mut reader = BitReader::new(&data);
    let fields = parse_nested_fields(&mut reader, &strings).unwrap();
    match fields.get("serialindex") {
        Some(FieldValue::Object(object)) => {
            assert_eq!(object.len(), 1);
            assert_eq!(object.get("index").map(|s| s.as_str()), Some("42"));
        }
        _ => panic!("expected an object"),
    }
}

#[test]
fn dep_entries_for_each_dependency_table() {
    let strings = serial_table();
    let deps = vec!["firmware".to_string(), "weapon".to_string()];
    let mut w = BitWriter::new();
    // table 0: a plain entry, then a reference, then the end code
    w.put(1, 2).put(10, 4);
    w.put(3, 2).put(11, 4).put(12, 4);
    w.put(0, 2);
    // table 1: an entry with nested fields, then an entry named by the sentinel
    w.put(2, 2).put(10, 4);
    put_serial_object(&mut w);
    w.put(0, 4);
    w.put(1, 2).put(0, 4);
    let data = w.bytes();
    let mut reader = BitReader::new(&data);
    let entries = parse_dep_entries(&mut reader, &strings, &deps).unwrap();
    assert_eq!(entries.len(), 3);
    assert_eq!(entries[0].dep_table_name, "firmware");
    assert_eq!(entries[0].dep_table_id, 0);
    assert_eq!(entries[0].name, "BOR_SG_Grip");
    assert!(entries[0].fields.is_empty());
    assert_eq!(entries[1].name, "damage");
    match entries[1].fields.get("ref") {
        Some(FieldValue::String(s)) => assert_eq!(s, "high"),
        _ => panic!("expected a reference field"),
    }
    assert_eq!(entries[2].dep_table_name, "weapon");
    assert_eq!(entries[2].dep_table_id, 1);
    assert!(entries[2].fields.contains_key("serialindex"));
    assert_eq!(position(&reader), w.len());
}

#[test]
fn dep_entries_without_tables_read_nothing() {
    let strings = serial_table();
    let data = [0xFFu8; 4];
    let mut reader = BitReader::new(&data);
    let entries = parse_dep_entries(&mut reader, &strings, &[]).unwrap();
    assert!(entries.is_empty());
    assert_eq!(position(&reader), 0);
}

#[test]
fn dep_entries_fail_when_stream_ends() {
    let strings = serial_table();
    let deps = vec!["firmware".to_string()];
    let mut w = BitWriter::new();
    w.put(1, 2).put(10, 4).put(1, 2);
    let data = w.bytes();
    assert_eq!(data.len(), 1);
    let mut reader = BitReader::new(&data);
    assert!(parse_dep_entries(&mut reader, &strings, &deps).is_none());
    assert_eq!(position(&reader), 8);
}

fn serial_document_bytes() -> Vec<u8> {
    let mut w = BitWriter::new();
    // remap_a = {1, 8, [42]}, remap_b = {0, 1, []}
    w.put(1, 24).put(8, 8).put(42, 8);
    w.put(0, 24).put(1, 8);
    // record: byte count, tags, entries, dependency entries
    w.put(0, 32);
    w.put(0x61, 8).put(0, 8).put(0x7a, 8);
    w.put(1, 2).put(14, 4).put(0, 2);
    w.put(2, 2).put(10, 4);
    put_serial_object(&mut w);
    w.put(0, 4);
    w.put(0, 2);
    w.bytes()
}

#[test]
fn serial_index_is_extracted_from_dep_entry() {
    let strings = serial_table();
    let data = serial_document_bytes();
    let deps = vec!["firmware".to_string()];
    let doc = assemble_document(&data, &strings, 0, "inv", deps).unwrap();
    assert_eq!(doc.table_id, "inv");
    assert_eq!(doc.deps, vec!["firmware"]);
    assert_eq!(doc.records.len(), 1);
    assert_eq!(doc.records[0].dep_entries.len(), 1);
    let found = extract_serial_indices(&doc);
    assert_eq!(found.len(), 1);
    assert_eq!(found[0].item_type, "weapon");
    assert_eq!(found[0].part_name, "BOR_SG_Grip");
    assert_eq!(found[0].index, 42);
    assert_eq!(found[0].scope, "Root");
    assert_eq!(found[0].category, "inv_type");
    assert_eq!(found[0].slot.as_deref(), Some("firmware"));
}

#[test]
fn serial_index_defaults_when_fields_are_absent() {
    let strings = serial_table();
    let mut w = BitWriter::new();
    w.put(0, 24).put(1, 8);
    w.put(0, 24).put(1, 8);
    w.put(0, 32);
    w.put(0x7a, 8);
    w.put(0, 2);
    w.put(2, 2).put(10, 4);
    w.put(1, 4).put(4, 4).put(5, 4).put(0, 4);
    w.put(0, 4);
    w.put(2, 2).put(11, 4);
    w.put(1, 4).put(4, 4).put(15, 4).put(0, 4);
    w.put(0, 4);
    w.put(0, 2);
    let data = w.bytes();
    let doc = assemble_document(&data, &strings, 0, "inv", vec!["firmware".to_string()]).unwrap();
    assert_eq!(doc.records.len(), 1);
    assert_eq!(doc.records[0].dep_entries.len(), 2);
    let found = extract_serial_indices(&doc);
    assert_eq!(found.len(), 1);
    assert_eq!(found[0].item_type, "Unknown");
    assert_eq!(found[0].part_name, "BOR_SG_Grip");
    assert_eq!(found[0].scope, "Unknown");
    assert_eq!(found[0].category, "Unknown");
}

#[test]
fn document_with_single_pair_tag() {
    let strings = ten();
    let mut w = BitWriter::new();
    w.put(1, 24).put(8, 8).put(42, 8);
    w.put(0, 24).put(1, 8);
    w.put(3, 32);
    w.put(0x61, 8).put(0, 8).put(0x7a, 8);
    w.put(0, 2);
    let data = w.bytes();
    let doc = parse_document(&data, &strings, 0).unwrap();
    assert_eq!(doc.table_id, "inv");
    assert!(doc.deps.is_empty());
    assert_eq!(doc.remap_a.count, 1);
    assert_eq!(doc.remap_a.width, 8);
    assert_eq!(doc.remap_a.values, vec![42]);
    assert_eq!(doc.remap_b.count, 0);
    assert_eq!(doc.remap_b.width, 1);
    assert!(doc.remap_b.values.is_empty());
    assert_eq!(doc.records.len(), 1);
    assert_eq!(doc.records[0].tags.len(), 1);
    assert!(matches!(doc.records[0].tags[0], Tag::Pair { value: 42 }));
    assert!(doc.records[0].entries.is_empty());
    assert!(doc.records[0].dep_entries.is_empty());
}

#[test]
fn document_at_an_offset() {
    let strings = ten();
    let mut data = vec![0xEEu8; 5];
    let mut w = BitWriter::new();
    w.put(1, 24).put(8, 8).put(42, 8);
    w.put(0, 24).put(1, 8);
    data.extend(w.bytes());
    let doc = parse_document(&data, &strings, 5).unwrap();
    assert_eq!(doc.remap_a.values, vec![42]);
    assert!(doc.records.is_empty());
    assert!(parse_document(&data, &strings, data.len()).is_none());
    assert!(parse_document(&data, &strings, data.len() + 1).is_none());
    assert!(parse_document(&data, &strings, usize::MAX).is_none());
}

#[test]
fn document_keeps_records_before_a_failure() {
    let strings = ten();
    let mut w = BitWriter::new();
    w.put(0, 24).put(1, 8);
    w.put(0, 24).put(1, 8);
    for _ in 0..3 {
        w.put(0, 32).put(0x7a, 8).put(1, 2).put(4, 4).put(0, 2);
    }
    // a record whose tag section never ends
    w.put(0, 32).put(0x62, 8).put(7, 32).put(0x62, 8);
    let data = w.bytes();
    let doc = parse_document(&data, &strings, 0).unwrap();
    assert_eq!(doc.records.len(), 3);
    assert_eq!(doc.records[2].entries.first_key(), Some("four"));
}

#[test]
fn document_stops_at_record_ceiling() {
    let strings = ten();
    let mut w = BitWriter::new();
    w.put(0, 24).put(1, 8);
    w.put(0, 24).put(1, 8);
    for i in 0..150 {
        w.put(i, 32).put(0x62, 8).put(i, 32).put(0x7a, 8).put(0, 2);
    }
    let data = w.bytes();
    let doc = parse_document(&data, &strings, 0).unwrap();
    assert_eq!(doc.records.len(), 100);
    // the records are the first hundred of the stream, in order
    for (i, record) in doc.records.iter().enumerate() {
        assert!(matches!(record.tags[0], Tag::U32 { value } if value == i as u32));
    }
}

#[test]
fn document_below_the_ceiling_is_whole() {
    let strings = ten();
    for count in [0usize, 1, 99, 100, 101] {
        let mut w = BitWriter::new();
        w.put(0, 24).put(1, 8);
        w.put(0, 24).put(1, 8);
        for _ in 0..count {
            w.put(0, 32).put(0x7a, 8).put(0, 2);
        }
        // whole bytes, so that no stray bits are left for a further record
        let data = w.bytes();
        let doc = parse_document(&data, &strings, 0).unwrap();
        assert_eq!(doc.records.len(), count.min(100));
    }
}

#[test]
fn document_fails_without_remap_arrays() {
    let strings = ten();
    assert!(parse_document(&[], &strings, 0).is_none());
    assert!(parse_document(&[0, 0, 1, 8], &strings, 0).is_none());
    assert!(parse_document(&[0, 0, 0, 1, 0, 0, 0, 0], &strings, 0).is_none());
    assert!(parse_document(&[0, 0, 0, 1, 0, 0, 0, 1], &strings, 0).is_some());
}

#[test]
fn combined_table_appends_auxiliary_strings_in_order() {
    let primary = table(&["a", "b"]);
    let inline = vec!["cat1".to_string(), "cat2".to_string()];
    let both = create_combined_string_table(&primary, &inline);
    assert_eq!(both.strings, vec!["a", "b", "cat1", "cat2"]);
    let full = combined_string_table(&primary, &inline, Some("abbr"), "inv");
    assert_eq!(full.strings, vec!["a", "b", "cat1", "cat2", "abbr", "inv"]);
    assert_eq!(full.get(4), Some("abbr"));
    assert_eq!(full.get(5), Some("inv"));
    assert_eq!(full.get(6), None);
    let bare = combined_string_table(&primary, &[], None, "inv");
    assert_eq!(bare.strings, vec!["a", "b", "inv"]);
    assert_eq!(bit_width(primary.len()), 1);
    assert_eq!(bit_width(bare.len()), 2);
}

#[test]
fn string_table_lookup_checks_range() {
    let mut t = StringTable::new();
    assert!(t.is_empty());
    assert_eq!(t.get(0), None);
    t.push("first".to_string());
    assert_eq!(t.len(), 1);
    assert_eq!(t.get(0), Some("first"));
    assert_eq!(t.get(1), None);
    assert_eq!(t.get(usize::MAX), None);
}

#[test]
fn field_map_keeps_first_insertion_order() {
    let mut m: FieldMap<String> = FieldMap::new();
    assert!(m.is_empty());
    assert_eq!(m.first_key(), None);
    m.insert("b".to_string(), "1".to_string());
    m.insert("a".to_string(), "2".to_string());
    m.insert("b".to_string(), "3".to_string());
    assert_eq!(m.len(), 2);
    assert_eq!(m.first_key(), Some("b"));
    assert_eq!(m.key_at(1), Some("a"));
    assert_eq!(m.key_at(2), None);
    assert_eq!(m.get("b").map(|s| s.as_str()), Some("3"));
    assert_eq!(m.value_at(0).map(|s| s.as_str()), Some("3"));
    assert!(m.contains_key("a"));
    assert!(!m.contains_key("c"));
    let copy = m.clone();
    assert_eq!(copy.len(), 2);
    assert_eq!(copy.get("a").map(|s| s.as_str()), Some("2"));
}

#[test]
fn sentinel_strings() {
    assert!(is_sentinel_str(""));
    assert!(is_sentinel_str("none"));
    assert!(is_sentinel_str("None"));
    assert!(is_sentinel_str("NONE"));
    assert!(is_sentinel_str("nOnE"));
    assert!(!is_sentinel_str("non"));
    assert!(!is_sentinel_str("nones"));
    assert!(!is_sentinel_str(" none"));
    assert!(!is_sentinel_str("n\u{f6}ne"));
    assert!(!is_sentinel_str("null"));
}

#[test]
fn decimal_numerals() {
    let cases = [
        "0", "7", "42", "007", "+5", "+", "", "-1", "4294967295", "4294967296",
        "99999999999999999999", " 1", "1 ", "1_000", "0x10", "++1", "1+", "٣", "12a",
        "000000000000000000001",
    ];
    for text in cases {
        assert_eq!(parse_u32(text), text.parse::<u32>().ok(), "{:?}", text);
    }
    assert_eq!(parse_u32("4294967295"), Some(u32::MAX));
    assert_eq!(parse_u32("541"), Some(541));
}

#[test]
fn string_equality() {
    assert!(str_eq("", ""));
    assert!(str_eq("serialindex", "serialindex"));
    assert!(!str_eq("serialindex", "serialIndex"));
    assert!(!str_eq("a", "ab"));
}

#[test]
fn string_lists_are_sized_to_the_primary_table() {
    let primary = table(&["a", "none"]);
    let inline = vec!["x".to_string(), "y".to_string()];
    let combined = combined_string_table(&primary, &inline, None, "inv");
    assert_eq!(combined.len(), 5);
    assert_eq!(combined.primary_len(), 2);
    assert_eq!(bit_width(combined.primary_len()), 1);
    assert_eq!(bit_width(combined.len()), 3);
    let remap_a = remap(vec![1], 1);
    // a list of one-bit indices, then an entry named by a three-bit index
    let mut w = BitWriter::new();
    w.put(0x64, 8).put(0, 1).put(1, 1).put(0x7a, 8);
    w.put(1, 2).put(4, 3).put(0, 2);
    let data = w.bytes();
    let mut reader = BitReader::new(&data);
    let tags = parse_tags(&mut reader, &combined, &remap_a).unwrap();
    assert_eq!(position(&reader), 18);
    match &tags[0] {
        Tag::List { items } => assert_eq!(items, &vec!["a".to_string()]),
        _ => panic!("expected a list"),
    }
    let entries = parse_entries(&mut reader, &combined).unwrap();
    assert_eq!(entries.first_key(), Some("inv"));
    assert_eq!(position(&reader), w.len());
}

#[test]
fn pushed_strings_join_the_primary_table_until_auxiliary_ones_arrive() {
    let mut t = StringTable::new();
    t.push("a".to_string());
    t.push("b".to_string());
    assert_eq!(t.primary_len(), 2);
    t.push_auxiliary("x".to_string());
    assert_eq!((t.len(), t.primary_len()), (3, 2));
    t.push("c".to_string());
    assert_eq!((t.len(), t.primary_len()), (4, 2));
    assert_eq!(t.get(3), Some("c"));
}
