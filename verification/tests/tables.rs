use bl4_ncs::locate::{find_binary_section, resolve_binary_offset};
use bl4_ncs::order::{stable_sort, text_less};
use bl4_ncs::part_index::{
    collect_part_indices, extract_null_strings, parse_part_name, sort_part_indices, PartIndex,
};
use bl4_ncs::parts::{parse_category_id, PartEntry, PartsDatabase};
use bl4_ncs::records::{
    decode_hex_line, decode_hex_lines, is_whitespace_char, record_format, RecordError,
    RecordFormat,
};
use bl4_ncs::script_objects::{object_path, script_object_entries, ScriptObject};
use bl4_ncs::text::{decimal_text, hex_text};
use bl4_ncs::tsv::{
    count_pools, is_parts_header, line_ranges, parse_category_tsv, parse_names_tsv,
    parse_parts_tsv, parse_pool_tsv, part_pools_tsv, pool_entries, render_pools,
};

fn lines_of(text: &str) -> Vec<String> {
    let chars: Vec<char> = text.chars().collect();
    line_ranges(&chars)
        .into_iter()
        .map(|(a, b)| chars[a..b].iter().collect::<String>())
        .collect()
}

#[test]
fn lines_agree_with_std() {
    let texts = [
        "", "a", "a\n", "a\nb", "a\r\nb\r\n", "\n", "\n\n", "a\n\nb", "a\rb\n", "\r\n", "\r",
        "a\r", "a\n\r", "x\r\r\ny", "tab\tsep\nline2\t\n", "\u{f6}\n\u{1F600}\r\n",
    ];
    for text in texts {
        let expected: Vec<String> = text.lines().map(|l| l.to_string()).collect();
        assert_eq!(lines_of(text), expected, "{:?}", text);
    }
}

fn std_parts(content: &str) -> Vec<(String, i64, i64)> {
    content
        .lines()
        .skip(1)
        .filter_map(|line| {
            let mut cols = line.splitn(3, '\t');
            let category = cols.next()?.parse::<i64>().ok()?;
            let index = cols.next()?.parse::<i64>().ok()?;
            let name = cols.next()?.to_string();
            Some((name, category, index))
        })
        .collect()
}

fn plain(parts: &[PartEntry]) -> Vec<(String, i64, i64)> {
    parts.iter().map(|p| (p.name.clone(), p.category, p.index)).collect()
}

#[test]
fn test_parts_database_load_tsv() {
    let content = "category\tindex\tname\n1\t0\tTEST.part_01\n1\t1\tTEST.part_02\n";
    assert!(is_parts_header(content));

    let db = PartsDatabase { parts: parse_parts_tsv(content) };
    assert_eq!(db.parts.len(), 2);
    assert_eq!(db.parts[0].name, "TEST.part_01");
    assert_eq!(db.parts[0].category, 1);
    assert_eq!(db.parts[1].index, 1);
}

#[test]
fn test_parts_database_load_dir() {
    let files = [
        ("vladof_ar-5", "index\tname\n0\tVLA_AR.part_barrel_01\n"),
        ("jakobs_pistol-3", "index\tname\n0\tJAK_PS.part_barrel_01\n1\tJAK_PS.part_grip_01\n"),
    ];
    let mut parts = Vec::new();
    for (stem, content) in files {
        let category = parse_category_id(stem).unwrap();
        parts.extend(parse_category_tsv(content, category));
    }
    let db = PartsDatabase { parts: stable_sort(parts) };
    assert_eq!(db.parts.len(), 3);

    // Should be sorted by (category, index)
    assert_eq!(db.parts[0].category, 3);
    assert_eq!(db.parts[0].index, 0);
    assert_eq!(db.parts[2].category, 5);
}

#[test]
fn parts_table_agrees_with_splitting() {
    let contents = [
        "",
        "category\tindex\tname",
        "category\tindex\tname\n",
        "h\n3\t0\tJAK\n",
        "h\n3\t0\n4\t1\tb\n",
        "h\nx\t0\ta\n3\ty\tb\n-3\t+7\tname with\ttab\n",
        "h\r\n3\t0\tJAK_PS.part_barrel\r\n5\t1\tVLA\r\n",
        "h\n\n3\t0\t\n \t1\t2\n",
        "1\t2\tfirst line is a header\n9223372036854775807\t-9223372036854775808\tz",
        "h\n9223372036854775808\t0\ttoo big\n3\t 1\tblank\n",
    ];
    for content in contents {
        assert_eq!(plain(&parse_parts_tsv(content)), std_parts(content), "{:?}", content);
    }
}

#[test]
fn category_table() {
    let content = "index\tname\n0\tJAK_PS.part_barrel_01\n1\tJAK_PS.part_grip_01\nbad\tx\nnotab\n2\t\n";
    let parts = parse_category_tsv(content, 3);
    assert_eq!(
        plain(&parts),
        vec![
            ("JAK_PS.part_barrel_01".to_string(), 3, 0),
            ("JAK_PS.part_grip_01".to_string(), 3, 1),
            ("".to_string(), 3, 2),
        ]
    );
    assert!(parse_category_tsv("index\tname", 3).is_empty());
}

#[test]
fn pool_tables() {
    let content = "category\tindex\tname\n3\t0\tJAK_PS_barrel_01\n3\tx\tJAK_PS_grip_01\n5\t0\tVLA\n0\t0\tzero\n-1\t0\tneg\n7\tonly two\nq\t0\tbad\n";
    assert_eq!(
        parse_pool_tsv(content),
        vec![
            (3, "JAK_PS_barrel_01".to_string()),
            (3, "JAK_PS_grip_01".to_string()),
            (5, "VLA".to_string()),
        ]
    );
    let names = "index\tname\n0\tb\nx\ta\nnone\n1\tc\td\n";
    assert_eq!(parse_names_tsv(names), vec!["b", "a", "c\td"]);
}

#[test]
fn parts_header() {
    assert!(is_parts_header("category\tindex\tname\n"));
    assert!(is_parts_header("category\t"));
    assert!(!is_parts_header("category"));
    assert!(!is_parts_header("{\"parts\": []}"));
    assert!(!is_parts_header(""));
}

#[test]
fn parts_sort_by_category_then_index() {
    let entry = |name: &str, category: i64, index: i64| PartEntry {
        name: name.to_string(),
        category,
        index,
    };
    let parts = vec![
        entry("e", 5, 0),
        entry("b", 3, 1),
        entry("a", 3, 0),
        entry("b2", 3, 1),
        entry("n", -1, 9),
    ];
    let mut expected = plain(&parts);
    expected.sort_by_key(|p| (p.1, p.2));
    assert_eq!(plain(&stable_sort(parts)), expected);
}

#[test]
fn strings_sort_as_std_sorts_them() {
    let words = ["pear", "apple", "", "Apple", "app", "\u{f6}l", "zebra", "apple", "a\u{1F600}"];
    let owned: Vec<String> = words.iter().map(|w| w.to_string()).collect();
    let mut expected = owned.clone();
    expected.sort();
    assert_eq!(stable_sort(owned), expected);
    for a in words {
        for b in words {
            assert_eq!(text_less(a, b), a < b, "{:?} {:?}", a, b);
        }
    }
}

#[test]
fn white_space_is_what_std_says() {
    for code in 0..=0x10FFFFu32 {
        if let Some(c) = char::from_u32(code) {
            assert_eq!(is_whitespace_char(c), c.is_whitespace(), "{:x}", code);
        }
    }
}

fn std_hex_line(line: &str) -> Option<Vec<u8>> {
    if !line.is_ascii() || line.len() % 2 != 0 {
        return None;
    }
    (0..line.len()).step_by(2).map(|i| u8::from_str_radix(&line[i..i + 2], 16).ok()).collect()
}

#[test]
fn hex_line_agrees_with_radix_parsing() {
    let lines = ["", "00", "ff", "FF", "0a1B", "+f", "+F0a", "f+", "-1", "zz", "0x", "12 4", "++"];
    for line in lines {
        let chars: Vec<char> = line.chars().collect();
        assert_eq!(decode_hex_line(&chars), std_hex_line(line), "{:?}", line);
    }
    let odd: Vec<char> = "abc".chars().collect();
    assert_eq!(decode_hex_line(&odd), None);
    let wide: Vec<char> = "\u{ff10}\u{ff11}".chars().collect();
    assert_eq!(decode_hex_line(&wide), None);
}

#[test]
fn hex_lines() {
    assert_eq!(
        decode_hex_lines("0102\n\n  ff00aa \r\n\t\n+1\n"),
        Ok(vec![vec![1, 2], vec![0xff, 0, 0xaa], vec![1]])
    );
    assert_eq!(decode_hex_lines(""), Ok(vec![]));
    assert_eq!(decode_hex_lines("\u{a0}0a\u{3000}"), Ok(vec![vec![10]]));
    assert_eq!(decode_hex_lines("01\nxy\n02"), Err(RecordError::InvalidHex));
    assert_eq!(decode_hex_lines("01\n012"), Err(RecordError::InvalidHex));
    assert_eq!(decode_hex_lines("01 02"), Err(RecordError::InvalidHex));
}

#[test]
fn record_formats() {
    assert_eq!(record_format("length16"), Ok(RecordFormat::Length16));
    assert_eq!(record_format("lines"), Ok(RecordFormat::Lines));
    assert_eq!(record_format("Lines"), Err(RecordError::UnknownFormat));
    assert_eq!(record_format(""), Err(RecordError::UnknownFormat));
}

fn std_null_strings(data: &[u8]) -> Vec<String> {
    let mut strings = Vec::new();
    let mut current = Vec::new();
    for &b in data {
        if b == 0 {
            if !current.is_empty() {
                strings.push(String::from_utf8(current.clone()).unwrap());
                current.clear();
            }
        } else if (32..=126).contains(&b) {
            current.push(b);
        } else {
            current.clear();
        }
    }
    strings
}

#[test]
fn null_terminated_strings() {
    assert_eq!(extract_null_strings(b"abc\0de\0"), vec!["abc", "de"]);
    assert_eq!(extract_null_strings(b"abc\0de"), vec!["abc"]);
    assert_eq!(extract_null_strings(b"\0\0a b\0"), vec!["a b"]);
    assert_eq!(extract_null_strings(b"ab\x01cd\0"), vec!["cd"]);
    assert_eq!(extract_null_strings(b"ab\x7f\0cd\xff\0~\0"), vec!["~"]);
    assert!(extract_null_strings(b"").is_empty());
    let mut data = Vec::new();
    for i in 0..2000u32 {
        data.push((i.wrapping_mul(2654435761) >> 13) as u8 % 140);
    }
    assert_eq!(extract_null_strings(&data), std_null_strings(&data));
}

fn std_part_name(s: &str) -> Option<(String, String)> {
    let parts: Vec<&str> = s.splitn(3, '_').collect();
    if parts.len() < 3 {
        return None;
    }
    if !["BOR", "DAD", "JAK", "MAL", "ORD", "TED", "TOR", "VLA"].contains(&parts[0]) {
        return None;
    }
    if !["AR", "PS", "SG", "SM", "SR"].contains(&parts[1]) {
        return None;
    }
    let rest = parts[2];
    if rest.is_empty() || !rest.chars().all(|c| c.is_ascii_alphanumeric() || c == '_') {
        return None;
    }
    Some((parts[0].to_string(), parts[1].to_string()))
}

#[test]
fn part_names() {
    assert_eq!(
        parse_part_name("BOR_SG_Grip_01"),
        Some(("BOR".to_string(), "SG".to_string()))
    );
    let names = [
        "BOR_SG_Grip_01", "BOR_SG_", "BOR_SG", "BOR__x", "XXX_SG_Grip", "BOR_HW_Grip", "bor_sg_grip",
        "JAK_PS_a.b", "JAK_PS_a b", "VLA_SR__", "VLA_SR_\u{e9}", "", "_", "__", "TED_AR_x_y_z",
        "TOR_SM_9", " MAL_SM_x", "ORD_SR_Barrel", "DAD_PS_Zipper",
    ];
    for name in names {
        assert_eq!(parse_part_name(name), std_part_name(name), "{:?}", name);
    }
}

fn owned(strings: &[&str]) -> Vec<String> {
    strings.iter().map(|s| s.to_string()).collect()
}

fn plain_index(parts: &[PartIndex]) -> Vec<(String, u32, String, String)> {
    parts
        .iter()
        .map(|p| {
            (p.part_name.clone(), p.serial_index, p.manufacturer.clone(), p.weapon_type.clone())
        })
        .collect()
}

#[test]
fn part_indices_follow_part_names() {
    let strings = owned(&[
        "BOR_SG_Grip_01", "status", "Active", "12", "JAK_PS_Barrel", "VLA_AR_Mag", "7", "x",
        "TED_SM_Body", "1000", "999", "ORD_SR_Scope", "a", "b", "c", "d", "e", "f", "g", "h", "i",
        "5",
        "DAD_PS_Last",
    ]);
    let parts = collect_part_indices(&strings);
    assert_eq!(
        plain_index(&parts),
        vec![
            ("BOR_SG_Grip_01".to_string(), 12, "BOR".to_string(), "SG".to_string()),
            ("VLA_AR_Mag".to_string(), 7, "VLA".to_string(), "AR".to_string()),
            ("TED_SM_Body".to_string(), 999, "TED".to_string(), "SM".to_string()),
        ]
    );
    assert!(collect_part_indices(&[]).is_empty());
    assert!(collect_part_indices(&owned(&["BOR_SG_Grip"])).is_empty());
}

#[test]
fn index_window_reaches_nine_strings_ahead() {
    let mut strings = owned(&["BOR_SG_Grip"]);
    strings.extend(owned(&["a"; 8]));
    strings.push("3".to_string());
    assert_eq!(collect_part_indices(&strings).len(), 1);
    let mut strings = owned(&["BOR_SG_Grip"]);
    strings.extend(owned(&["a"; 9]));
    strings.push("3".to_string());
    assert!(collect_part_indices(&strings).is_empty());
}

#[test]
fn part_indices_sort_by_manufacturer_type_and_index() {
    let part = |name: &str, index: u32, m: &str, w: &str| PartIndex {
        part_name: name.to_string(),
        serial_index: index,
        manufacturer: m.to_string(),
        weapon_type: w.to_string(),
    };
    let parts = vec![
        part("d", 4, "VLA", "AR"),
        part("b", 9, "BOR", "SG"),
        part("c", 2, "BOR", "SM"),
        part("a", 1, "BOR", "SG"),
        part("a2", 1, "BOR", "SG"),
        part("e", 0, "JAK", "PS"),
    ];
    let mut expected = plain_index(&parts);
    expected.sort_by(|a, b| (&a.2, &a.3, a.1).cmp(&(&b.2, &b.3, b.1)));
    assert_eq!(plain_index(&sort_part_indices(parts)), expected);
}

fn object(name: &str, hash: u64, outer: Option<u64>) -> ScriptObject {
    ScriptObject { name: name.to_string(), hash, outer, cdo_class: None }
}

#[test]
fn script_object_paths() {
    let objects = vec![
        object("/Script/GbxInventory", 0xA1, None),
        object("InventoryPartDef", 0xB2, Some(0xA1)),
        object("Default__InventoryPartDef", 0xC3, Some(0xB2)),
        object("Orphan", 0xD4, Some(0xFFFF)),
    ];
    let n = objects.len();
    assert_eq!(object_path(&objects, 0, n), "/Script/GbxInventory");
    assert_eq!(object_path(&objects, 1, n), "/Script/GbxInventory.InventoryPartDef");
    assert_eq!(
        object_path(&objects, 2, n),
        "/Script/GbxInventory.InventoryPartDef.Default__InventoryPartDef"
    );
    assert_eq!(object_path(&objects, 3, n), "Orphan");
    assert_eq!(object_path(&objects, 2, 1), "InventoryPartDef.Default__InventoryPartDef");
    assert_eq!(object_path(&objects, 2, 0), "Default__InventoryPartDef");
}

#[test]
fn script_object_circle_ends() {
    let objects = vec![object("a", 1, Some(2)), object("b", 2, Some(1))];
    assert_eq!(object_path(&objects, 0, 2), "a.b.a");
}

#[test]
fn script_object_entries_carry_hex_hashes() {
    let mut objects = vec![
        object("/Script/GbxInventory", 0xA1, None),
        object("InventoryPartDef", 0x1234_ABCD_0000_00FF, Some(0xA1)),
    ];
    objects[1].cdo_class = Some(0);
    let entries = script_object_entries(&objects);
    assert_eq!(entries.len(), 2);
    assert_eq!(entries[0].hash, "A1");
    assert_eq!(entries[0].outer_hash, None);
    assert_eq!(entries[1].name, "InventoryPartDef");
    assert_eq!(entries[1].path, "/Script/GbxInventory.InventoryPartDef");
    assert_eq!(entries[1].hash, "1234ABCD000000FF");
    assert_eq!(entries[1].hash_value, 0x1234_ABCD_0000_00FF);
    assert_eq!(entries[1].outer_hash.as_deref(), Some("A1"));
    assert_eq!(entries[1].cdo_class_hash.as_deref(), Some("0"));
}

#[test]
fn numerals() {
    for n in [0u64, 1, 9, 10, 15, 16, 99, 100, 255, 256, 65535, 4294967295, u64::MAX] {
        assert_eq!(decimal_text(n), format!("{}", n));
        assert_eq!(hex_text(n), format!("{:X}", n));
    }
}

#[test]
fn binary_section_signature() {
    let data = [0u8, 5, 0, 0, 7, 8, 0, 0, 1, 2, 3, 0, 0];
    assert_eq!(find_binary_section(&data, 0), Some(4));
    assert_eq!(find_binary_section(&data, 4), Some(4));
    assert_eq!(find_binary_section(&data, 5), Some(9));
    assert_eq!(find_binary_section(&data, 10), None);
    assert_eq!(find_binary_section(&data, 100), None);
    assert_eq!(find_binary_section(&[1, 2, 0], 0), None);
    assert_eq!(find_binary_section(&[], 0), None);
    assert_eq!(find_binary_section(&[1, 2, 0, 0], 0), Some(0));
    assert_eq!(find_binary_section(&[1, 2, 0, 0], usize::MAX), None);
}

#[test]
fn binary_offset_from_header_or_scan() {
    let data = [9u8, 9, 9, 9, 0, 7, 8, 0, 0, 1];
    // the header offset is used when it lies behind the strings and inside the data
    assert_eq!(resolve_binary_offset(&data, 6, 4), Some(6));
    assert_eq!(resolve_binary_offset(&data, 4, 4), Some(4));
    // else the signature is searched from the end of the strings
    assert_eq!(resolve_binary_offset(&data, 2, 4), Some(5));
    assert_eq!(resolve_binary_offset(&data, 10, 4), Some(5));
    assert_eq!(resolve_binary_offset(&data, 0, 0), Some(0));
    assert_eq!(resolve_binary_offset(&data, 99, 6), None);
    assert_eq!(resolve_binary_offset(&[], 0, 0), None);
}

#[test]
fn test_handle_part_pools_from_file() {
    let input = "category\tindex\tname\n3\t0\tJAK_PS_barrel_01\n3\t1\tJAK_PS_grip_01\n5\t0\tVLA_AR_barrel_01\n";

    let content = part_pools_tsv(input);
    assert!(content.starts_with("category\tpart_name\n"));
    assert!(content.contains("3\tJAK_PS_barrel_01"));
    assert!(content.contains("5\tVLA_AR_barrel_01"));
}

#[test]
fn test_handle_part_pools_from_dir() {
    let files = [
        ("jakobs_pistol-3", "index\tname\n0\tJAK_PS_barrel_01\n1\tJAK_PS_grip_01\n"),
        ("vladof_ar-5", "index\tname\n0\tVLA_AR_barrel_01\n"),
    ];
    let mut pairs = Vec::new();
    for (stem, text) in files {
        let category = parse_category_id(stem).unwrap();
        for name in parse_names_tsv(text) {
            pairs.push((category, name));
        }
    }

    let content = render_pools(&stable_sort(pool_entries(pairs)));
    assert!(content.starts_with("category\tpart_name\n"));
    assert!(content.contains("3\tJAK_PS_barrel_01"));
    assert!(content.contains("5\tVLA_AR_barrel_01"));
}

#[test]
fn pools_table_is_ordered_by_category_and_name() {
    let input = "category\tindex\tname\n5\t0\tb\n3\t1\tz\n5\t1\ta\n3\t0\ta\n0\t0\tskipped\n3\t2\ta\n";
    assert_eq!(part_pools_tsv(input), "category\tpart_name\n3\ta\n3\ta\n3\tz\n5\ta\n5\tb\n");
    assert_eq!(part_pools_tsv(""), "category\tpart_name\n");
    let entries = stable_sort(pool_entries(parse_pool_tsv(input)));
    assert_eq!(entries.len(), 5);
    assert_eq!(count_pools(&entries), 2);
    assert_eq!(count_pools(&[]), 0);
    let negative = pool_entries(vec![(-12, "n".to_string()), (i64::MIN, "m".to_string())]);
    assert_eq!(
        render_pools(&negative),
        format!("category\tpart_name\n-12\tn\n{}\tm\n", i64::MIN)
    );
}

#[test]
fn section_markers_and_dividers() {
    let data = [1u8, 2, 0, 0, 3, 4, 0, 0, 0x7a, 0, 0, 0, 0, 0, 5, 6, 0, 0];
    assert_eq!(bl4_ncs::locate::find_section_markers(&data, 0), vec![4, 14]);
    assert_eq!(bl4_ncs::locate::find_section_markers(&data, 4), vec![14]);
    assert_eq!(bl4_ncs::locate::find_section_markers(&data, 14), Vec::<usize>::new());
    assert_eq!(bl4_ncs::locate::find_dividers(&data), vec![8]);
    assert_eq!(bl4_ncs::locate::find_dividers(&data[..13]), Vec::<usize>::new());
    assert_eq!(bl4_ncs::locate::find_section_markers(&[], 0), Vec::<usize>::new());
}

fn cells(pairs: Vec<(&str, bl4_ncs::tabular::Value)>) -> bl4_ncs::FieldMap<bl4_ncs::tabular::Value> {
    let mut fields = bl4_ncs::FieldMap::new();
    for (key, value) in pairs {
        fields.insert(key.to_string(), value);
    }
    fields
}

#[test]
fn table_as_tab_separated_values() {
    let doc = bl4_ncs::tabular::TableDocument {
        records: vec![
            bl4_ncs::tabular::TableRecord {
                name: "pistol".to_string(),
                fields: cells(vec![
                    ("damage", bl4_ncs::tabular::Value::Number("12.5".to_string())),
                    ("ammo", bl4_ncs::tabular::Value::Integer(-3)),
                    ("auto", bl4_ncs::tabular::Value::Boolean(true)),
                ]),
            },
            bl4_ncs::tabular::TableRecord {
                name: "rifle".to_string(),
                fields: cells(vec![
                    ("tags", bl4_ncs::tabular::Value::Array(vec!["a".to_string(), "b".to_string()])),
                    ("ammo", bl4_ncs::tabular::Value::Integer(30)),
                    ("auto", bl4_ncs::tabular::Value::Boolean(false)),
                    ("base", bl4_ncs::tabular::Value::Reference("pistol".to_string())),
                    ("extra", bl4_ncs::tabular::Value::Object),
                    ("none", bl4_ncs::tabular::Value::Null),
                    ("Zed", bl4_ncs::tabular::Value::String("text".to_string())),
                ]),
            },
            bl4_ncs::tabular::TableRecord { name: "bare".to_string(), fields: cells(vec![]) },
        ],
    };
    let expected = "name\tZed\tammo\tauto\tbase\tdamage\textra\tnone\ttags\n\
                    pistol\t\t-3\ttrue\t\t12.5\t\t\t\n\
                    rifle\ttext\t30\tfalse\tpistol\t\t{...}\t\t[a,b]\n\
                    bare\t\t\t\t\t\t\t\t\n";
    assert_eq!(bl4_ncs::tabular::format_tsv(&doc), expected);
}

#[test]
fn empty_table_has_only_a_header() {
    let doc = bl4_ncs::tabular::TableDocument { records: vec![] };
    assert_eq!(bl4_ncs::tabular::format_tsv(&doc), "name\n");
    let one = bl4_ncs::tabular::TableDocument {
        records: vec![bl4_ncs::tabular::TableRecord {
            name: "x".to_string(),
            fields: cells(vec![("list", bl4_ncs::tabular::Value::Array(vec![]))]),
        }],
    };
    assert_eq!(bl4_ncs::tabular::format_tsv(&one), "name\tlist\nx\t[]\n");
}
