use bl4_ncs::StateFlags;


#[test]
fn test_state_flags_backpack() {
    let flags = StateFlags::backpack();
    assert_eq!(flags.0, 513); // 1 (valid) + 512 (in_backpack)
    assert!(flags.is_in_backpack());
    assert!(!flags.is_equipped());
}

#[test]
fn test_state_flags_equipped() {
    let flags = StateFlags::equipped();
    assert_eq!(flags.0, 1); // just valid
    assert!(!flags.is_in_backpack());
    assert!(flags.is_equipped());
}

#[test]
fn test_state_flags_bank() {
    let flags = StateFlags::bank();
    assert_eq!(flags.0, 1); // just valid
}

#[test]
fn test_state_flags_with_favorite() {
    let flags = StateFlags::backpack().with_favorite();
    assert_eq!(flags.0, 515); // 513 + 2
    assert!(flags.is_favorite());
    assert!(flags.is_in_backpack());
}

#[test]
fn test_state_flags_with_junk() {
    let flags = StateFlags::backpack().with_junk();
    assert_eq!(flags.0, 517); // 513 + 4
    assert!(flags.is_junk());
}

#[test]
fn test_state_flags_labels() {
    // Labels are mutually exclusive - only the last one set should be active
    let flags = StateFlags::backpack()
        .with_label2()
        .with_label3()
        .with_label4(); // Only label4 remains
    assert!(!flags.has_label2());
    assert!(!flags.has_label3());
    assert!(flags.has_label4());
    assert_eq!(flags.0, 513 + 128); // backpack + label4

    // Verify each label clears the others
    let fav = StateFlags::backpack().with_favorite();
    assert_eq!(fav.0, 515); // 513 + 2

    let junk = fav.with_junk(); // Changes from favorite to junk
    assert!(!junk.is_favorite());
    assert!(junk.is_junk());
    assert_eq!(junk.0, 517); // 513 + 4
}

#[test]
fn test_state_flags_mutation() {
    let mut flags = StateFlags::backpack();
    assert!(!flags.is_favorite());

    flags.set_favorite(true);
    assert!(flags.is_favorite());
    assert_eq!(flags.0, 515); // 513 + 2 (favorite)

    flags.set_favorite(false);
    assert!(!flags.is_favorite());
    assert_eq!(flags.0, 513);
}

#[test]
fn test_state_flags_to_equipped() {
    let backpack = StateFlags::backpack().with_favorite();
    let equipped = backpack.to_equipped();
    assert!(!equipped.is_in_backpack());
    assert!(equipped.is_favorite()); // preserves other flags
    assert_eq!(equipped.0, 3); // 1 + 2 (valid + favorite)
}

#[test]
fn test_state_flags_to_backpack() {
    let equipped = StateFlags::equipped().with_junk();
    let backpack = equipped.to_backpack();
    assert!(backpack.is_in_backpack());
    assert!(backpack.is_junk()); // preserves other flags
    assert_eq!(backpack.0, 517); // 513 + 4 (backpack + junk)
}

#[test]
fn test_state_flags_from_raw() {
    let flags = StateFlags::from_raw(515); // 513 + 2 = backpack + favorite
    assert!(flags.is_in_backpack());
    assert!(flags.is_favorite());
}

#[test]
fn test_state_flags_conversions() {
    let flags = StateFlags::backpack();
    let raw: u32 = flags.into();
    assert_eq!(raw, 513);

    let restored: StateFlags = 515.into(); // 513 + 2 = backpack + favorite
    assert!(restored.is_favorite());
}

#[test]
fn test_state_flags_set_junk_mutation() {
    let mut flags = StateFlags::backpack();
    flags.set_junk(true);
    assert!(flags.is_junk());
    assert!(!flags.is_favorite()); // Labels are mutually exclusive

    flags.set_junk(false);
    assert!(!flags.is_junk());
}

#[test]
fn test_state_flags_set_label1() {
    let mut flags = StateFlags::backpack();
    flags.set_label1(true);
    assert!(flags.has_label1());
    assert!(!flags.is_favorite());

    flags.set_label1(false);
    assert!(!flags.has_label1());
}

#[test]
fn test_state_flags_set_label2() {
    let mut flags = StateFlags::backpack();
    flags.set_label2(true);
    assert!(flags.has_label2());

    flags.set_label2(false);
    assert!(!flags.has_label2());
}

#[test]
fn test_state_flags_set_label3() {
    let mut flags = StateFlags::backpack();
    flags.set_label3(true);
    assert!(flags.has_label3());

    flags.set_label3(false);
    assert!(!flags.has_label3());
}

#[test]
fn test_state_flags_set_label4() {
    let mut flags = StateFlags::backpack();
    flags.set_label4(true);
    assert!(flags.has_label4());

    flags.set_label4(false);
    assert!(!flags.has_label4());
}

#[test]
fn test_state_flags_clear_labels() {
    let mut flags = StateFlags::backpack().with_favorite();
    assert!(flags.is_favorite());

    flags.clear_labels();
    assert!(!flags.is_favorite());
    assert!(!flags.is_junk());
    assert!(!flags.has_label1());
    assert!(flags.is_in_backpack()); // Non-label flags preserved
}

#[test]
fn test_state_flags_with_label1() {
    let flags = StateFlags::backpack().with_label1();
    assert!(flags.has_label1());
    assert!(!flags.is_favorite());
    assert!(!flags.is_junk());
}

#[test]
fn test_state_flags_with_no_label() {
    let flags = StateFlags::backpack().with_favorite().with_no_label();
    assert!(!flags.is_favorite());
    assert!(!flags.is_junk());
    assert!(!flags.has_label1());
    assert!(flags.is_in_backpack());
}

#[test]
fn test_state_flags_to_raw() {
    let flags = StateFlags::backpack();
    assert_eq!(flags.to_raw(), 513);
}
