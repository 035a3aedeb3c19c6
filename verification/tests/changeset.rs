use bl4_ncs::changeset::{ChangeSet, ChangeValue, SaveError};
use bl4_ncs::StateFlags;

#[test]
fn test_changeset_new() {
    let changeset = ChangeSet::new();
    assert!(changeset.is_empty());
    assert_eq!(changeset.len(), 0);
}

#[test]
fn test_changeset_add() {
    let mut changeset = ChangeSet::new();
    changeset.add(
        "state.cash".to_string(),
        ChangeValue::Number(999),
    );

    assert_eq!(changeset.len(), 1);
    assert!(changeset.has_change("state.cash"));
    assert!(!changeset.has_change("state.eridium"));
}

#[test]
fn test_changeset_remove() {
    let mut changeset = ChangeSet::new();
    changeset.add(
        "state.cash".to_string(),
        ChangeValue::Number(999),
    );

    let removed = changeset.remove("state.cash");
    assert!(removed.is_some());
    assert!(changeset.is_empty());
}

#[test]
fn test_changeset_clear() {
    let mut changeset = ChangeSet::new();
    changeset.add(
        "state.cash".to_string(),
        ChangeValue::Number(999),
    );
    changeset.add(
        "state.eridium".to_string(),
        ChangeValue::Number(123),
    );

    changeset.clear();
    assert!(changeset.is_empty());
}

#[test]
fn test_changeset_convenience_methods() {
    let mut changeset = ChangeSet::new();

    changeset.set_character_name("TestName");
    changeset.set_cash(11111);
    changeset.set_eridium(22222);
    changeset.set_character_xp(33333);
    changeset.set_specialization_xp(44444);

    assert_eq!(changeset.len(), 5);
    assert!(changeset.has_change("state.char_name"));
    assert!(changeset.has_change("state.currencies.cash"));
    assert!(changeset.has_change("state.currencies.eridium"));
    assert!(changeset.has_change("state.experience[0].points"));
    assert!(changeset.has_change("state.experience[1].points"));
}

#[test]
fn test_changeset_iter() {
    let mut changeset = ChangeSet::new();
    changeset.set_cash(1111);
    changeset.set_eridium(2222);

    let mut count = 0;
    while changeset.path_at(count).is_some() {
        count += 1;
    }
    assert_eq!(count, 2);
}

#[test]
fn test_changeset_add_backpack_item() {
    let mut changeset = ChangeSet::new();
    changeset.add_backpack_item(5, "@TestSerial", StateFlags::backpack().with_favorite());

    assert!(changeset.has_change("state.inventory.items.backpack.slot_5.serial"));
    assert!(changeset.has_change("state.inventory.items.backpack.slot_5.flags"));
    assert!(changeset.has_change("state.inventory.items.backpack.slot_5.state_flags"));

    let state_flags = changeset
        .get_change("state.inventory.items.backpack.slot_5.state_flags")
        .unwrap();
    assert_eq!(state_flags.as_i64(), Some(515)); // 513 + 2 (backpack + favorite)
}

#[test]
fn test_changeset_set_backpack_flags() {
    let mut changeset = ChangeSet::new();
    changeset.set_backpack_flags(3, StateFlags::backpack().with_junk());

    let change = changeset
        .get_change("state.inventory.items.backpack.slot_3.state_flags")
        .unwrap();
    assert_eq!(change.as_i64(), Some(517)); // 513 + 4 (backpack + junk)
}

#[test]
fn test_changeset_set_favorite() {
    let mut changeset = ChangeSet::new();
    changeset.set_favorite(0, true);

    let change = changeset
        .get_change("state.inventory.items.backpack.slot_0.state_flags")
        .unwrap();
    assert_eq!(change.as_i64(), Some(515)); // 513 + 2 (backpack + favorite)
}

#[test]
fn test_changeset_set_junk() {
    let mut changeset = ChangeSet::new();
    changeset.set_junk(1, true);

    let change = changeset
        .get_change("state.inventory.items.backpack.slot_1.state_flags")
        .unwrap();
    assert_eq!(change.as_i64(), Some(517)); // 513 + 4 (backpack + junk)
}

#[test]
fn test_changeset_add_bank_item() {
    let mut changeset = ChangeSet::new();
    changeset.add_bank_item(10, "@BankSerial", StateFlags::bank());

    assert!(changeset.has_change("domains.local.shared.inventory.items.bank.slot_10.serial"));
    assert!(
        changeset.has_change("domains.local.shared.inventory.items.bank.slot_10.state_flags")
    );
    // Bank items don't have a flags field
    assert!(!changeset.has_change("domains.local.shared.inventory.items.bank.slot_10.flags"));
}

#[test]
fn test_changeset_equip_item() {
    let mut changeset = ChangeSet::new();
    changeset.equip_item(0, "@WeaponSerial");

    assert!(changeset.has_change("state.inventory.equipped_inventory.equipped.slot_0"));
}

#[test]
fn test_changeset_unequip_slot() {
    let mut changeset = ChangeSet::new();
    changeset.unequip_slot(4);

    assert!(changeset.has_change("state.inventory.equipped_inventory.equipped.slot_4"));
}

#[test]
fn test_changeset_set_label1() {
    let mut changeset = ChangeSet::new();
    changeset.set_label1(2, true);

    let change = changeset
        .get_change("state.inventory.items.backpack.slot_2.state_flags")
        .unwrap();
    assert_eq!(change.as_i64(), Some(529)); // 513 + 16 (backpack + label1)
}

#[test]
fn test_changeset_set_label2() {
    let mut changeset = ChangeSet::new();
    changeset.set_label2(3, true);

    let change = changeset
        .get_change("state.inventory.items.backpack.slot_3.state_flags")
        .unwrap();
    assert_eq!(change.as_i64(), Some(545)); // 513 + 32 (backpack + label2)
}

#[test]
fn test_changeset_set_label3() {
    let mut changeset = ChangeSet::new();
    changeset.set_label3(4, true);

    let change = changeset
        .get_change("state.inventory.items.backpack.slot_4.state_flags")
        .unwrap();
    assert_eq!(change.as_i64(), Some(577)); // 513 + 64 (backpack + label3)
}

#[test]
fn test_changeset_set_label4() {
    let mut changeset = ChangeSet::new();
    changeset.set_label4(5, true);

    let change = changeset
        .get_change("state.inventory.items.backpack.slot_5.state_flags")
        .unwrap();
    assert_eq!(change.as_i64(), Some(641)); // 513 + 128 (backpack + label4)
}

#[test]
fn test_changeset_set_bank_flags() {
    let mut changeset = ChangeSet::new();
    changeset.set_bank_flags(42, StateFlags::bank().with_favorite());

    let change = changeset
        .get_change("domains.local.shared.inventory.items.bank.slot_42.state_flags")
        .unwrap();
    assert_eq!(change.as_i64(), Some(3)); // 1 + 2 (valid + favorite)
}

#[test]
fn test_changeset_add_raw() {
    let mut changeset = ChangeSet::new();
    let result =
        changeset.add_raw("some.path".to_string(), "key: value\nnested:\n  field: 123");
    assert!(result.is_ok());
    assert!(changeset.has_change("some.path"));
}

#[test]
fn test_changeset_add_raw_invalid_yaml() {
    let mut changeset = ChangeSet::new();
    let result = changeset.add_raw("some.path".to_string(), "invalid: yaml: :::");
    assert!(result.is_err());
}

#[test]
fn backpack_item_paths_and_values() {
    let mut changeset = ChangeSet::new();
    changeset.add_backpack_item(22, "@Serial", StateFlags::backpack());
    assert_eq!(changeset.len(), 3);
    assert_eq!(changeset.path_at(0), Some("state.inventory.items.backpack.slot_22.serial"));
    assert_eq!(changeset.path_at(1), Some("state.inventory.items.backpack.slot_22.flags"));
    assert_eq!(changeset.path_at(2), Some("state.inventory.items.backpack.slot_22.state_flags"));
    assert_eq!(changeset.value_at(0).and_then(|v| v.as_str()), Some("@Serial"));
    assert_eq!(changeset.value_at(1).and_then(|v| v.as_u64()), Some(0));
    assert_eq!(changeset.value_at(2).and_then(|v| v.as_u64()), Some(513));
    assert!(changeset.path_at(3).is_none());
    changeset.add_backpack_item(0, "@Other", StateFlags::backpack());
    assert!(changeset.has_change("state.inventory.items.backpack.slot_0.serial"));
    changeset.add_backpack_item(255, "@Last", StateFlags::backpack());
    assert!(changeset.has_change("state.inventory.items.backpack.slot_255.state_flags"));
}

#[test]
fn later_change_replaces_earlier_one() {
    let mut changeset = ChangeSet::new();
    changeset.set_cash(1);
    changeset.set_eridium(2);
    changeset.set_cash(3);
    assert_eq!(changeset.len(), 2);
    assert_eq!(changeset.path_at(0), Some("state.currencies.cash"));
    assert_eq!(changeset.get_change("state.currencies.cash").and_then(|v| v.as_u64()), Some(3));
    assert_eq!(changeset.remove("state.currencies.cash").and_then(|v| v.as_u64()), Some(3));
    assert!(changeset.remove("state.currencies.cash").is_none());
    assert_eq!(changeset.path_at(0), Some("state.currencies.eridium"));
}

#[test]
fn clearing_a_label_keeps_backpack_flags() {
    let mut changeset = ChangeSet::new();
    changeset.set_favorite(7, false);
    changeset.set_label3(8, false);
    let value = changeset.get_change("state.inventory.items.backpack.slot_7.state_flags").unwrap();
    assert_eq!(value.as_i64(), Some(513));
    let value = changeset.get_change("state.inventory.items.backpack.slot_8.state_flags").unwrap();
    assert_eq!(value.as_i64(), Some(513));
}

#[test]
fn bank_slots_use_sixteen_bit_numbers() {
    let mut changeset = ChangeSet::new();
    changeset.add_bank_item(65535, "@Bank", StateFlags::bank().with_label2());
    assert_eq!(changeset.len(), 2);
    assert_eq!(
        changeset.path_at(0),
        Some("domains.local.shared.inventory.items.bank.slot_65535.serial")
    );
    let flags = changeset
        .get_change("domains.local.shared.inventory.items.bank.slot_65535.state_flags")
        .unwrap();
    assert_eq!(flags.as_u64(), Some(33));
}

#[test]
fn equipped_item_is_kept_as_yaml_text() {
    let mut changeset = ChangeSet::new();
    changeset.equip_item(3, "@Weapon");
    let value = changeset
        .get_change("state.inventory.equipped_inventory.equipped.slot_3")
        .unwrap();
    match value {
        ChangeValue::Yaml(text) => {
            assert_eq!(text, "- serial: '@Weapon'\n  flags: 1\n  state_flags: 1");
        }
        _ => panic!("expected YAML text"),
    }
    assert_eq!(value.as_u64(), None);
    changeset.unequip_slot(3);
    assert_eq!(changeset.len(), 1);
    match changeset.get_change("state.inventory.equipped_inventory.equipped.slot_3") {
        Some(ChangeValue::Yaml(text)) => assert_eq!(text, "[]"),
        _ => panic!("expected YAML text"),
    }
}

#[test]
fn serial_that_breaks_the_yaml_is_not_equipped() {
    let mut changeset = ChangeSet::new();
    changeset.equip_item(1, "a'\n: : b");
    assert!(changeset.is_empty());
}

#[test]
fn refused_yaml_changes_nothing() {
    let mut changeset = ChangeSet::new();
    changeset.set_cash(5);
    match changeset.add_raw("state.currencies.cash".to_string(), "invalid: yaml: :::") {
        Err(SaveError::InvalidYaml(message)) => assert!(!message.is_empty()),
        Ok(()) => panic!("expected a refusal"),
    }
    assert_eq!(changeset.len(), 1);
    assert_eq!(changeset.get_change("state.currencies.cash").and_then(|v| v.as_u64()), Some(5));
    assert!(changeset.add_raw("state.currencies.cash".to_string(), "[1, 2]").is_ok());
    assert!(matches!(changeset.get_change("state.currencies.cash"), Some(ChangeValue::Yaml(_))));
}

#[test]
fn numbers_as_signed_and_unsigned() {
    assert_eq!(ChangeValue::Number(u64::MAX).as_u64(), Some(u64::MAX));
    assert_eq!(ChangeValue::Number(u64::MAX).as_i64(), None);
    assert_eq!(ChangeValue::Number(i64::MAX as u64).as_i64(), Some(i64::MAX));
    assert_eq!(ChangeValue::String("5".to_string()).as_u64(), None);
    assert_eq!(ChangeValue::Number(5).as_str(), None);
    assert!(ChangeSet::default().is_empty());
}
