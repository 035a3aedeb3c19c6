//! Batches of pending changes to a save file, keyed by the path of the
//! value they replace.

use crate::fields::{assoc_get, assoc_insert, assoc_remove, FieldMap};
use crate::state_flags::{set_label, StateFlags, FAVORITE, JUNK, LABEL1, LABEL2, LABEL3, LABEL4};
use crate::text::{decimal_digits, push_decimal};
use vstd::prelude::*;
use vstd::string::StringExecFns;

verus! {

/// The error type of the YAML parser.
#[verifier::external_type_specification]
#[verifier::external_body]
pub struct ExYamlError(serde_yaml::Error);

/// Whether `text` is a YAML document that the YAML parser accepts as a
/// value.
pub uninterp spec fn is_yaml(text: Seq<char>) -> bool;

/// Calls `serde_yaml::from_str` for a `serde_yaml::Value` and drops the
/// value. Nothing is claimed but that acceptance is a function of the text.
#[verifier::external_body]
fn check_yaml(text: &str) -> (r: Result<(), serde_yaml::Error>)
    ensures
        r is Ok <==> is_yaml(text@),
{
    match serde_yaml::from_str::<serde_yaml::Value>(text) {
        Ok(_) => Ok(()),
        Err(e) => Err(e),
    }
}

/// Calls the `Display` implementation of `serde_yaml::Error` for the
/// parser's message. Nothing is claimed of the text.
#[verifier::external_body]
fn yaml_error_text(error: &serde_yaml::Error) -> (r: String) {
    error.to_string()
}

/// Why a change was refused.
#[derive(Debug, Clone)]
pub enum SaveError {
    /// The text is no YAML value; the parser's message is attached.
    InvalidYaml(String),
}

/// The new value of a change.
#[derive(Debug, Clone)]
pub enum ChangeValue {
    /// A string.
    String(String),
    /// A non-negative integer.
    Number(u64),
    /// A YAML value, kept as the text it was given as.
    Yaml(String),
}

/// A new value as a plain value.
pub ghost enum ChangeValueView {
    String(Seq<char>),
    Number(u64),
    Yaml(Seq<char>),
}

impl View for ChangeValue {
    type V = ChangeValueView;

    open spec fn view(&self) -> ChangeValueView {
        match *self {
            ChangeValue::String(s) => ChangeValueView::String(s@),
            ChangeValue::Number(n) => ChangeValueView::Number(n),
            ChangeValue::Yaml(s) => ChangeValueView::Yaml(s@),
        }
    }
}

impl ChangeValue {
    /// The value as an unsigned integer, if it is a number.
    pub fn as_u64(&self) -> (r: Option<u64>)
        ensures
            r == (match self@ {
                ChangeValueView::Number(n) => Some(n),
                _ => None,
            }),
    {
        match self {
            ChangeValue::Number(n) => Some(*n),
            _ => None,
        }
    }

    /// The value as a signed integer, if it is a number that fits.
    pub fn as_i64(&self) -> (r: Option<i64>)
        ensures
            r == (match self@ {
                ChangeValueView::Number(n) => if n <= i64::MAX {
                    Some(n as i64)
                } else {
                    None
                },
                _ => None,
            }),
    {
        match self {
            ChangeValue::Number(n) => if *n <= 0x7FFF_FFFF_FFFF_FFFF {
                Some(*n as i64)
            } else {
                None
            },
            _ => None,
        }
    }

    /// The value as text, if it is a string.
    pub fn as_str(&self) -> (r: Option<&str>)
        ensures
            match self@ {
                ChangeValueView::String(s) => r is Some && r->0@ == s,
                _ => r is None,
            },
    {
        match self {
            ChangeValue::String(s) => Some(s.as_str()),
            _ => None,
        }
    }
}

/// Path of the character's name.
pub open spec fn character_name_path() -> Seq<char> {
    "state.char_name"@
}

/// Path of the cash amount.
pub open spec fn cash_path() -> Seq<char> {
    "state.currencies.cash"@
}

/// Path of the eridium amount.
pub open spec fn eridium_path() -> Seq<char> {
    "state.currencies.eridium"@
}

/// Path of the character's experience points.
pub open spec fn character_xp_path() -> Seq<char> {
    "state.experience[0].points"@
}

/// Path of the specialization experience points.
pub open spec fn specialization_xp_path() -> Seq<char> {
    "state.experience[1].points"@
}

/// Path of a backpack slot.
pub open spec fn backpack_slot_path(slot: nat) -> Seq<char> {
    "state.inventory.items.backpack.slot_"@ + decimal_digits(slot)
}

/// Path of a bank slot.
pub open spec fn bank_slot_path(slot: nat) -> Seq<char> {
    "domains.local.shared.inventory.items.bank.slot_"@ + decimal_digits(slot)
}

/// Path of an equipped slot.
pub open spec fn equipped_slot_path(slot: nat) -> Seq<char> {
    "state.inventory.equipped_inventory.equipped.slot_"@ + decimal_digits(slot)
}

/// The YAML text of an equipped item with the given serial.
pub open spec fn equipped_item_yaml(serial: Seq<char>) -> Seq<char> {
    "- serial: '"@ + serial + "'\n  flags: 1\n  state_flags: 1"@
}

/// The text `prefix` followed by the decimal numeral of `n`.
fn numbered(prefix: &str, n: u64) -> (r: String)
    ensures
        r@ == prefix@ + decimal_digits(n as nat),
{
    let mut out = prefix.to_owned();
    push_decimal(&mut out, n);
    out
}

/// The text `base` followed by `suffix`.
fn joined(base: &String, suffix: &str) -> (r: String)
    ensures
        r@ == base@ + suffix@,
{
    let mut out = base.clone();
    out.append(suffix);
    out
}

/// A set of pending changes. Each path has at most one pending value; a
/// later change to a path replaces the earlier one.
#[derive(Debug, Clone)]
pub struct ChangeSet {
    changes: FieldMap<ChangeValue>,
}

impl View for ChangeSet {
    type V = Seq<(Seq<char>, ChangeValueView)>;

    closed spec fn view(&self) -> Seq<(Seq<char>, ChangeValueView)> {
        self.changes@
    }
}

impl Default for ChangeSet {
    /// A set without changes.
    fn default() -> (r: Self)
        ensures
            r@ == Seq::<(Seq<char>, ChangeValueView)>::empty(),
    {
        ChangeSet { changes: FieldMap::new() }
    }
}

impl ChangeSet {
    /// The changes after three more in a row.
    pub open spec fn after3(
        s: Seq<(Seq<char>, ChangeValueView)>,
        a: (Seq<char>, ChangeValueView),
        b: (Seq<char>, ChangeValueView),
        c: (Seq<char>, ChangeValueView),
    ) -> Seq<(Seq<char>, ChangeValueView)> {
        assoc_insert(assoc_insert(assoc_insert(s, a.0, a.1), b.0, b.1), c.0, c.1)
    }

    /// A set without changes.
    pub fn new() -> (r: Self)
        ensures
            r@ == Seq::<(Seq<char>, ChangeValueView)>::empty(),
    {
        ChangeSet { changes: FieldMap::new() }
    }

    /// Records `value` as the new value at `path`.
    pub fn add(&mut self, path: String, value: ChangeValue)
        ensures
            final(self)@ == assoc_insert(old(self)@, path@, value@),
    {
        self.changes.insert(path, value);
    }

    /// Records the YAML value written in `yaml_str` as the new value at
    /// `path`. Text that is no YAML value is refused and changes nothing.
    pub fn add_raw(&mut self, path: String, yaml_str: &str) -> (r: Result<(), SaveError>)
        ensures
            r is Ok <==> is_yaml(yaml_str@),
            r is Ok ==> final(self)@ == assoc_insert(
                old(self)@,
                path@,
                ChangeValueView::Yaml(yaml_str@),
            ),
            r is Err ==> final(self)@ == old(self)@,
    {
        match check_yaml(yaml_str) {
            Ok(()) => {
                self.changes.insert(path, ChangeValue::Yaml(yaml_str.to_owned()));
                Ok(())
            },
            Err(e) => Err(SaveError::InvalidYaml(yaml_error_text(&e))),
        }
    }

    /// Whether a change is pending at `path`.
    pub fn has_change(&self, path: &str) -> (b: bool)
        ensures
            b == (assoc_get(self@, path@) is Some),
    {
        self.changes.contains_key(path)
    }

    /// The pending value at `path`, if any.
    pub fn get_change(&self, path: &str) -> (r: Option<&ChangeValue>)
        ensures
            match r {
                Some(v) => assoc_get(self@, path@) == Some(v@),
                None => assoc_get(self@, path@) is None,
            },
    {
        self.changes.get(path)
    }

    /// Withdraws the change at `path` and hands its value back.
    pub fn remove(&mut self, path: &str) -> (r: Option<ChangeValue>)
        ensures
            final(self)@ == assoc_remove(old(self)@, path@),
            match r {
                Some(v) => assoc_get(old(self)@, path@) == Some(v@),
                None => assoc_get(old(self)@, path@) is None,
            },
    {
        self.changes.remove(path)
    }

    /// Withdraws every change.
    pub fn clear(&mut self)
        ensures
            final(self)@ == Seq::<(Seq<char>, ChangeValueView)>::empty(),
    {
        self.changes.clear();
    }

    /// Number of pending changes.
    pub fn len(&self) -> (n: usize)
        ensures
            n == self@.len(),
    {
        self.changes.len()
    }

    /// Whether no change is pending.
    pub fn is_empty(&self) -> (b: bool)
        ensures
            b == (self@.len() == 0),
    {
        self.changes.is_empty()
    }

    /// The path of the change at `index`, in the order in which the paths
    /// were first changed.
    pub fn path_at(&self, index: usize) -> (r: Option<&str>)
        ensures
            index < self@.len() ==> r is Some && r->0@ == self@[index as int].0,
            index >= self@.len() ==> r is None,
    {
        self.changes.key_at(index)
    }

    /// The value of the change at `index`.
    pub fn value_at(&self, index: usize) -> (r: Option<&ChangeValue>)
        ensures
            index < self@.len() ==> r is Some && r->0@ == self@[index as int].1,
            index >= self@.len() ==> r is None,
    {
        self.changes.value_at(index)
    }

    /// Changes the character's name.
    pub fn set_character_name(&mut self, name: &str)
        ensures
            final(self)@ == assoc_insert(
                old(self)@,
                character_name_path(),
                ChangeValueView::String(name@),
            ),
    {
        self.add("state.char_name".to_owned(), ChangeValue::String(name.to_owned()));
    }

    /// Changes the cash amount.
    pub fn set_cash(&mut self, amount: u64)
        ensures
            final(self)@ == assoc_insert(old(self)@, cash_path(), ChangeValueView::Number(amount)),
    {
        self.add("state.currencies.cash".to_owned(), ChangeValue::Number(amount));
    }

    /// Changes the eridium amount.
    pub fn set_eridium(&mut self, amount: u64)
        ensures
            final(self)@ == assoc_insert(
                old(self)@,
                eridium_path(),
                ChangeValueView::Number(amount),
            ),
    {
        self.add("state.currencies.eridium".to_owned(), ChangeValue::Number(amount));
    }

    /// Changes the character's experience points.
    pub fn set_character_xp(&mut self, xp: u64)
        ensures
            final(self)@ == assoc_insert(
                old(self)@,
                character_xp_path(),
                ChangeValueView::Number(xp),
            ),
    {
        self.add("state.experience[0].points".to_owned(), ChangeValue::Number(xp));
    }

    /// Changes the specialization experience points.
    pub fn set_specialization_xp(&mut self, xp: u64)
        ensures
            final(self)@ == assoc_insert(
                old(self)@,
                specialization_xp_path(),
                ChangeValueView::Number(xp),
            ),
    {
        self.add("state.experience[1].points".to_owned(), ChangeValue::Number(xp));
    }

    /// Puts an item into a backpack slot: its serial, the plain flags 0 and
    /// its state flags.
    pub fn add_backpack_item(&mut self, slot: u8, serial: &str, flags: StateFlags)
        ensures
            final(self)@ == Self::after3(
                old(self)@,
                (backpack_slot_path(slot as nat) + ".serial"@, ChangeValueView::String(serial@)),
                (backpack_slot_path(slot as nat) + ".flags"@, ChangeValueView::Number(0)),
                (
                    backpack_slot_path(slot as nat) + ".state_flags"@,
                    ChangeValueView::Number(flags.0 as u64),
                ),
            ),
    {
        let base = numbered("state.inventory.items.backpack.slot_", slot as u64);
        self.add(joined(&base, ".serial"), ChangeValue::String(serial.to_owned()));
        self.add(joined(&base, ".flags"), ChangeValue::Number(0));
        self.add(joined(&base, ".state_flags"), ChangeValue::Number(flags.0 as u64));
    }

    /// Changes the state flags of the item in a backpack slot.
    pub fn set_backpack_flags(&mut self, slot: u8, flags: StateFlags)
        ensures
            final(self)@ == assoc_insert(
                old(self)@,
                backpack_slot_path(slot as nat) + ".state_flags"@,
                ChangeValueView::Number(flags.0 as u64),
            ),
    {
        let base = numbered("state.inventory.items.backpack.slot_", slot as u64);
        self.add(joined(&base, ".state_flags"), ChangeValue::Number(flags.0 as u64));
    }

    /// Gives the item in a backpack slot the flags of a backpack item with
    /// `label` set or removed.
    fn set_backpack_label(&mut self, slot: u8, label: u32, value: bool)
        requires
            label == FAVORITE || label == JUNK || label == LABEL1 || label == LABEL2 || label
                == LABEL3 || label == LABEL4,
        ensures
            final(self)@ == assoc_insert(
                old(self)@,
                backpack_slot_path(slot as nat) + ".state_flags"@,
                ChangeValueView::Number(set_label(513, label, value) as u64),
            ),
    {
        let mut flags = StateFlags::backpack();
        if label == FAVORITE {
            flags.set_favorite(value);
        } else if label == JUNK {
            flags.set_junk(value);
        } else if label == LABEL1 {
            flags.set_label1(value);
        } else if label == LABEL2 {
            flags.set_label2(value);
        } else if label == LABEL3 {
            flags.set_label3(value);
        } else {
            flags.set_label4(value);
        }
        self.set_backpack_flags(slot, flags);
    }

    /// Marks the item in a backpack slot as favorite, or as a backpack item
    /// without that mark.
    pub fn set_favorite(&mut self, slot: u8, value: bool)
        ensures
            final(self)@ == assoc_insert(
                old(self)@,
                backpack_slot_path(slot as nat) + ".state_flags"@,
                ChangeValueView::Number(set_label(513, FAVORITE, value) as u64),
            ),
    {
        self.set_backpack_label(slot, FAVORITE, value);
    }

    /// Marks the item in a backpack slot as junk, or as a backpack item
    /// without that mark.
    pub fn set_junk(&mut self, slot: u8, value: bool)
        ensures
            final(self)@ == assoc_insert(
                old(self)@,
                backpack_slot_path(slot as nat) + ".state_flags"@,
                ChangeValueView::Number(set_label(513, JUNK, value) as u64),
            ),
    {
        self.set_backpack_label(slot, JUNK, value);
    }

    /// Gives the item in a backpack slot label 1, or the flags of a backpack
    /// item without it.
    pub fn set_label1(&mut self, slot: u8, value: bool)
        ensures
            final(self)@ == assoc_insert(
                old(self)@,
                backpack_slot_path(slot as nat) + ".state_flags"@,
                ChangeValueView::Number(set_label(513, LABEL1, value) as u64),
            ),
    {
        self.set_backpack_label(slot, LABEL1, value);
    }

    /// Gives the item in a backpack slot label 2, or the flags of a backpack
    /// item without it.
    pub fn set_label2(&mut self, slot: u8, value: bool)
        ensures
            final(self)@ == assoc_insert(
                old(self)@,
                backpack_slot_path(slot as nat) + ".state_flags"@,
                ChangeValueView::Number(set_label(513, LABEL2, value) as u64),
            ),
    {
        self.set_backpack_label(slot, LABEL2, value);
    }

    /// Gives the item in a backpack slot label 3, or the flags of a backpack
    /// item without it.
    pub fn set_label3(&mut self, slot: u8, value: bool)
        ensures
            final(self)@ == assoc_insert(
                old(self)@,
                backpack_slot_path(slot as nat) + ".state_flags"@,
                ChangeValueView::Number(set_label(513, LABEL3, value) as u64),
            ),
    {
        self.set_backpack_label(slot, LABEL3, value);
    }

    /// Gives the item in a backpack slot label 4, or the flags of a backpack
    /// item without it.
    pub fn set_label4(&mut self, slot: u8, value: bool)
        ensures
            final(self)@ == assoc_insert(
                old(self)@,
                backpack_slot_path(slot as nat) + ".state_flags"@,
                ChangeValueView::Number(set_label(513, LABEL4, value) as u64),
            ),
    {
        self.set_backpack_label(slot, LABEL4, value);
    }

    /// Puts an item into a bank slot: its serial and its state flags.
    pub fn add_bank_item(&mut self, slot: u16, serial: &str, flags: StateFlags)
        ensures
            final(self)@ == assoc_insert(
                assoc_insert(
                    old(self)@,
                    bank_slot_path(slot as nat) + ".serial"@,
                    ChangeValueView::String(serial@),
                ),
                bank_slot_path(slot as nat) + ".state_flags"@,
                ChangeValueView::Number(flags.0 as u64),
            ),
    {
        let base = numbered("domains.local.shared.inventory.items.bank.slot_", slot as u64);
        self.add(joined(&base, ".serial"), ChangeValue::String(serial.to_owned()));
        self.add(joined(&base, ".state_flags"), ChangeValue::Number(flags.0 as u64));
    }

    /// Changes the state flags of the item in a bank slot.
    pub fn set_bank_flags(&mut self, slot: u16, flags: StateFlags)
        ensures
            final(self)@ == assoc_insert(
                old(self)@,
                bank_slot_path(slot as nat) + ".state_flags"@,
                ChangeValueView::Number(flags.0 as u64),
            ),
    {
        let base = numbered("domains.local.shared.inventory.items.bank.slot_", slot as u64);
        self.add(joined(&base, ".state_flags"), ChangeValue::Number(flags.0 as u64));
    }

    /// Equips an item: the slot receives a one-element list that holds the
    /// item's serial with flags 1 and state flags 1. A serial that does not
    /// give a YAML value changes nothing.
    pub fn equip_item(&mut self, slot: u8, serial: &str)
        ensures
            final(self)@ == (if is_yaml(equipped_item_yaml(serial@)) {
                assoc_insert(
                    old(self)@,
                    equipped_slot_path(slot as nat),
                    ChangeValueView::Yaml(equipped_item_yaml(serial@)),
                )
            } else {
                old(self)@
            }),
    {
        let mut yaml = "- serial: '".to_owned();
        yaml.append(serial);
        yaml.append("'\n  flags: 1\n  state_flags: 1");
        let path = numbered("state.inventory.equipped_inventory.equipped.slot_", slot as u64);
        let _ = self.add_raw(path, yaml.as_str());
    }

    /// Empties an equipped slot: the slot receives the empty list, provided
    /// that the YAML parser accepts its text.
    pub fn unequip_slot(&mut self, slot: u8)
        ensures
            final(self)@ == (if is_yaml("[]"@) {
                assoc_insert(
                    old(self)@,
                    equipped_slot_path(slot as nat),
                    ChangeValueView::Yaml("[]"@),
                )
            } else {
                old(self)@
            }),
    {
        let path = numbered("state.inventory.equipped_inventory.equipped.slot_", slot as u64);
        let _ = self.add_raw(path, "[]");
    }
}

} // verus!
