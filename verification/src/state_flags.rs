//! The state-flags bit mask of an inventory item.
//!
//! An item is valid, sits in the backpack or is equipped, and carries at
//! most one label: favorite, junk, or one of four numbered labels. Setting
//! a label removes whichever label was there.

use vstd::prelude::*;

verus! {

/// Bit 0: the item exists.
pub const VALID: u32 = 1;

/// Bit 1: marked as favorite.
pub const FAVORITE: u32 = 2;

/// Bit 2: marked as junk.
pub const JUNK: u32 = 4;

/// Bit 4: label 1.
pub const LABEL1: u32 = 16;

/// Bit 5: label 2.
pub const LABEL2: u32 = 32;

/// Bit 6: label 3.
pub const LABEL3: u32 = 64;

/// Bit 7: label 4.
pub const LABEL4: u32 = 128;

/// Bit 9: the item is in the backpack, not equipped.
pub const IN_BACKPACK: u32 = 512;

/// All six label bits.
pub const ALL_LABELS: u32 = 246;

/// Whether `flag` is one of the six label bits.
pub open spec fn is_label(flag: u32) -> bool {
    flag == FAVORITE || flag == JUNK || flag == LABEL1 || flag == LABEL2 || flag == LABEL3 || flag
        == LABEL4
}

/// `bits` with every label removed and `label` set.
pub open spec fn with_label(bits: u32, label: u32) -> u32 {
    (bits & !ALL_LABELS) | label
}

/// `bits` with `flag` removed.
pub open spec fn without(bits: u32, flag: u32) -> u32 {
    bits & !flag
}

/// `bits` with `label` set in place of any other label, or with `label`
/// removed and the rest untouched.
pub open spec fn set_label(bits: u32, label: u32, value: bool) -> u32 {
    if value {
        with_label(bits, label)
    } else {
        without(bits, label)
    }
}

/// `ALL_LABELS` is the union of the six label bits.
pub proof fn lemma_all_labels()
    ensures
        ALL_LABELS == FAVORITE | JUNK | LABEL1 | LABEL2 | LABEL3 | LABEL4,
        VALID | IN_BACKPACK == 513,
{
    assert(246u32 == 2u32 | 4u32 | 16u32 | 32u32 | 64u32 | 128u32) by (bit_vector);
    assert(1u32 | 512u32 == 513u32) by (bit_vector);
}

/// Setting a label leaves exactly that label among the label bits and
/// touches no other bit.
pub proof fn lemma_with_label(bits: u32, label: u32)
    requires
        is_label(label),
    ensures
        with_label(bits, label) & ALL_LABELS == label,
        with_label(bits, label) & !ALL_LABELS == bits & !ALL_LABELS,
        with_label(bits, label) & label != 0,
        forall|other: u32|
            is_label(other) && other != label ==> #[trigger] (with_label(bits, label) & other)
                == 0,
        with_label(bits, label) & VALID == bits & VALID,
        with_label(bits, label) & IN_BACKPACK == bits & IN_BACKPACK,
{
    assert(label == 2 || label == 4 || label == 16 || label == 32 || label == 64 || label == 128
        ==> {
        &&& ((bits & !246u32) | label) & 246u32 == label
        &&& ((bits & !246u32) | label) & !246u32 == bits & !246u32
        &&& ((bits & !246u32) | label) & label != 0
        &&& ((bits & !246u32) | label) & 1u32 == bits & 1u32
        &&& ((bits & !246u32) | label) & 512u32 == bits & 512u32
    }) by (bit_vector);
    assert forall|other: u32| is_label(other) && other != label implies #[trigger] (with_label(
        bits,
        label,
    ) & other) == 0 by {
        assert((label == 2 || label == 4 || label == 16 || label == 32 || label == 64 || label
            == 128) && (other == 2 || other == 4 || other == 16 || other == 32 || other == 64
            || other == 128) && other != label ==> (((bits & !246u32) | label) & other) == 0)
            by (bit_vector);
    }
}

/// Removing a flag clears it and touches no other bit.
pub proof fn lemma_without(bits: u32, flag: u32)
    ensures
        without(bits, flag) & flag == 0,
        without(bits, flag) & !flag == bits & !flag,
        without(bits, flag) | (bits & flag) == bits,
{
    assert((bits & !flag) & flag == 0) by (bit_vector);
    assert((bits & !flag) & !flag == bits & !flag) by (bit_vector);
    assert((bits & !flag) | (bits & flag) == bits) by (bit_vector);
}

/// Setting a flag sets it and touches no other bit.
pub proof fn lemma_with_flag(bits: u32, flag: u32)
    ensures
        (bits | flag) & flag == flag,
        (bits | flag) & !flag == bits & !flag,
{
    assert((bits | flag) & flag == flag) by (bit_vector);
    assert((bits | flag) & !flag == bits & !flag) by (bit_vector);
}

/// State flags of an inventory item.
#[derive(Debug, Clone, Copy, PartialEq, Eq, Structural)]
pub struct StateFlags(pub u32);

impl Default for StateFlags {
    /// No flag set.
    fn default() -> (r: Self)
        ensures
            r.0 == 0,
    {
        StateFlags(0)
    }
}

impl StateFlags {
    /// Whether `flag` is set.
    pub open spec fn has(self, flag: u32) -> bool {
        self.0 & flag != 0
    }

    /// Flags of an item in the backpack: valid and in the backpack.
    pub fn backpack() -> (r: Self)
        ensures
            r.0 == 513,
            r.0 == VALID | IN_BACKPACK,
    {
        proof {
            lemma_all_labels();
        }
        StateFlags(VALID | IN_BACKPACK)
    }

    /// Flags of an equipped item: valid, not in the backpack.
    pub fn equipped() -> (r: Self)
        ensures
            r.0 == VALID,
    {
        StateFlags(VALID)
    }

    /// Flags of an item in the bank: valid.
    pub fn bank() -> (r: Self)
        ensures
            r.0 == VALID,
    {
        StateFlags(VALID)
    }

    /// Flags with exactly the given bits.
    pub fn from_raw(bits: u32) -> (r: Self)
        ensures
            r.0 == bits,
    {
        StateFlags(bits)
    }

    /// The bits of the flags.
    pub fn to_raw(self) -> (bits: u32)
        ensures
            bits == self.0,
    {
        self.0
    }

    /// These flags with the favorite label in place of any other label.
    pub fn with_favorite(self) -> (r: Self)
        ensures
            r.0 == with_label(self.0, FAVORITE),
            r.0 & ALL_LABELS == FAVORITE,
            r.0 & !ALL_LABELS == self.0 & !ALL_LABELS,
    {
        proof {
            lemma_with_label(self.0, FAVORITE);
        }
        StateFlags((self.0 & !ALL_LABELS) | FAVORITE)
    }

    /// These flags with the junk label in place of any other label.
    pub fn with_junk(self) -> (r: Self)
        ensures
            r.0 == with_label(self.0, JUNK),
            r.0 & ALL_LABELS == JUNK,
            r.0 & !ALL_LABELS == self.0 & !ALL_LABELS,
    {
        proof {
            lemma_with_label(self.0, JUNK);
        }
        StateFlags((self.0 & !ALL_LABELS) | JUNK)
    }

    /// These flags with label 1 in place of any other label.
    pub fn with_label1(self) -> (r: Self)
        ensures
            r.0 == with_label(self.0, LABEL1),
            r.0 & ALL_LABELS == LABEL1,
            r.0 & !ALL_LABELS == self.0 & !ALL_LABELS,
    {
        proof {
            lemma_with_label(self.0, LABEL1);
        }
        StateFlags((self.0 & !ALL_LABELS) | LABEL1)
    }

    /// These flags with label 2 in place of any other label.
    pub fn with_label2(self) -> (r: Self)
        ensures
            r.0 == with_label(self.0, LABEL2),
            r.0 & ALL_LABELS == LABEL2,
            r.0 & !ALL_LABELS == self.0 & !ALL_LABELS,
    {
        proof {
            lemma_with_label(self.0, LABEL2);
        }
        StateFlags((self.0 & !ALL_LABELS) | LABEL2)
    }

    /// These flags with label 3 in place of any other label.
    pub fn with_label3(self) -> (r: Self)
        ensures
            r.0 == with_label(self.0, LABEL3),
            r.0 & ALL_LABELS == LABEL3,
            r.0 & !ALL_LABELS == self.0 & !ALL_LABELS,
    {
        proof {
            lemma_with_label(self.0, LABEL3);
        }
        StateFlags((self.0 & !ALL_LABELS) | LABEL3)
    }

    /// These flags with label 4 in place of any other label.
    pub fn with_label4(self) -> (r: Self)
        ensures
            r.0 == with_label(self.0, LABEL4),
            r.0 & ALL_LABELS == LABEL4,
            r.0 & !ALL_LABELS == self.0 & !ALL_LABELS,
    {
        proof {
            lemma_with_label(self.0, LABEL4);
        }
        StateFlags((self.0 & !ALL_LABELS) | LABEL4)
    }

    /// These flags without any label.
    pub fn with_no_label(self) -> (r: Self)
        ensures
            r.0 == without(self.0, ALL_LABELS),
            r.0 & ALL_LABELS == 0,
            r.0 & !ALL_LABELS == self.0 & !ALL_LABELS,
    {
        proof {
            lemma_without(self.0, ALL_LABELS);
        }
        StateFlags(self.0 & !ALL_LABELS)
    }

    /// Whether the favorite label is set.
    pub fn is_favorite(&self) -> (b: bool)
        ensures
            b == self.has(FAVORITE),
    {
        self.0 & FAVORITE != 0
    }

    /// Whether the junk label is set.
    pub fn is_junk(&self) -> (b: bool)
        ensures
            b == self.has(JUNK),
    {
        self.0 & JUNK != 0
    }

    /// Whether label 1 is set.
    pub fn has_label1(&self) -> (b: bool)
        ensures
            b == self.has(LABEL1),
    {
        self.0 & LABEL1 != 0
    }

    /// Whether label 2 is set.
    pub fn has_label2(&self) -> (b: bool)
        ensures
            b == self.has(LABEL2),
    {
        self.0 & LABEL2 != 0
    }

    /// Whether label 3 is set.
    pub fn has_label3(&self) -> (b: bool)
        ensures
            b == self.has(LABEL3),
    {
        self.0 & LABEL3 != 0
    }

    /// Whether label 4 is set.
    pub fn has_label4(&self) -> (b: bool)
        ensures
            b == self.has(LABEL4),
    {
        self.0 & LABEL4 != 0
    }

    /// Whether the item is in the backpack.
    pub fn is_in_backpack(&self) -> (b: bool)
        ensures
            b == self.has(IN_BACKPACK),
    {
        self.0 & IN_BACKPACK != 0
    }

    /// Whether the item is equipped, that is, not in the backpack.
    pub fn is_equipped(&self) -> (b: bool)
        ensures
            b == !self.has(IN_BACKPACK),
    {
        !self.is_in_backpack()
    }

    /// Sets the favorite label in place of any other label, or removes it.
    pub fn set_favorite(&mut self, value: bool)
        ensures
            final(self).0 == set_label(old(self).0, FAVORITE, value),
            final(self).has(FAVORITE) == value,
    {
        proof {
            lemma_with_label(self.0, FAVORITE);
            lemma_without(self.0, FAVORITE);
        }
        if value {
            self.0 = (self.0 & !ALL_LABELS) | FAVORITE;
        } else {
            self.0 = self.0 & !FAVORITE;
        }
    }

    /// Sets the junk label in place of any other label, or removes it.
    pub fn set_junk(&mut self, value: bool)
        ensures
            final(self).0 == set_label(old(self).0, JUNK, value),
            final(self).has(JUNK) == value,
    {
        proof {
            lemma_with_label(self.0, JUNK);
            lemma_without(self.0, JUNK);
        }
        if value {
            self.0 = (self.0 & !ALL_LABELS) | JUNK;
        } else {
            self.0 = self.0 & !JUNK;
        }
    }

    /// Sets label 1 in place of any other label, or removes it.
    pub fn set_label1(&mut self, value: bool)
        ensures
            final(self).0 == set_label(old(self).0, LABEL1, value),
            final(self).has(LABEL1) == value,
    {
        proof {
            lemma_with_label(self.0, LABEL1);
            lemma_without(self.0, LABEL1);
        }
        if value {
            self.0 = (self.0 & !ALL_LABELS) | LABEL1;
        } else {
            self.0 = self.0 & !LABEL1;
        }
    }

    /// Sets label 2 in place of any other label, or removes it.
    pub fn set_label2(&mut self, value: bool)
        ensures
            final(self).0 == set_label(old(self).0, LABEL2, value),
            final(self).has(LABEL2) == value,
    {
        proof {
            lemma_with_label(self.0, LABEL2);
            lemma_without(self.0, LABEL2);
        }
        if value {
            self.0 = (self.0 & !ALL_LABELS) | LABEL2;
        } else {
            self.0 = self.0 & !LABEL2;
        }
    }

    /// Sets label 3 in place of any other label, or removes it.
    pub fn set_label3(&mut self, value: bool)
        ensures
            final(self).0 == set_label(old(self).0, LABEL3, value),
            final(self).has(LABEL3) == value,
    {
        proof {
            lemma_with_label(self.0, LABEL3);
            lemma_without(self.0, LABEL3);
        }
        if value {
            self.0 = (self.0 & !ALL_LABELS) | LABEL3;
        } else {
            self.0 = self.0 & !LABEL3;
        }
    }

    /// Sets label 4 in place of any other label, or removes it.
    pub fn set_label4(&mut self, value: bool)
        ensures
            final(self).0 == set_label(old(self).0, LABEL4, value),
            final(self).has(LABEL4) == value,
    {
        proof {
            lemma_with_label(self.0, LABEL4);
            lemma_without(self.0, LABEL4);
        }
        if value {
            self.0 = (self.0 & !ALL_LABELS) | LABEL4;
        } else {
            self.0 = self.0 & !LABEL4;
        }
    }

    /// Removes every label.
    pub fn clear_labels(&mut self)
        ensures
            final(self).0 == without(old(self).0, ALL_LABELS),
            final(self).0 & ALL_LABELS == 0,
            final(self).0 & !ALL_LABELS == old(self).0 & !ALL_LABELS,
    {
        proof {
            lemma_without(self.0, ALL_LABELS);
        }
        self.0 = self.0 & !ALL_LABELS;
    }

    /// These flags for the item once equipped: the backpack bit removed.
    pub fn to_equipped(self) -> (r: Self)
        ensures
            r.0 == without(self.0, IN_BACKPACK),
            !r.has(IN_BACKPACK),
            r.0 & !IN_BACKPACK == self.0 & !IN_BACKPACK,
    {
        proof {
            lemma_without(self.0, IN_BACKPACK);
        }
        StateFlags(self.0 & !IN_BACKPACK)
    }

    /// These flags for the item once in the backpack: the backpack bit set.
    pub fn to_backpack(self) -> (r: Self)
        ensures
            r.0 == self.0 | IN_BACKPACK,
            r.has(IN_BACKPACK),
            r.0 & !IN_BACKPACK == self.0 & !IN_BACKPACK,
    {
        proof {
            lemma_with_flag(self.0, IN_BACKPACK);
        }
        StateFlags(self.0 | IN_BACKPACK)
    }
}

impl From<u32> for StateFlags {
    fn from(v: u32) -> (r: Self) {
        StateFlags(v)
    }
}

impl vstd::std_specs::convert::FromSpecImpl<u32> for StateFlags {
    open spec fn obeys_from_spec() -> bool {
        true
    }

    open spec fn from_spec(v: u32) -> Self {
        StateFlags(v)
    }
}

impl From<StateFlags> for u32 {
    fn from(f: StateFlags) -> (r: Self) {
        f.0
    }
}

impl vstd::std_specs::convert::FromSpecImpl<StateFlags> for u32 {
    open spec fn obeys_from_spec() -> bool {
        true
    }

    open spec fn from_spec(f: StateFlags) -> Self {
        f.0
    }
}

/// Whatever label was set before, after setting one label no other label is
/// set, and validity and location are as before.
pub proof fn lemma_labels_exclude_each_other(flags: StateFlags, label: u32, other: u32)
    requires
        is_label(label),
        is_label(other),
        other != label,
    ensures
        StateFlags(with_label(flags.0, label)).has(label),
        !StateFlags(with_label(flags.0, label)).has(other),
        StateFlags(with_label(flags.0, label)).has(VALID) == flags.has(VALID),
        StateFlags(with_label(flags.0, label)).has(IN_BACKPACK) == flags.has(IN_BACKPACK),
{
    lemma_with_label(flags.0, label);
    assert(with_label(flags.0, label) & other == 0);
}

} // verus!
