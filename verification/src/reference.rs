//! Reference tables of game constants: gear types, weapon types, rarity
//! tiers and the known legendary items, with lookups by code and by name.

use crate::text::str_eq;
use vstd::prelude::*;

verus! {

/// A kind of gear.
#[derive(Debug, Clone, Copy, PartialEq, Eq)]
pub struct GearType {
    pub code: &'static str,
    pub name: &'static str,
    pub description: &'static str,
}

/// A kind of weapon.
#[derive(Debug, Clone, Copy, PartialEq, Eq)]
pub struct WeaponType {
    pub code: &'static str,
    pub name: &'static str,
    pub description: &'static str,
}

/// A rarity tier.
#[derive(Debug, Clone, Copy, PartialEq, Eq)]
pub struct RarityTier {
    pub tier: u8,
    pub code: &'static str,
    pub name: &'static str,
    pub color: &'static str,
}

/// A known legendary item.
#[derive(Debug, Clone, Copy, PartialEq, Eq)]
pub struct LegendaryItem {
    pub internal: &'static str,
    pub name: &'static str,
    pub weapon_type: &'static str,
    pub manufacturer: &'static str,
}

/// The first element of `s` at or after `from` that satisfies `wanted`.
pub open spec fn first_match<T>(s: Seq<T>, wanted: spec_fn(T) -> bool, from: int) -> Option<T>
    decreases s.len() - from,
{
    if from < 0 || from >= s.len() {
        None
    } else if wanted(s[from]) {
        Some(s[from])
    } else {
        first_match(s, wanted, from + 1)
    }
}

/// What `first_match` yields is an element of the table that satisfies the
/// condition and comes before every other such element; it yields nothing
/// only when no element satisfies the condition.
pub proof fn lemma_first_match<T>(s: Seq<T>, wanted: spec_fn(T) -> bool, from: int)
    requires
        0 <= from,
    ensures
        match first_match(s, wanted, from) {
            Some(x) => exists|i: int|
                from <= i < s.len() && s[i] == x && wanted(x) && forall|j: int|
                    from <= j < i ==> !wanted(#[trigger] s[j]),
            None => forall|j: int| from <= j < s.len() ==> !wanted(#[trigger] s[j]),
        },
    decreases s.len() - from,
{
    if from < s.len() {
        if wanted(s[from]) {
            assert(s[from] == s[from] && forall|j: int| from <= j < from ==> !wanted(#[trigger] s[j]));
        } else {
            lemma_first_match(s, wanted, from + 1);
            match first_match(s, wanted, from + 1) {
                Some(x) => {
                    let i = choose|i: int|
                        from + 1 <= i < s.len() && s[i] == x && wanted(x) && forall|j: int|
                            from + 1 <= j < i ==> !wanted(#[trigger] s[j]);
                    assert(forall|j: int| from <= j < i ==> !wanted(#[trigger] s[j]));
                },
                None => {},
            }
        }
    }
}

/// The gear types, in table order.
pub open spec fn gear_table() -> Seq<GearType> {
    seq![
        GearType { code: "shield", name: "Shield", description: "Defensive equipment" },
        GearType { code: "classmod", name: "Class Mod", description: "Character class modifications" },
        GearType { code: "enhancement", name: "Enhancement", description: "Permanent character upgrades" },
        GearType { code: "gadget", name: "Gadget", description: "Deployable equipment" },
        GearType { code: "repair_kit", name: "Repair Kit", description: "Healing items" },
        GearType { code: "grenade", name: "Grenade", description: "Throwable explosive devices" },
    ]
}

/// The gear types.
pub fn gear_types() -> (v: Vec<GearType>)
    ensures
        v@ == gear_table(),
{
    let v = vec![
        GearType { code: "shield", name: "Shield", description: "Defensive equipment" },
        GearType { code: "classmod", name: "Class Mod", description: "Character class modifications" },
        GearType { code: "enhancement", name: "Enhancement", description: "Permanent character upgrades" },
        GearType { code: "gadget", name: "Gadget", description: "Deployable equipment" },
        GearType { code: "repair_kit", name: "Repair Kit", description: "Healing items" },
        GearType { code: "grenade", name: "Grenade", description: "Throwable explosive devices" },
    ];
    assert(v@ =~= gear_table());
    v
}

/// The weapon types, in table order.
pub open spec fn weapon_table() -> Seq<WeaponType> {
    seq![
        WeaponType { code: "AR", name: "Assault Rifle", description: "Full-auto/burst fire rifles" },
        WeaponType { code: "HW", name: "Heavy Weapon", description: "Launchers and miniguns" },
        WeaponType { code: "PS", name: "Pistol", description: "Semi-auto and full-auto handguns" },
        WeaponType { code: "SG", name: "Shotgun", description: "High-damage spread weapons" },
        WeaponType { code: "SM", name: "SMG", description: "Submachine guns" },
        WeaponType { code: "SR", name: "Sniper Rifle", description: "Long-range precision weapons" },
    ]
}

/// The weapon types.
pub fn weapon_types() -> (v: Vec<WeaponType>)
    ensures
        v@ == weapon_table(),
{
    let v = vec![
        WeaponType { code: "AR", name: "Assault Rifle", description: "Full-auto/burst fire rifles" },
        WeaponType { code: "HW", name: "Heavy Weapon", description: "Launchers and miniguns" },
        WeaponType { code: "PS", name: "Pistol", description: "Semi-auto and full-auto handguns" },
        WeaponType { code: "SG", name: "Shotgun", description: "High-damage spread weapons" },
        WeaponType { code: "SM", name: "SMG", description: "Submachine guns" },
        WeaponType { code: "SR", name: "Sniper Rifle", description: "Long-range precision weapons" },
    ];
    assert(v@ =~= weapon_table());
    v
}

/// The rarity tiers, from the most common to the rarest.
pub open spec fn rarity_table() -> Seq<RarityTier> {
    seq![
        RarityTier { tier: 1, code: "comp_01", name: "Common", color: "#FFFFFF" },
        RarityTier { tier: 2, code: "comp_02", name: "Uncommon", color: "#00FF00" },
        RarityTier { tier: 3, code: "comp_03", name: "Rare", color: "#0080FF" },
        RarityTier { tier: 4, code: "comp_04", name: "Epic", color: "#A020F0" },
        RarityTier { tier: 5, code: "comp_05", name: "Legendary", color: "#FFA500" },
    ]
}

/// The rarity tiers.
pub fn rarity_tiers() -> (v: Vec<RarityTier>)
    ensures
        v@ == rarity_table(),
{
    let v = vec![
        RarityTier { tier: 1, code: "comp_01", name: "Common", color: "#FFFFFF" },
        RarityTier { tier: 2, code: "comp_02", name: "Uncommon", color: "#00FF00" },
        RarityTier { tier: 3, code: "comp_03", name: "Rare", color: "#0080FF" },
        RarityTier { tier: 4, code: "comp_04", name: "Epic", color: "#A020F0" },
        RarityTier { tier: 5, code: "comp_05", name: "Legendary", color: "#FFA500" },
    ];
    assert(v@ =~= rarity_table());
    v
}

/// The known legendary items, in table order.
pub open spec fn legendary_table() -> Seq<LegendaryItem> {
    seq![
        LegendaryItem { internal: "DAD_AR.comp_05_legendary_OM", name: "OM", weapon_type: "AR", manufacturer: "DAD" },
        LegendaryItem { internal: "DAD_AR_Lumberjack", name: "Lumberjack", weapon_type: "AR", manufacturer: "DAD" },
        LegendaryItem { internal: "DAD_SG.comp_05_legendary_HeartGUn", name: "Heart Gun", weapon_type: "SG", manufacturer: "DAD" },
        LegendaryItem { internal: "DAD_PS.Zipper", name: "Zipper", weapon_type: "PS", manufacturer: "DAD" },
        LegendaryItem { internal: "DAD_PS.Rangefinder", name: "Rangefinder", weapon_type: "PS", manufacturer: "DAD" },
        LegendaryItem { internal: "DAD_SG.Durendal", name: "Durendal", weapon_type: "SG", manufacturer: "DAD" },
        LegendaryItem { internal: "JAK_AR.comp_05_legendary_rowan", name: "Rowan's Call", weapon_type: "AR", manufacturer: "JAK" },
        LegendaryItem { internal: "JAK_PS.comp_05_legendary_SeventhSense", name: "Seventh Sense", weapon_type: "PS", manufacturer: "JAK" },
        LegendaryItem { internal: "JAK_PS.comp_05_legendary_kingsgambit", name: "King's Gambit", weapon_type: "PS", manufacturer: "JAK" },
        LegendaryItem { internal: "JAK_PS.comp_05_legendary_phantom_flame", name: "Phantom Flame", weapon_type: "PS", manufacturer: "JAK" },
        LegendaryItem { internal: "JAK_SG.comp_05_legendary_RainbowVomit", name: "Rainbow Vomit", weapon_type: "SG", manufacturer: "JAK" },
        LegendaryItem { internal: "JAK_SR.comp_05_legendary_ballista", name: "Ballista", weapon_type: "SR", manufacturer: "JAK" },
        LegendaryItem { internal: "MAL_HW.comp_05_legendary_GammaVoid", name: "Gamma Void", weapon_type: "HW", manufacturer: "MAL" },
        LegendaryItem { internal: "MAL_SM.comp_05_legendary_OhmIGot", name: "Ohm I Got", weapon_type: "SM", manufacturer: "MAL" },
        LegendaryItem { internal: "BOR_SM.comp_05_legendary_p", name: "Unknown Borg SMG", weapon_type: "SM", manufacturer: "BOR" },
        LegendaryItem { internal: "TED_AR.comp_05_legendary_Chuck", name: "Chuck", weapon_type: "AR", manufacturer: "TED" },
        LegendaryItem { internal: "TED_PS.comp_05_legendary_Sideshow", name: "Sideshow", weapon_type: "PS", manufacturer: "TED" },
        LegendaryItem { internal: "TED_SG.comp_05_legendary_a", name: "Unknown Tediore Shotgun", weapon_type: "SG", manufacturer: "TED" },
        LegendaryItem { internal: "TOR_AR.comp_05_legendary_Trogdor", name: "Trogdor", weapon_type: "AR", manufacturer: "TOR" },
        LegendaryItem { internal: "TOR_HW.comp_05_legendary_ravenfire", name: "Ravenfire", weapon_type: "HW", manufacturer: "TOR" },
        LegendaryItem { internal: "TOR_SG.comp_05_legendary_Linebacker", name: "Linebacker", weapon_type: "SG", manufacturer: "TOR" },
        LegendaryItem { internal: "VLA_AR.comp_05_legendary_WomboCombo", name: "Wombo Combo", weapon_type: "AR", manufacturer: "VLA" },
        LegendaryItem { internal: "VLA_HW.comp_05_legendary_AtlingGun", name: "Atling Gun", weapon_type: "HW", manufacturer: "VLA" },
        LegendaryItem { internal: "VLA_SM.comp_05_legendary_KaoSon", name: "Kaoson", weapon_type: "SM", manufacturer: "VLA" },
        LegendaryItem { internal: "VLA_SR.comp_05_legendary_Vyudazy", name: "Vyudazy", weapon_type: "SR", manufacturer: "VLA" },
    ]
}

/// The known legendary items.
pub fn known_legendaries() -> (v: Vec<LegendaryItem>)
    ensures
        v@ == legendary_table(),
{
    let v = vec![
        LegendaryItem { internal: "DAD_AR.comp_05_legendary_OM", name: "OM", weapon_type: "AR", manufacturer: "DAD" },
        LegendaryItem { internal: "DAD_AR_Lumberjack", name: "Lumberjack", weapon_type: "AR", manufacturer: "DAD" },
        LegendaryItem { internal: "DAD_SG.comp_05_legendary_HeartGUn", name: "Heart Gun", weapon_type: "SG", manufacturer: "DAD" },
        LegendaryItem { internal: "DAD_PS.Zipper", name: "Zipper", weapon_type: "PS", manufacturer: "DAD" },
        LegendaryItem { internal: "DAD_PS.Rangefinder", name: "Rangefinder", weapon_type: "PS", manufacturer: "DAD" },
        LegendaryItem { internal: "DAD_SG.Durendal", name: "Durendal", weapon_type: "SG", manufacturer: "DAD" },
        LegendaryItem { internal: "JAK_AR.comp_05_legendary_rowan", name: "Rowan's Call", weapon_type: "AR", manufacturer: "JAK" },
        LegendaryItem { internal: "JAK_PS.comp_05_legendary_SeventhSense", name: "Seventh Sense", weapon_type: "PS", manufacturer: "JAK" },
        LegendaryItem { internal: "JAK_PS.comp_05_legendary_kingsgambit", name: "King's Gambit", weapon_type: "PS", manufacturer: "JAK" },
        LegendaryItem { internal: "JAK_PS.comp_05_legendary_phantom_flame", name: "Phantom Flame", weapon_type: "PS", manufacturer: "JAK" },
        LegendaryItem { internal: "JAK_SG.comp_05_legendary_RainbowVomit", name: "Rainbow Vomit", weapon_type: "SG", manufacturer: "JAK" },
        LegendaryItem { internal: "JAK_SR.comp_05_legendary_ballista", name: "Ballista", weapon_type: "SR", manufacturer: "JAK" },
        LegendaryItem { internal: "MAL_HW.comp_05_legendary_GammaVoid", name: "Gamma Void", weapon_type: "HW", manufacturer: "MAL" },
        LegendaryItem { internal: "MAL_SM.comp_05_legendary_OhmIGot", name: "Ohm I Got", weapon_type: "SM", manufacturer: "MAL" },
        LegendaryItem { internal: "BOR_SM.comp_05_legendary_p", name: "Unknown Borg SMG", weapon_type: "SM", manufacturer: "BOR" },
        LegendaryItem { internal: "TED_AR.comp_05_legendary_Chuck", name: "Chuck", weapon_type: "AR", manufacturer: "TED" },
        LegendaryItem { internal: "TED_PS.comp_05_legendary_Sideshow", name: "Sideshow", weapon_type: "PS", manufacturer: "TED" },
        LegendaryItem { internal: "TED_SG.comp_05_legendary_a", name: "Unknown Tediore Shotgun", weapon_type: "SG", manufacturer: "TED" },
        LegendaryItem { internal: "TOR_AR.comp_05_legendary_Trogdor", name: "Trogdor", weapon_type: "AR", manufacturer: "TOR" },
        LegendaryItem { internal: "TOR_HW.comp_05_legendary_ravenfire", name: "Ravenfire", weapon_type: "HW", manufacturer: "TOR" },
        LegendaryItem { internal: "TOR_SG.comp_05_legendary_Linebacker", name: "Linebacker", weapon_type: "SG", manufacturer: "TOR" },
        LegendaryItem { internal: "VLA_AR.comp_05_legendary_WomboCombo", name: "Wombo Combo", weapon_type: "AR", manufacturer: "VLA" },
        LegendaryItem { internal: "VLA_HW.comp_05_legendary_AtlingGun", name: "Atling Gun", weapon_type: "HW", manufacturer: "VLA" },
        LegendaryItem { internal: "VLA_SM.comp_05_legendary_KaoSon", name: "Kaoson", weapon_type: "SM", manufacturer: "VLA" },
        LegendaryItem { internal: "VLA_SR.comp_05_legendary_Vyudazy", name: "Vyudazy", weapon_type: "SR", manufacturer: "VLA" },
    ];
    assert(v@ =~= legendary_table());
    v
}

/// The first gear type with the given code.
pub fn gear_type_by_code(code: &str) -> (r: Option<GearType>)
    ensures
        r == first_match(gear_table(), |x: GearType| x.code@ == code@, 0),
{
    let items = gear_types();
    let mut i: usize = 0;
    while i < items.len()
        invariant
            i <= items.len(),
            items@ == gear_table(),
            first_match(gear_table(), |x: GearType| x.code@ == code@, 0) == first_match(
                gear_table(),
                |x: GearType| x.code@ == code@,
                i as int,
            ),
        decreases items.len() - i,
    {
        if str_eq(items[i].code, code) {
            return Some(items[i]);
        }
        i = i + 1;
    }
    None
}

/// The first weapon type with the given code.
pub fn weapon_type_by_code(code: &str) -> (r: Option<WeaponType>)
    ensures
        r == first_match(weapon_table(), |x: WeaponType| x.code@ == code@, 0),
{
    let items = weapon_types();
    let mut i: usize = 0;
    while i < items.len()
        invariant
            i <= items.len(),
            items@ == weapon_table(),
            first_match(weapon_table(), |x: WeaponType| x.code@ == code@, 0) == first_match(
                weapon_table(),
                |x: WeaponType| x.code@ == code@,
                i as int,
            ),
        decreases items.len() - i,
    {
        if str_eq(items[i].code, code) {
            return Some(items[i]);
        }
        i = i + 1;
    }
    None
}

/// The first rarity tier with the given number.
pub fn rarity_by_tier(tier: u8) -> (r: Option<RarityTier>)
    ensures
        r == first_match(rarity_table(), |x: RarityTier| x.tier == tier, 0),
{
    let items = rarity_tiers();
    let mut i: usize = 0;
    while i < items.len()
        invariant
            i <= items.len(),
            items@ == rarity_table(),
            first_match(rarity_table(), |x: RarityTier| x.tier == tier, 0) == first_match(
                rarity_table(),
                |x: RarityTier| x.tier == tier,
                i as int,
            ),
        decreases items.len() - i,
    {
        if items[i].tier == tier {
            return Some(items[i]);
        }
        i = i + 1;
    }
    None
}

/// The first rarity tier with the given code.
pub fn rarity_by_code(code: &str) -> (r: Option<RarityTier>)
    ensures
        r == first_match(rarity_table(), |x: RarityTier| x.code@ == code@, 0),
{
    let items = rarity_tiers();
    let mut i: usize = 0;
    while i < items.len()
        invariant
            i <= items.len(),
            items@ == rarity_table(),
            first_match(rarity_table(), |x: RarityTier| x.code@ == code@, 0) == first_match(
                rarity_table(),
                |x: RarityTier| x.code@ == code@,
                i as int,
            ),
        decreases items.len() - i,
    {
        if str_eq(items[i].code, code) {
            return Some(items[i]);
        }
        i = i + 1;
    }
    None
}

/// The first legendary item with the given internal name.
pub fn legendary_by_internal(internal: &str) -> (r: Option<LegendaryItem>)
    ensures
        r == first_match(legendary_table(), |x: LegendaryItem| x.internal@ == internal@, 0),
{
    let items = known_legendaries();
    let mut i: usize = 0;
    while i < items.len()
        invariant
            i <= items.len(),
            items@ == legendary_table(),
            first_match(legendary_table(), |x: LegendaryItem| x.internal@ == internal@, 0) == first_match(
                legendary_table(),
                |x: LegendaryItem| x.internal@ == internal@,
                i as int,
            ),
        decreases items.len() - i,
    {
        if str_eq(items[i].internal, internal) {
            return Some(items[i]);
        }
        i = i + 1;
    }
    None
}

/// The first legendary item with the given display name.
pub fn legendary_by_name(name: &str) -> (r: Option<LegendaryItem>)
    ensures
        r == first_match(legendary_table(), |x: LegendaryItem| x.name@ == name@, 0),
{
    let items = known_legendaries();
    let mut i: usize = 0;
    while i < items.len()
        invariant
            i <= items.len(),
            items@ == legendary_table(),
            first_match(legendary_table(), |x: LegendaryItem| x.name@ == name@, 0) == first_match(
                legendary_table(),
                |x: LegendaryItem| x.name@ == name@,
                i as int,
            ),
        decreases items.len() - i,
    {
        if str_eq(items[i].name, name) {
            return Some(items[i]);
        }
        i = i + 1;
    }
    None
}

} // verus!
