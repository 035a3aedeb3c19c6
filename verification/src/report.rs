//! The results that catalog commands report: what a scan found, which files
//! matched a search, and what parts and names were recovered from an
//! inventory catalog.

use std::collections::HashMap;
use vstd::prelude::*;

verus! {

/// What a scan of a directory of catalogs found.
#[derive(Debug)]
pub struct ScanResult {
    pub total_files: usize,
    pub parsed_files: usize,
    /// The files of each catalog type.
    pub types: HashMap<String, Vec<String>>,
    /// The number of files of each format code.
    pub formats: HashMap<String, usize>,
}

/// A file in which a search found something.
#[derive(Debug)]
pub struct SearchMatch {
    pub path: String,
    pub type_label: String,
    pub matches: Vec<String>,
}

/// The parts that an item can be built from.
#[derive(Debug)]
pub struct ItemParts {
    /// The item, such as `DAD_PS` or `Armor_Shield`.
    pub item_id: String,
    /// Every part that is valid for the item.
    pub parts: Vec<String>,
    /// The legendary compositions of the item.
    pub legendary_compositions: Vec<LegendaryComposition>,
}

/// A legendary composition and the parts it requires.
#[derive(Debug)]
pub struct LegendaryComposition {
    /// The composition, such as `comp_05_legendary_Zipgun`.
    pub name: String,
    /// The part that gives the item its unique name, if any.
    pub unique_name: Option<String>,
    /// The parts that the composition requires.
    pub mandatory_parts: Vec<String>,
}

/// An entry that maps an internal code to a display name.
#[derive(Debug, Clone)]
pub struct NexusSerializedEntry {
    pub guid: String,
    /// The display name, such as `Ripper Shotgun`.
    pub display_name: String,
    /// The manufacturer code, such as `BOR`, where the entry has one.
    pub manufacturer_code: Option<String>,
    /// The weapon type, such as `Shotgun`, where the entry has one.
    pub weapon_type: Option<String>,
}

/// The display name of a manufacturer code.
#[derive(Debug)]
pub struct ManufacturerMapping {
    /// The internal code, such as `BOR`.
    pub code: String,
    /// The display name, such as `Ripper`.
    pub name: String,
}

/// A reference that an asset imports.
#[derive(Debug)]
pub struct ZenImportInfo {
    pub index: usize,
    pub type_label: String,
}

/// An entry of the script-objects lookup table.
#[derive(Debug)]
pub struct ScriptObjectEntry {
    /// The object's name, such as `InventoryPartDef`.
    pub name: String,
    /// The object's full path, such as `/Script/GbxInventory.InventoryPartDef`.
    pub path: String,
    /// The object's hash, in upper-case hexadecimal.
    pub hash: String,
    /// The object's hash.
    pub hash_value: u64,
    /// The hash of the enclosing object, if there is one.
    pub outer_hash: Option<String>,
    /// The hash of the class of the default object, if there is one.
    pub cdo_class_hash: Option<String>,
}

/// The script-objects table of a game installation.
#[derive(Debug)]
pub struct ScriptObjectsDump {
    pub count: usize,
    pub objects: Vec<ScriptObjectEntry>,
    /// The path of each hash.
    pub hash_to_path: HashMap<String, String>,
}

/// The type of a property, read off the name table of an asset.
#[derive(Debug, Clone)]
pub struct PropertyTypeInfo {
    pub name: String,
    pub type_label: String,
    pub size: usize,
    pub schema_index: u32,
}

} // verus!
