//! Decoder for the bit-packed NCS catalog format, with the tools that work
//! on decoded catalogs and on the files around them.
//!
//! The core reads a catalog from bytes: a bit reader ([`reader`]), the
//! string table and its combined form ([`table`]), the primitive decoders
//! ([`decode`], [`gamma`]), the record grammar ([`grammar`]), document
//! assembly and the extraction of serial indices ([`document`]), and the
//! search for the binary section ([`locate`]). The decoded data lives in
//! [`model`] and [`fields`].
//!
//! Around the core stand the parts database ([`parts`], [`tsv`],
//! [`part_index`]), byte records ([`records`]), path filters ([`filter`]),
//! inventory state flags and pending save changes ([`state_flags`],
//! [`changeset`]), the script-objects table ([`script_objects`]), reference
//! tables ([`reference`]), report shapes ([`report`]) and the rendering of
//! tables as tab-separated values ([`tabular`]).
//!
//! Every executable function carries a contract that Verus proves. The
//! decoders are specified by mathematical decoders over `Seq<u8>` and a bit
//! position; the executable code is shown to compute exactly what they
//! describe, and to stop where they stop, whether decoding succeeds or not.
//! Three outside functions are called without proof, each behind a private
//! wrapper that says what is assumed of it: the glob matcher, the YAML
//! parser, and the Unicode lower-casing and UTF-8 validation of the
//! standard library.

pub mod bits;
pub mod changeset;
pub mod decode;
pub mod document;
pub mod fields;
pub mod filter;
pub mod gamma;
pub mod grammar;
pub mod locate;
pub mod model;
pub mod order;
pub mod part_index;
pub mod parts;
pub mod reader;
pub mod records;
pub mod reference;
pub mod report;
pub mod script_objects;
pub mod state_flags;
pub mod table;
pub mod tabular;
pub mod text;
pub mod tsv;

pub use crate::bits::bit_width;
pub use crate::changeset::{ChangeSet, ChangeValue, SaveError};
pub use crate::decode::{parse_dependencies, parse_fixed_width_array24, read_elias_gamma};
pub use crate::document::{assemble_document, extract_serial_indices, parse_document};
pub use crate::fields::FieldMap;
pub use crate::filter::{matches_filters, Filters};
pub use crate::grammar::{
    parse_dep_entries, parse_entries, parse_list, parse_nested_fields, parse_record, parse_tags,
};
pub use crate::locate::{find_binary_section, resolve_binary_offset, Header};
pub use crate::model::{
    DepEntry, Document, EntryValue, FieldValue, FixedWidthArray, Record, SerialIndexEntry, Tag,
};
pub use crate::part_index::{extract_null_strings, parse_part_name, PartIndex};
pub use crate::parts::{
    build_category_map, find_category_by_name, group_parts_by_type, parse_category_id,
    FindCategoryResult, PartCategoriesFile, PartCategory, PartEntry, PartsDatabase,
    PartsQueryResult,
};
pub use crate::reader::BitReader;
pub use crate::records::{filter_by_position, group_by_position};
pub use crate::reference::{
    gear_type_by_code, legendary_by_internal, legendary_by_name, rarity_by_code, rarity_by_tier,
    weapon_type_by_code, GearType, LegendaryItem, RarityTier, WeaponType,
};
pub use crate::report::{
    ItemParts, LegendaryComposition, ManufacturerMapping, NexusSerializedEntry, PropertyTypeInfo,
    ScanResult, ScriptObjectEntry, ScriptObjectsDump, SearchMatch, ZenImportInfo,
};
pub use crate::state_flags::StateFlags;
pub use crate::table::{combined_string_table, create_combined_string_table, StringTable};
pub use crate::tabular::format_tsv;
