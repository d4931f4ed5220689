//! Asset data model: schemas, values, assets with prototype inheritance,
//! standalone objects, diffs between data sets and typed field accessors.

pub mod ids;
pub mod path;
pub mod schema;
pub mod prop_map;
pub mod ordered_set;
pub mod value;
pub mod schema_set;
pub mod property_util;
pub mod data_set;
pub mod data_set_laws;
pub mod diff;
pub mod single_object;
pub mod path_reference;
pub mod data_container;
pub mod field_wrappers;
pub mod field_refs;
pub mod json_storage;
pub mod property_hash;
pub mod json_round_trip;
pub mod hash_laws;
