//! Model of a hardware register description (device, peripherals, clusters,
//! registers and fields), the resolution of `derivedFrom` references, the
//! cascade of default register properties, the grouping of similar
//! peripherals and fields, and the generation of register accessor code.
pub mod access;
pub mod address_block;
pub mod bit_range;
pub mod cluster;
pub mod codegen;
pub mod data_type;
pub mod derivation;
pub mod device;
pub mod dim_element_group;
pub mod document;
pub mod element;
pub mod enumerated_values;
pub mod errors;
pub mod field;
pub mod interrupt;
pub mod is_similar;
pub mod modified_write_values;
pub mod names;
pub mod peripheral;
pub mod read_action;
pub mod register;
pub mod register_or_cluster;
pub mod register_properties_group;
pub mod text;
pub mod types;
pub mod utils;
