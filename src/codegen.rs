//! Generation of register accessor code from a resolved device.
pub mod error;
pub mod rust;
