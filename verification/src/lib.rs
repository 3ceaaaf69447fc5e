//! Asset interception for the block game: the decisions of the hooks that
//! serve resource-pack files in place of APK assets, the parsing of the
//! process memory map, and the signature scan plan.
pub mod buffer;
pub mod table;
pub mod fields;
pub mod maps;
pub mod pack;
pub mod signature;
pub mod lock;
pub mod modules;
