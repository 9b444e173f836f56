//! A typed, sectioned configuration store.
//!
//! The store keeps an in-memory document of named sections, each a table of
//! keys mapped to tagged values (strings, integers, floats held as their
//! 64-bit encodings, booleans, timestamps, arrays and nested tables).  Typed
//! accessors read and write scalar and array values; the document as a whole
//! is parsed from and rendered to TOML text.  A schema-driven engine loads a
//! structured record from a section and writes it back, pruning keys the
//! schema does not declare.

pub mod confer_module;
pub mod error;
pub mod fmt_num;
pub mod laws;
pub mod model;
pub mod section_guard;
pub mod store;
pub mod toml_decl;
pub mod value;
pub mod value_conversion;

pub use crate::confer_module::{FieldSpec, FieldValue, ModuleSchema, Record, ScalarValue};
pub use crate::error::ConferError;
pub use crate::model::{ContainerKind, FieldType, FloatKind, IntegerKind, ScalarKind};
pub use crate::section_guard::SectionGuard;
pub use crate::store::Confer;
pub use crate::value::{Timestamp, ConferValue};
