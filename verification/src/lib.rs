//! An identity-erasure registry: records of several shapes, each addressed by
//! a composite identifier, looked up without knowing the shape and handed out
//! behind a handle with a fixed set of capabilities.
//!
//! - [`composite_id`]: the composite identifier and its text, `0:42`.
//! - [`record`]: the capabilities of a record and the shapes that have them.
//! - [`erased`]: the handles that hide the shape of a record.
//! - [`cache`]: the store, with its lookups by discriminator and key.
//! - [`grouping`]: grouping of actions by the label of their record.
//! - [`decimal`] and [`text`]: numerals and comparison of texts.
pub mod cache;
pub mod composite_id;
pub mod decimal;
pub mod erased;
pub mod grouping;
pub mod record;
pub mod text;

pub use crate::cache::{ArcCache, CacheView, ContentType, LookupKey};
pub use crate::composite_id::{CompositeId, DecodeError, KeyText};
pub use crate::erased::{Erase, ErasedString, ErasedU32};
pub use crate::grouping::{group_actions_by_label, ActionMap, AvailableAction, Grouping};
pub use crate::record::{Bar, Capabilities, ErasedRecord, Foo, Id, Label, ToCompositeId, Variant};
