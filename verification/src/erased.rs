//! The erasure layer: handles that share a record of some shape and show
//! nothing of it but the capability surface.
//!
//! There is one handle type per key type. A handle holds a shared reference
//! to the record, so it stays valid when the store replaces or drops its own
//! reference. Which shape backs a handle cannot be asked.
use crate::record::{capabilities, Bar, ErasedRecord, Foo, Id, Label};
use std::sync::Arc;
use vstd::prelude::*;

verus! {

/// The shapes that are keyed by a number.
#[derive(Debug)]
enum NumericRecord {
    Foo(Arc<Foo>),
}

/// The shapes that are keyed by a text.
#[derive(Debug)]
enum TextRecord {
    Bar(Arc<Bar>),
}

/// A handle to a shared record of some shape that is keyed by a `u32`.
#[derive(Debug)]
pub struct ErasedU32 {
    record: NumericRecord,
}

/// A handle to a shared record of some shape that is keyed by a `String`.
#[derive(Debug)]
pub struct ErasedString {
    record: TextRecord,
}

/// A shared record that can be wrapped into a handle. Erasure cannot fail,
/// and the handle has the capabilities of the record.
pub trait Erase: ErasedRecord + Sized {
    /// The handle type for the key type of the record.
    type Handle: ErasedRecord<K = Self::K>;

    /// Wraps the record into a handle that forgets its shape.
    fn erase(self) -> (handle: Self::Handle)
        ensures
            capabilities(&handle) == capabilities(&self),
    ;
}

impl Erase for Arc<Foo> {
    type Handle = ErasedU32;

    fn erase(self) -> (handle: ErasedU32) {
        ErasedU32 { record: NumericRecord::Foo(self) }
    }
}

impl Erase for Arc<Bar> {
    type Handle = ErasedString;

    fn erase(self) -> (handle: ErasedString) {
        ErasedString { record: TextRecord::Bar(self) }
    }
}

impl Label for ErasedU32 {
    closed spec fn label_text(&self) -> Seq<char> {
        match self.record {
            NumericRecord::Foo(r) => r.label_text(),
        }
    }

    fn label(&self) -> (text: &str) {
        match &self.record {
            NumericRecord::Foo(r) => r.label(),
        }
    }
}

impl Id for ErasedU32 {
    type K = u32;

    closed spec fn id_value(&self) -> u32 {
        match self.record {
            NumericRecord::Foo(r) => r.id_value(),
        }
    }

    fn id(&self) -> (k: u32) {
        match &self.record {
            NumericRecord::Foo(r) => r.id(),
        }
    }
}

impl ErasedRecord for ErasedU32 {
    closed spec fn endpoint_text(&self) -> Seq<char> {
        match self.record {
            NumericRecord::Foo(r) => r.endpoint_text(),
        }
    }

    fn endpoint_name(&self) -> (name: &'static str) {
        match &self.record {
            NumericRecord::Foo(r) => r.endpoint_name(),
        }
    }
}

impl Clone for ErasedU32 {
    /// Another handle to the same record.
    fn clone(&self) -> (handle: ErasedU32)
        ensures
            capabilities(&handle) == capabilities(self),
    {
        match &self.record {
            NumericRecord::Foo(r) => ErasedU32 { record: NumericRecord::Foo(r.clone()) },
        }
    }
}

impl Label for ErasedString {
    closed spec fn label_text(&self) -> Seq<char> {
        match self.record {
            TextRecord::Bar(r) => r.label_text(),
        }
    }

    fn label(&self) -> (text: &str) {
        match &self.record {
            TextRecord::Bar(r) => r.label(),
        }
    }
}

impl Id for ErasedString {
    type K = String;

    closed spec fn id_value(&self) -> Seq<char> {
        match self.record {
            TextRecord::Bar(r) => r.id_value(),
        }
    }

    fn id(&self) -> (k: String) {
        match &self.record {
            TextRecord::Bar(r) => r.id(),
        }
    }
}

impl ErasedRecord for ErasedString {
    closed spec fn endpoint_text(&self) -> Seq<char> {
        match self.record {
            TextRecord::Bar(r) => r.endpoint_text(),
        }
    }

    fn endpoint_name(&self) -> (name: &'static str) {
        match &self.record {
            TextRecord::Bar(r) => r.endpoint_name(),
        }
    }
}

impl Clone for ErasedString {
    /// Another handle to the same record.
    fn clone(&self) -> (handle: ErasedString)
        ensures
            capabilities(&handle) == capabilities(self),
    {
        match &self.record {
            TextRecord::Bar(r) => ErasedString { record: TextRecord::Bar(r.clone()) },
        }
    }
}

} // verus!
