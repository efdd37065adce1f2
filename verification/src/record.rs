//! The variant catalog: the capabilities that every record has, and the
//! closed set of record shapes that have them.
//!
//! The shapes are not related to each other. Each has a key type of its own
//! and meets the same capability contract: a label, an identity and the name
//! of its endpoint, which is fixed per shape.
use crate::composite_id::CompositeId;
use crate::text::text_eq;
use std::sync::Arc;
use vstd::prelude::*;

verus! {

/// The closed set of record shapes.
#[derive(Debug, Clone, Copy, PartialEq, Eq, Structural)]
pub enum Variant {
    /// Records keyed by a number.
    Foo,
    /// Records keyed by a text.
    Bar,
}

impl Variant {
    /// The symbolic name of the shape. It names the shape in the content-type
    /// table and is the name of the shape's endpoint.
    pub open spec fn name_text(self) -> Seq<char> {
        match self {
            Variant::Foo => "foo"@,
            Variant::Bar => "bar"@,
        }
    }

    /// The shape that `name` names, if it names one.
    pub open spec fn named(name: Seq<char>) -> Option<Variant> {
        if name == Variant::Foo.name_text() {
            Some(Variant::Foo)
        } else if name == Variant::Bar.name_text() {
            Some(Variant::Bar)
        } else {
            None
        }
    }

    /// The discriminator under which a record of the shape names itself.
    pub open spec fn discriminator_value(self) -> u32 {
        match self {
            Variant::Foo => 0,
            Variant::Bar => 1,
        }
    }

    /// The symbolic name of the shape.
    pub fn name(&self) -> (name: &'static str)
        ensures
            name@ == self.name_text(),
    {
        match self {
            Variant::Foo => "foo",
            Variant::Bar => "bar",
        }
    }

    /// The shape that `name` names: `None` for a name of no shape.
    pub fn from_name(name: &str) -> (r: Option<Variant>)
        ensures
            r == Variant::named(name@),
    {
        if text_eq(name, Variant::Foo.name()) {
            Some(Variant::Foo)
        } else if text_eq(name, Variant::Bar.name()) {
            Some(Variant::Bar)
        } else {
            None
        }
    }

    /// The discriminator under which a record of the shape names itself.
    pub fn discriminator(&self) -> (d: u32)
        ensures
            d == self.discriminator_value(),
    {
        match self {
            Variant::Foo => 0,
            Variant::Bar => 1,
        }
    }
}

/// Each shape is named by its own name and by no other.
pub proof fn lemma_variant_names(v: Variant)
    ensures
        Variant::named(v.name_text()) == Some(v),
        Variant::Foo.name_text() != Variant::Bar.name_text(),
{
    reveal_strlit("foo");
    reveal_strlit("bar");
    assert("foo"@[0] != "bar"@[0]);
}

/// What can be seen of a record through any of its capabilities: the
/// capability surface as one value.
pub struct Capabilities<K> {
    /// The human-readable label.
    pub label: Seq<char>,
    /// The identity, of the key type of the record's shape.
    pub identity: K,
    /// The name of the endpoint of the record's shape.
    pub endpoint_name: Seq<char>,
}

/// A record with a human-readable label.
pub trait Label {
    /// The label, as a value.
    spec fn label_text(&self) -> Seq<char>;

    /// The label.
    fn label(&self) -> (text: &str)
        ensures
            text@ == self.label_text(),
    ;
}

/// A record with an identity of the key type `K`.
pub trait Id {
    /// The key type of the record's shape.
    type K: View;

    /// The identity, as a value.
    spec fn id_value(&self) -> <Self::K as View>::V;

    /// The identity.
    fn id(&self) -> (k: Self::K)
        ensures
            k@ == self.id_value(),
    ;
}

/// A record that can name itself by a composite identifier with a key of
/// type `Z`.
pub trait ToCompositeId<Z: View> {
    /// The composite identifier, as a value.
    spec fn composite_id_value(&self) -> CompositeId<Z::V>;

    /// The composite identifier of the record.
    fn composite_id(&self) -> (id: CompositeId<Z>)
        ensures
            id@ == self.composite_id_value(),
    ;
}

/// The capability surface: what a consumer can do with a record whose shape
/// it does not know. It is met by every shape, by a shared record of any
/// shape and by the erased handles.
pub trait ErasedRecord: Id + Label {
    /// The name of the endpoint, as a value.
    spec fn endpoint_text(&self) -> Seq<char>;

    /// The name of the endpoint of the record's shape.
    fn endpoint_name(&self) -> (name: &'static str)
        ensures
            name@ == self.endpoint_text(),
    ;
}

/// The capability surface of `r` as one value.
pub open spec fn capabilities<R: ErasedRecord>(r: &R) -> Capabilities<<R::K as View>::V> {
    Capabilities {
        label: r.label_text(),
        identity: r.id_value(),
        endpoint_name: r.endpoint_text(),
    }
}

/// A record keyed by a number.
#[derive(Debug, PartialEq, Eq)]
pub struct Foo {
    id: u32,
    label: String,
}

/// A record keyed by a text.
#[derive(Debug, PartialEq, Eq)]
pub struct Bar {
    id: String,
    label: String,
}

impl Foo {
    /// A record with the given identity and label.
    pub fn new(id: u32, label: String) -> (record: Foo)
        ensures
            record.id_value() == id,
            record.label_text() == label@,
    {
        Foo { id, label }
    }
}

impl Bar {
    /// A record with the given identity and label.
    pub fn new(id: String, label: String) -> (record: Bar)
        ensures
            record.id_value() == id@,
            record.label_text() == label@,
    {
        Bar { id, label }
    }
}

impl Label for Foo {
    closed spec fn label_text(&self) -> Seq<char> {
        self.label@
    }

    fn label(&self) -> (text: &str) {
        self.label.as_str()
    }
}

impl Id for Foo {
    type K = u32;

    closed spec fn id_value(&self) -> u32 {
        self.id
    }

    fn id(&self) -> (k: u32) {
        // A number is its own view.
        assert(self.id@ == self.id);
        self.id
    }
}

impl ToCompositeId<u32> for Foo {
    open spec fn composite_id_value(&self) -> CompositeId<u32> {
        CompositeId(Variant::Foo.discriminator_value(), self.id_value())
    }

    fn composite_id(&self) -> (id: CompositeId<u32>) {
        CompositeId(Variant::Foo.discriminator(), self.id)
    }
}

impl ErasedRecord for Foo {
    open spec fn endpoint_text(&self) -> Seq<char> {
        Variant::Foo.name_text()
    }

    fn endpoint_name(&self) -> (name: &'static str) {
        Variant::Foo.name()
    }
}

impl Label for Bar {
    closed spec fn label_text(&self) -> Seq<char> {
        self.label@
    }

    fn label(&self) -> (text: &str) {
        self.label.as_str()
    }
}

impl Id for Bar {
    type K = String;

    closed spec fn id_value(&self) -> Seq<char> {
        self.id@
    }

    fn id(&self) -> (k: String) {
        self.id.clone()
    }
}

impl ToCompositeId<String> for Bar {
    open spec fn composite_id_value(&self) -> CompositeId<Seq<char>> {
        CompositeId(Variant::Bar.discriminator_value(), self.id_value())
    }

    fn composite_id(&self) -> (id: CompositeId<String>) {
        CompositeId(Variant::Bar.discriminator(), self.id.clone())
    }
}

impl ErasedRecord for Bar {
    open spec fn endpoint_text(&self) -> Seq<char> {
        Variant::Bar.name_text()
    }

    fn endpoint_name(&self) -> (name: &'static str) {
        Variant::Bar.name()
    }
}

impl<T: Label> Label for Arc<T> {
    open spec fn label_text(&self) -> Seq<char> {
        (**self).label_text()
    }

    fn label(&self) -> (text: &str) {
        (**self).label()
    }
}

impl<T: Id> Id for Arc<T> {
    type K = T::K;

    open spec fn id_value(&self) -> <T::K as View>::V {
        (**self).id_value()
    }

    fn id(&self) -> (k: T::K) {
        (**self).id()
    }
}

impl<Z: View, T: ToCompositeId<Z>> ToCompositeId<Z> for Arc<T> {
    open spec fn composite_id_value(&self) -> CompositeId<Z::V> {
        (**self).composite_id_value()
    }

    fn composite_id(&self) -> (id: CompositeId<Z>) {
        (**self).composite_id()
    }
}

impl<T: ErasedRecord> ErasedRecord for Arc<T> {
    open spec fn endpoint_text(&self) -> Seq<char> {
        (**self).endpoint_text()
    }

    fn endpoint_name(&self) -> (name: &'static str) {
        (**self).endpoint_name()
    }
}

} // verus!
