//! The record store: one map per shape from key to shared record, and the
//! content-type table from discriminator to the name of a shape.
//!
//! A lookup resolves the discriminator in the table, selects the sub-store of
//! the shape that the table names, and probes it for the key. It is
//! parameterized by key type: a lookup for a numeric key never probes a
//! sub-store with text keys, whatever the table says. Every way of finding
//! nothing gives `None`; none is an error.
use crate::erased::{Erase, ErasedString, ErasedU32};
use crate::record::{
    capabilities, lemma_variant_names, Bar, Capabilities, ErasedRecord, Foo, Id, Variant,
};
use std::collections::HashMap;
use std::sync::Arc;
use vstd::hash_map::StringHashMap;
use vstd::prelude::*;

verus! {

/// An entry of the content-type table: the symbolic name of a shape.
#[derive(Debug, PartialEq, Eq)]
pub struct ContentType {
    model: String,
}

impl View for ContentType {
    type V = Seq<char>;

    closed spec fn view(&self) -> Seq<char> {
        self.model@
    }
}

impl ContentType {
    /// An entry that holds the name `model`.
    pub fn new(model: String) -> (entry: ContentType)
        ensures
            entry@ == model@,
    {
        ContentType { model }
    }

    /// The name that the entry holds.
    pub fn model(&self) -> (name: &str)
        ensures
            name@ == self@,
    {
        self.model.as_str()
    }

    /// The shape that the entry names: `None` where it names none.
    pub fn variant(&self) -> (r: Option<Variant>)
        ensures
            r == Variant::named(self@),
    {
        Variant::from_name(self.model.as_str())
    }
}

impl Clone for ContentType {
    /// An entry with the same name.
    fn clone(&self) -> (entry: ContentType)
        ensures
            entry@ == self@,
    {
        ContentType { model: self.model.clone() }
    }
}

impl Default for ContentType {
    /// The entry with the empty name, which names no shape.
    fn default() -> (entry: ContentType)
        ensures
            entry@ == Seq::<char>::empty(),
    {
        ContentType { model: String::new() }
    }
}

/// What a store holds: the content-type table and, per shape, what can be
/// seen of the record under each key.
pub struct CacheView {
    /// The name that the content-type table holds for each discriminator.
    pub content_type: Map<u32, Seq<char>>,
    /// The records of shape `Foo`, by key.
    pub foo: Map<u32, Capabilities<u32>>,
    /// The records of shape `Bar`, by key.
    pub bar: Map<Seq<char>, Capabilities<Seq<char>>>,
}

impl CacheView {
    /// The store that holds nothing.
    pub open spec fn empty() -> CacheView {
        CacheView { content_type: Map::empty(), foo: Map::empty(), bar: Map::empty() }
    }

    /// The shape that the content-type table names for `discriminator`:
    /// `None` where the table has no entry for it or the entry names no
    /// shape.
    pub open spec fn variant_of(self, discriminator: u32) -> Option<Variant> {
        if self.content_type.contains_key(discriminator) {
            Variant::named(self.content_type[discriminator])
        } else {
            None
        }
    }

    /// What a lookup for a numeric key finds.
    pub open spec fn lookup_u32(self, discriminator: u32, key: u32) -> Option<Capabilities<u32>> {
        if self.variant_of(discriminator) == Some(Variant::Foo) && self.foo.contains_key(key) {
            Some(self.foo[key])
        } else {
            None
        }
    }

    /// What a lookup for a text key finds.
    pub open spec fn lookup_string(self, discriminator: u32, key: Seq<char>) -> Option<
        Capabilities<Seq<char>>,
    > {
        if self.variant_of(discriminator) == Some(Variant::Bar) && self.bar.contains_key(key) {
            Some(self.bar[key])
        } else {
            None
        }
    }

    /// The store with the name `model` in the table for `discriminator`.
    pub open spec fn with_content_type(self, discriminator: u32, model: Seq<char>) -> CacheView {
        CacheView { content_type: self.content_type.insert(discriminator, model), ..self }
    }

    /// The store with `record` under its own identity, in place of what was
    /// there.
    pub open spec fn with_foo(self, record: Capabilities<u32>) -> CacheView {
        CacheView { foo: self.foo.insert(record.identity, record), ..self }
    }

    /// The store with `record` under its own identity, in place of what was
    /// there.
    pub open spec fn with_bar(self, record: Capabilities<Seq<char>>) -> CacheView {
        CacheView { bar: self.bar.insert(record.identity, record), ..self }
    }

    /// The store with each of `records` inserted in turn.
    pub open spec fn with_foos(self, records: Seq<Capabilities<u32>>) -> CacheView
        decreases records.len(),
    {
        if records.len() == 0 {
            self
        } else {
            self.with_foos(records.drop_last()).with_foo(records.last())
        }
    }

    /// The store with each of `records` inserted in turn.
    pub open spec fn with_bars(self, records: Seq<Capabilities<Seq<char>>>) -> CacheView
        decreases records.len(),
    {
        if records.len() == 0 {
            self
        } else {
            self.with_bars(records.drop_last()).with_bar(records.last())
        }
    }

    /// Every record stands under its own identity and has the endpoint of
    /// its shape.
    pub open spec fn well_formed(self) -> bool {
        &&& forall|k: u32| #[trigger]
            self.foo.contains_key(k) ==> self.foo[k].identity == k && self.foo[k].endpoint_name
                == Variant::Foo.name_text()
        &&& forall|k: Seq<char>| #[trigger]
            self.bar.contains_key(k) ==> self.bar[k].identity == k && self.bar[k].endpoint_name
                == Variant::Bar.name_text()
    }
}

/// What can be seen of each of `records`.
pub open spec fn all_capabilities<R: ErasedRecord>(records: Seq<R>) -> Seq<
    Capabilities<<R::K as View>::V>,
> {
    records.map_values(|r: R| capabilities(&r))
}

/// The record store.
pub struct ArcCache {
    foo: HashMap<u32, Arc<Foo>>,
    bar: StringHashMap<Arc<Bar>>,
    content_type: HashMap<u32, ContentType>,
}

impl View for ArcCache {
    type V = CacheView;

    closed spec fn view(&self) -> CacheView {
        CacheView {
            content_type: self.content_type@.map_values(|entry: ContentType| entry@),
            foo: self.foo@.map_values(|r: Arc<Foo>| capabilities(&r)),
            bar: self.bar@.map_values(|r: Arc<Bar>| capabilities(&r)),
        }
    }
}

impl ArcCache {
    /// Every record is stored under its own identity.
    #[verifier::type_invariant]
    spec fn keyed_by_identity(&self) -> bool {
        &&& forall|k: u32| #[trigger] self.foo@.contains_key(k) ==> self.foo@[k].id_value() == k
        &&& forall|k: Seq<char>| #[trigger]
            self.bar@.contains_key(k) ==> self.bar@[k].id_value() == k
    }

    /// A store that holds no record and has an empty content-type table.
    pub fn new() -> (cache: ArcCache)
        ensures
            cache@ == CacheView::empty(),
    {
        let cache = ArcCache {
            foo: HashMap::new(),
            bar: StringHashMap::new(),
            content_type: HashMap::new(),
        };
        assert(cache@.content_type =~= Map::empty());
        assert(cache@.foo =~= Map::empty());
        assert(cache@.bar =~= Map::empty());
        cache
    }

    /// Enters `entry` into the content-type table for `discriminator`, in
    /// place of what the table held for it.
    pub fn set_content_type(&mut self, discriminator: u32, entry: ContentType)
        ensures
            final(self)@ == old(self)@.with_content_type(discriminator, entry@),
            final(self)@.well_formed(),
    {
        proof {
            use_type_invariant(&*self);
        }
        let mut table = HashMap::new();
        std::mem::swap(&mut table, &mut self.content_type);
        table.insert(discriminator, entry);
        self.content_type = table;
        assert(self@.content_type =~= old(self)@.content_type.insert(discriminator, entry@));
    }

    /// The shape that the content-type table names for `discriminator`:
    /// `None` where the table has no entry for it or the entry names no
    /// shape.
    pub fn variant_of(&self, discriminator: u32) -> (r: Option<Variant>)
        ensures
            r == self@.variant_of(discriminator),
    {
        match self.content_type.get(&discriminator) {
            Some(entry) => entry.variant(),
            None => None,
        }
    }

    /// Stores `record` under its identity. A record that was stored under
    /// that identity is replaced and returned; it is not changed, and
    /// handles to it stay as they were.
    pub fn insert_foo(&mut self, record: Arc<Foo>) -> (previous: Option<Arc<Foo>>)
        ensures
            final(self)@ == old(self)@.with_foo(capabilities(&record)),
            final(self)@.well_formed(),
            match previous {
                Some(p) => old(self)@.foo.contains_key(record.id_value()) && capabilities(&p)
                    == old(self)@.foo[record.id_value()],
                None => !old(self)@.foo.contains_key(record.id_value()),
            },
    {
        proof {
            use_type_invariant(&*self);
        }
        let key = record.id();
        let mut foo = HashMap::new();
        std::mem::swap(&mut foo, &mut self.foo);
        let previous = foo.insert(key, record);
        self.foo = foo;
        assert(self@.foo =~= old(self)@.foo.insert(key, capabilities(&record)));
        previous
    }

    /// Stores `record` under its identity. A record that was stored under
    /// that identity is replaced and returned; it is not changed, and
    /// handles to it stay as they were.
    pub fn insert_bar(&mut self, record: Arc<Bar>) -> (previous: Option<Arc<Bar>>)
        ensures
            final(self)@ == old(self)@.with_bar(capabilities(&record)),
            final(self)@.well_formed(),
            match previous {
                Some(p) => old(self)@.bar.contains_key(record.id_value()) && capabilities(&p)
                    == old(self)@.bar[record.id_value()],
                None => !old(self)@.bar.contains_key(record.id_value()),
            },
    {
        proof {
            use_type_invariant(&*self);
        }
        let key = record.id();
        let previous = match self.bar.get(key.as_str()) {
            Some(p) => Some(p.clone()),
            None => None,
        };
        let mut bar = StringHashMap::new();
        std::mem::swap(&mut bar, &mut self.bar);
        bar.insert(key, record);
        self.bar = bar;
        assert(self@.bar =~= old(self)@.bar.insert(key@, capabilities(&record)));
        previous
    }

    /// Stores each of the records under its identity, those of `foos` and
    /// then those of `bars`, each in order. Of two records with one identity
    /// the later one stays.
    pub fn insert(&mut self, foos: Vec<Arc<Foo>>, bars: Vec<Arc<Bar>>)
        ensures
            final(self)@ == old(self)@.with_foos(all_capabilities(foos@)).with_bars(
                all_capabilities(bars@),
            ),
            final(self)@.well_formed(),
    {
        let ghost foo_values = all_capabilities(foos@);
        let ghost bar_values = all_capabilities(bars@);
        let mut i: usize = 0;
        assert(foo_values.take(0) =~= Seq::empty());
        while i < foos.len()
            invariant
                i <= foos.len(),
                foo_values == all_capabilities(foos@),
                self@ == old(self)@.with_foos(foo_values.take(i as int)),
            decreases foos.len() - i,
        {
            let record = foos[i].clone();
            self.insert_foo(record);
            proof {
                let next = foo_values.take(i + 1);
                assert(next.drop_last() =~= foo_values.take(i as int));
                assert(next.last() == capabilities(&foos@[i as int]));
            }
            i = i + 1;
        }
        assert(foo_values.take(i as int) =~= foo_values);
        let ghost middle = self@;
        let mut j: usize = 0;
        assert(bar_values.take(0) =~= Seq::empty());
        while j < bars.len()
            invariant
                j <= bars.len(),
                bar_values == all_capabilities(bars@),
                self@ == middle.with_bars(bar_values.take(j as int)),
            decreases bars.len() - j,
        {
            let record = bars[j].clone();
            self.insert_bar(record);
            proof {
                let next = bar_values.take(j + 1);
                assert(next.drop_last() =~= bar_values.take(j as int));
                assert(next.last() == capabilities(&bars@[j as int]));
            }
            j = j + 1;
        }
        assert(bar_values.take(j as int) =~= bar_values);
        proof {
            use_type_invariant(&*self);
        }
    }

    /// Looks up the record with the composite identifier `id`, whose key is
    /// a number: a handle to it, or `None` where the content-type table has
    /// no entry for the discriminator, where the entry names no shape with
    /// numeric keys, or where no record is stored under the key.
    pub fn get_erased_record_u32(&self, id: (u32, u32)) -> (r: Option<ErasedU32>)
        ensures
            match r {
                Some(handle) => self@.lookup_u32(id.0, id.1) == Some(capabilities(&handle)),
                None => self@.lookup_u32(id.0, id.1) is None,
            },
            r matches Some(handle) ==> handle.id_value() == id.1 && handle.endpoint_text()
                == Variant::Foo.name_text(),
    {
        proof {
            use_type_invariant(self);
        }
        match self.variant_of(id.0) {
            Some(Variant::Foo) => match self.foo.get(&id.1) {
                Some(record) => Some(record.clone().erase()),
                None => None,
            },
            _ => None,
        }
    }

    /// Looks up the record with the composite identifier `id`, whose key is
    /// a text: a handle to it, or `None` where the content-type table has no
    /// entry for the discriminator, where the entry names no shape with text
    /// keys, or where no record is stored under the key.
    pub fn get_erased_record_string(&self, id: (u32, String)) -> (r: Option<ErasedString>)
        ensures
            match r {
                Some(handle) => self@.lookup_string(id.0, id.1@) == Some(capabilities(&handle)),
                None => self@.lookup_string(id.0, id.1@) is None,
            },
            r matches Some(handle) ==> handle.id_value() == id.1@ && handle.endpoint_text()
                == Variant::Bar.name_text(),
    {
        proof {
            use_type_invariant(self);
        }
        match self.variant_of(id.0) {
            Some(Variant::Bar) => match self.bar.get(id.1.as_str()) {
                Some(record) => Some(record.clone().erase()),
                None => None,
            },
            _ => None,
        }
    }
}

/// A type of key that the store has sub-stores for. It fixes the type of the
/// handles that a lookup with such a key gives, so that a lookup for one key
/// type can never give a record with keys of another.
pub trait LookupKey: View + Sized {
    /// The handle to records with keys of this type.
    type Handle: ErasedRecord<K = Self>;

    /// What a lookup for `key` finds in `store`.
    spec fn lookup_in(store: CacheView, discriminator: u32, key: Self::V) -> Option<
        Capabilities<Self::V>,
    >;

    /// Looks up the record with the given discriminator and key in `cache`.
    fn lookup(cache: &ArcCache, discriminator: u32, key: Self) -> (r: Option<Self::Handle>)
        ensures
            match r {
                Some(handle) => Self::lookup_in(cache@, discriminator, key@) == Some(
                    capabilities(&handle),
                ),
                None => Self::lookup_in(cache@, discriminator, key@) is None,
            },
    ;
}

impl LookupKey for u32 {
    type Handle = ErasedU32;

    open spec fn lookup_in(store: CacheView, discriminator: u32, key: u32) -> Option<
        Capabilities<u32>,
    > {
        store.lookup_u32(discriminator, key)
    }

    fn lookup(cache: &ArcCache, discriminator: u32, key: u32) -> (r: Option<ErasedU32>) {
        cache.get_erased_record_u32((discriminator, key))
    }
}

impl LookupKey for String {
    type Handle = ErasedString;

    open spec fn lookup_in(store: CacheView, discriminator: u32, key: Seq<char>) -> Option<
        Capabilities<Seq<char>>,
    > {
        store.lookup_string(discriminator, key)
    }

    fn lookup(cache: &ArcCache, discriminator: u32, key: String) -> (r: Option<ErasedString>) {
        cache.get_erased_record_string((discriminator, key))
    }
}

impl ArcCache {
    /// Looks up the record with the given discriminator and key: a handle to
    /// it, or `None` where the content-type table has no entry for the
    /// discriminator, where the entry names no shape with keys of type `K`,
    /// or where no record is stored under the key.
    pub fn lookup_by_discriminator_and_key<K: LookupKey>(&self, discriminator: u32, key: K) -> (r:
        Option<K::Handle>)
        ensures
            match r {
                Some(handle) => K::lookup_in(self@, discriminator, key@) == Some(
                    capabilities(&handle),
                ),
                None => K::lookup_in(self@, discriminator, key@) is None,
            },
    {
        K::lookup(self, discriminator, key)
    }
}

impl Default for ArcCache {
    /// The store that holds nothing.
    fn default() -> (cache: ArcCache)
        ensures
            cache@ == CacheView::empty(),
    {
        ArcCache::new()
    }
}

/// Type safety of lookups: where the content-type table names a shape with
/// text keys, a lookup for a numeric key finds nothing, and the other way
/// round; where it names no shape, neither lookup finds anything.
pub proof fn lemma_lookup_type_safety(
    store: CacheView,
    discriminator: u32,
    number: u32,
    text: Seq<char>,
)
    ensures
        store.variant_of(discriminator) != Some(Variant::Foo) ==> store.lookup_u32(
            discriminator,
            number,
        ) is None,
        store.variant_of(discriminator) != Some(Variant::Bar) ==> store.lookup_string(
            discriminator,
            text,
        ) is None,
        store.content_type.contains_key(discriminator) && store.content_type[discriminator]
            == Variant::Bar.name_text() ==> store.lookup_u32(discriminator, number) is None,
        store.content_type.contains_key(discriminator) && store.content_type[discriminator]
            == Variant::Foo.name_text() ==> store.lookup_string(discriminator, text) is None,
        !(store.lookup_u32(discriminator, number) is Some && store.lookup_string(
            discriminator,
            text,
        ) is Some),
{
    lemma_variant_names(Variant::Foo);
    lemma_variant_names(Variant::Bar);
}

/// Insertion replaces: after a record is stored, a lookup of its identity
/// finds that record, whatever was stored there before, and every other
/// lookup finds what it found before.
pub proof fn lemma_insert_replaces(
    store: CacheView,
    record: Capabilities<u32>,
    discriminator: u32,
    number: u32,
    text: Seq<char>,
)
    ensures
        store.variant_of(discriminator) == Some(Variant::Foo) ==> store.with_foo(record).lookup_u32(
            discriminator,
            record.identity,
        ) == Some(record),
        number != record.identity ==> store.with_foo(record).lookup_u32(discriminator, number)
            == store.lookup_u32(discriminator, number),
        store.with_foo(record).lookup_string(discriminator, text) == store.lookup_string(
            discriminator,
            text,
        ),
{
}

/// Insertion replaces, for records with text keys.
pub proof fn lemma_insert_replaces_text(
    store: CacheView,
    record: Capabilities<Seq<char>>,
    discriminator: u32,
    number: u32,
    text: Seq<char>,
)
    ensures
        store.variant_of(discriminator) == Some(Variant::Bar) ==> store.with_bar(
            record,
        ).lookup_string(discriminator, record.identity) == Some(record),
        text != record.identity ==> store.with_bar(record).lookup_string(discriminator, text)
            == store.lookup_string(discriminator, text),
        store.with_bar(record).lookup_u32(discriminator, number) == store.lookup_u32(
            discriminator,
            number,
        ),
{
}

/// Batch insertion keeps the last: after a batch, a key holds the last record
/// of the batch with that identity, or what it held before where the batch
/// has no record with that identity. Nothing else changes.
pub proof fn lemma_with_foos(store: CacheView, records: Seq<Capabilities<u32>>, key: u32)
    ensures
        store.with_foos(records).content_type == store.content_type,
        store.with_foos(records).bar == store.bar,
        (forall|i: int| 0 <= i < records.len() ==> (#[trigger] records[i]).identity != key) ==> {
            &&& store.with_foos(records).foo.contains_key(key) == store.foo.contains_key(key)
            &&& store.with_foos(records).foo[key] == store.foo[key]
        },
        forall|i: int|
            0 <= i < records.len() && (#[trigger] records[i]).identity == key && (forall|j: int|
                i < j < records.len() ==> (#[trigger] records[j]).identity != key) ==> {
                &&& store.with_foos(records).foo.contains_key(key)
                &&& store.with_foos(records).foo[key] == records[i]
            },
    decreases records.len(),
{
    if records.len() > 0 {
        let init = records.drop_last();
        lemma_with_foos(store, init, key);
        assert forall|i: int|
            0 <= i < records.len() && (#[trigger] records[i]).identity == key && (forall|j: int|
                i < j < records.len() ==> (#[trigger] records[j]).identity != key) implies {
            &&& store.with_foos(records).foo.contains_key(key)
            &&& store.with_foos(records).foo[key] == records[i]
        } by {
            if i < init.len() {
                assert(init[i] == records[i]);
                assert forall|j: int| i < j < init.len() implies (#[trigger] init[j]).identity
                    != key by {
                    assert(init[j] == records[j]);
                }
                assert(records[records.len() - 1].identity != key);
            }
        }
        if forall|i: int| 0 <= i < records.len() ==> (#[trigger] records[i]).identity != key {
            assert forall|i: int| 0 <= i < init.len() implies (#[trigger] init[i]).identity
                != key by {
                assert(init[i] == records[i]);
            }
            assert(records[records.len() - 1].identity != key);
        }
    }
}

/// Batch insertion keeps the last, for records with text keys.
pub proof fn lemma_with_bars(
    store: CacheView,
    records: Seq<Capabilities<Seq<char>>>,
    key: Seq<char>,
)
    ensures
        store.with_bars(records).content_type == store.content_type,
        store.with_bars(records).foo == store.foo,
        (forall|i: int| 0 <= i < records.len() ==> (#[trigger] records[i]).identity != key) ==> {
            &&& store.with_bars(records).bar.contains_key(key) == store.bar.contains_key(key)
            &&& store.with_bars(records).bar[key] == store.bar[key]
        },
        forall|i: int|
            0 <= i < records.len() && (#[trigger] records[i]).identity == key && (forall|j: int|
                i < j < records.len() ==> (#[trigger] records[j]).identity != key) ==> {
                &&& store.with_bars(records).bar.contains_key(key)
                &&& store.with_bars(records).bar[key] == records[i]
            },
    decreases records.len(),
{
    if records.len() > 0 {
        let init = records.drop_last();
        lemma_with_bars(store, init, key);
        assert forall|i: int|
            0 <= i < records.len() && (#[trigger] records[i]).identity == key && (forall|j: int|
                i < j < records.len() ==> (#[trigger] records[j]).identity != key) implies {
            &&& store.with_bars(records).bar.contains_key(key)
            &&& store.with_bars(records).bar[key] == records[i]
        } by {
            if i < init.len() {
                assert(init[i] == records[i]);
                assert forall|j: int| i < j < init.len() implies (#[trigger] init[j]).identity
                    != key by {
                    assert(init[j] == records[j]);
                }
                assert(records[records.len() - 1].identity != key);
            }
        }
        if forall|i: int| 0 <= i < records.len() ==> (#[trigger] records[i]).identity != key {
            assert forall|i: int| 0 <= i < init.len() implies (#[trigger] init[i]).identity
                != key by {
                assert(init[i] == records[i]);
            }
            assert(records[records.len() - 1].identity != key);
        }
    }
}

} // verus!
