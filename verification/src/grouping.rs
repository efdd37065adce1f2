//! Grouping of actions by the label of the record that each refers to.
//!
//! An action carries a composite identifier. Grouping resolves each action
//! against a store and collects, per label, the actions whose record has that
//! label, in the order in which they came. An action that resolves to no
//! record is set aside and the rest is processed all the same.
use crate::cache::{ArcCache, CacheView};
use crate::composite_id::CompositeId;
use crate::erased::ErasedU32;
use crate::record::{capabilities, Capabilities, Label};
use crate::text::text_eq;
use std::sync::Arc;
use vstd::prelude::*;

verus! {

/// A reference from outside to a record with a numeric key.
#[derive(Default, PartialEq, Eq, Debug)]
pub struct AvailableAction {
    /// The composite identifier of the record that the action is about.
    pub composite_id: CompositeId<u32>,
}

/// An action together with a handle to the record that it resolved to.
pub type Entry = (Arc<AvailableAction>, ErasedU32);

/// An entry as a value: the action and what can be seen of its record.
pub type EntryView = (AvailableAction, Capabilities<u32>);

/// The action behind a shared reference.
pub open spec fn action_view(action: Arc<AvailableAction>) -> AvailableAction {
    *action
}

/// The entry `e` as a value.
pub open spec fn entry_view(e: Entry) -> EntryView {
    (action_view(e.0), capabilities(&e.1))
}

/// The entries `entries` as values.
pub open spec fn entries_view(entries: Seq<Entry>) -> Seq<EntryView> {
    entries.map_values(|e: Entry| entry_view(e))
}

/// The texts `texts` as values.
pub open spec fn texts_view(texts: Seq<String>) -> Seq<Seq<char>> {
    texts.map_values(|t: String| t@)
}

/// The actions `actions` as values.
pub open spec fn actions_view(actions: Seq<Arc<AvailableAction>>) -> Seq<AvailableAction> {
    actions.map_values(|a: Arc<AvailableAction>| action_view(a))
}

/// The map `groups` with `entry` at the end of the group of its record's
/// label, which is a new group where there was none for that label.
pub open spec fn with_entry(
    groups: Map<Seq<char>, Seq<EntryView>>,
    entry: EntryView,
) -> Map<Seq<char>, Seq<EntryView>> {
    let label = entry.1.label;
    if groups.contains_key(label) {
        groups.insert(label, groups[label].push(entry))
    } else {
        groups.insert(label, seq![entry])
    }
}

/// The entries of one label, in the order in which they were added.
#[derive(Debug)]
struct Bucket {
    label: String,
    entries: Vec<Entry>,
}

/// Whether one of `buckets` is the bucket of `label`.
spec fn has_label(buckets: Seq<Bucket>, label: Seq<char>) -> bool {
    exists|i: int| 0 <= i < buckets.len() && (#[trigger] buckets[i]).label@ == label
}

/// The index of the bucket of `label`.
spec fn position(buckets: Seq<Bucket>, label: Seq<char>) -> int {
    choose|i: int| 0 <= i < buckets.len() && (#[trigger] buckets[i]).label@ == label
}

/// No two buckets have one label, no bucket is empty, and every entry of a
/// bucket has the label of the bucket.
spec fn well_formed(buckets: Seq<Bucket>) -> bool {
    &&& forall|i: int, j: int|
        0 <= i < j < buckets.len() ==> (#[trigger] buckets[i]).label@ != (
        #[trigger] buckets[j]).label@
    &&& forall|i: int| 0 <= i < buckets.len() ==> (#[trigger] buckets[i]).entries@.len() > 0
    &&& forall|i: int, k: int|
        0 <= i < buckets.len() && 0 <= k < buckets[i].entries@.len() ==> capabilities(
            &(#[trigger] buckets[i].entries@[k]).1,
        ).label == buckets[i].label@
}

/// The mapping that `buckets` stand for.
spec fn map_of(buckets: Seq<Bucket>) -> Map<Seq<char>, Seq<EntryView>> {
    Map::new(
        |label: Seq<char>| has_label(buckets, label),
        |label: Seq<char>| entries_view(buckets[position(buckets, label)].entries@),
    )
}

/// The labels of `buckets`, in their order.
spec fn labels_of(buckets: Seq<Bucket>) -> Seq<Seq<char>> {
    buckets.map_values(|b: Bucket| b.label@)
}

/// In well-formed buckets, the bucket of a label is found at one index only.
proof fn lemma_position(buckets: Seq<Bucket>, i: int)
    requires
        well_formed(buckets),
        0 <= i < buckets.len(),
    ensures
        has_label(buckets, buckets[i].label@),
        position(buckets, buckets[i].label@) == i,
{
    let label = buckets[i].label@;
    let p = position(buckets, label);
    assert(0 <= p < buckets.len() && buckets[p].label@ == label);
    if p < i {
        assert(buckets[p].label@ != buckets[i].label@);
    } else if i < p {
        assert(buckets[i].label@ != buckets[p].label@);
    }
}

/// A mapping from label to the entries whose record has that label, each
/// group in the order in which its entries were added. No group is empty.
#[derive(Debug)]
pub struct ActionMap {
    buckets: Vec<Bucket>,
}

impl View for ActionMap {
    type V = Map<Seq<char>, Seq<EntryView>>;

    closed spec fn view(&self) -> Map<Seq<char>, Seq<EntryView>> {
        map_of(self.buckets@)
    }
}

impl ActionMap {
    /// The buckets are well formed.
    #[verifier::type_invariant]
    spec fn inv(&self) -> bool {
        well_formed(self.buckets@)
    }

    /// The labels that have a group, each once, in the order in which their
    /// groups were started.
    pub closed spec fn label_order(&self) -> Seq<Seq<char>> {
        labels_of(self.buckets@)
    }

    /// The mapping without any group.
    pub fn new() -> (groups: ActionMap)
        ensures
            groups@ == Map::<Seq<char>, Seq<EntryView>>::empty(),
            groups.label_order() == Seq::<Seq<char>>::empty(),
    {
        let groups = ActionMap { buckets: Vec::new() };
        assert(groups@ =~= Map::empty());
        assert(groups.label_order() =~= Seq::empty());
        groups
    }

    /// Adds the entry of `action` and `record` at the end of the group of the
    /// record's label, and starts that group where there was none.
    pub fn push(&mut self, action: Arc<AvailableAction>, record: ErasedU32)
        ensures
            final(self)@ == with_entry(old(self)@, entry_view((action, record))),
            final(self).label_order() == if old(self)@.contains_key(record.label_text()) {
                old(self).label_order()
            } else {
                old(self).label_order().push(record.label_text())
            },
    {
        proof {
            use_type_invariant(&*self);
        }
        let ghost entry: EntryView = entry_view((action, record));
        let ghost label = entry.1.label;
        let mut buckets: Vec<Bucket> = Vec::new();
        std::mem::swap(&mut buckets, &mut self.buckets);
        let ghost before = buckets@;
        let mut found: Option<usize> = None;
        let mut i: usize = 0;
        while i < buckets.len() && found.is_none()
            invariant
                buckets@ == before,
                i <= buckets.len(),
                label == record.label_text(),
                match found {
                    Some(p) => p < buckets.len() && buckets@[p as int].label@ == label,
                    None => forall|j: int| 0 <= j < i ==> (#[trigger] buckets@[j]).label@ != label,
                },
            decreases buckets.len() - i, found.is_none() as int,
        {
            if text_eq(buckets[i].label.as_str(), record.label()) {
                found = Some(i);
            } else {
                i = i + 1;
            }
        }
        match found {
            Some(p) => {
                buckets[p].entries.push((action, record));
                proof {
                    let after = buckets@;
                    lemma_position(before, p as int);
                    before[p as int].entries@.lemma_push_map_commute(
                        |e: Entry| entry_view(e),
                        (action, record),
                    );
                    assert(well_formed(after));
                    assert forall|l: Seq<char>| has_label(after, l) == has_label(before, l) by {
                        if has_label(before, l) {
                            let q = position(before, l);
                            assert(after[q].label@ == l);
                        }
                        if has_label(after, l) {
                            let q = position(after, l);
                            assert(before[q].label@ == l);
                        }
                    }
                    assert forall|l: Seq<char>| has_label(after, l) implies #[trigger] map_of(
                        after,
                    )[l] == with_entry(map_of(before), entry)[l] by {
                        let q = position(after, l);
                        lemma_position(after, q);
                        lemma_position(before, q);
                    }
                    assert(map_of(after) =~= with_entry(map_of(before), entry));
                    assert(labels_of(after) =~= labels_of(before));
                }
            },
            None => {
                let name = record.label().to_owned();
                let mut entries: Vec<Entry> = Vec::new();
                entries.push((action, record));
                buckets.push(Bucket { label: name, entries });
                proof {
                    let after = buckets@;
                    let n = before.len() as int;
                    assert(entries_view(after[n].entries@) =~= seq![entry]);
                    assert(well_formed(after));
                    lemma_position(after, n);
                    assert(!has_label(before, label));
                    assert forall|l: Seq<char>| has_label(after, l) == (has_label(before, l) || l
                        == label) by {
                        if has_label(before, l) {
                            let q = position(before, l);
                            assert(after[q].label@ == l);
                        }
                        if has_label(after, l) && l != label {
                            let q = position(after, l);
                            assert(before[q].label@ == l);
                        }
                    }
                    assert forall|l: Seq<char>| has_label(after, l) implies #[trigger] map_of(
                        after,
                    )[l] == with_entry(map_of(before), entry)[l] by {
                        let q = position(after, l);
                        lemma_position(after, q);
                        if q < n {
                            lemma_position(before, q);
                        }
                    }
                    assert(map_of(after) =~= with_entry(map_of(before), entry));
                    assert(labels_of(after) =~= labels_of(before).push(label));
                }
            },
        }
        self.buckets = buckets;
    }

    /// The group of `label`, which is not empty and holds records with that
    /// label only: `None` where no entry has that label.
    pub fn get(&self, label: &str) -> (r: Option<&Vec<Entry>>)
        ensures
            match r {
                Some(entries) => {
                    &&& self@.contains_key(label@)
                    &&& entries_view(entries@) == self@[label@]
                    &&& entries@.len() == self@[label@].len()
                    &&& entries@.len() > 0
                    &&& forall|k: int|
                        0 <= k < entries@.len() ==> (#[trigger] entries@[k]).1.label_text()
                            == label@
                },
                None => !self@.contains_key(label@),
            },
    {
        proof {
            use_type_invariant(self);
        }
        let mut i: usize = 0;
        while i < self.buckets.len()
            invariant
                i <= self.buckets.len(),
                well_formed(self.buckets@),
                forall|j: int| 0 <= j < i ==> (#[trigger] self.buckets@[j]).label@ != label@,
            decreases self.buckets.len() - i,
        {
            if text_eq(self.buckets[i].label.as_str(), label) {
                proof {
                    lemma_position(self.buckets@, i as int);
                }
                return Some(&self.buckets[i].entries);
            }
            i = i + 1;
        }
        None
    }

    /// The labels that have a group, each once, in the order in which their
    /// groups were started.
    pub fn labels(&self) -> (labels: Vec<String>)
        ensures
            texts_view(labels@) == self.label_order(),
            labels@.len() == self.label_order().len(),
            forall|label: Seq<char>|
                self@.contains_key(label) <==> exists|i: int|
                    0 <= i < labels@.len() && (#[trigger] labels@[i])@ == label,
            forall|i: int, j: int|
                0 <= i < j < labels@.len() ==> (#[trigger] labels@[i])@ != (#[trigger] labels@[j])@,
    {
        proof {
            use_type_invariant(self);
        }
        let mut labels: Vec<String> = Vec::new();
        let mut i: usize = 0;
        while i < self.buckets.len()
            invariant
                i <= self.buckets.len(),
                labels@.len() == i,
                forall|j: int| 0 <= j < i ==> (#[trigger] labels@[j])@ == self.buckets@[j].label@,
            decreases self.buckets.len() - i,
        {
            labels.push(self.buckets[i].label.clone());
            i = i + 1;
        }
        proof {
            let buckets = self.buckets@;
            assert forall|label: Seq<char>|
                self@.contains_key(label) <==> exists|i: int|
                    0 <= i < labels@.len() && (#[trigger] labels@[i])@ == label by {
                if has_label(buckets, label) {
                    let q = position(buckets, label);
                    assert(labels@[q]@ == label);
                }
                if exists|i: int| 0 <= i < labels@.len() && (#[trigger] labels@[i])@ == label {
                    let q = choose|i: int| 0 <= i < labels@.len() && (#[trigger] labels@[i])@ == label;
                    assert(buckets[q].label@ == label);
                }
            }
            assert forall|i: int, j: int| 0 <= i < j < labels@.len() implies (
            #[trigger] labels@[i])@ != (#[trigger] labels@[j])@ by {
                assert(buckets[i].label@ != buckets[j].label@);
            }
            assert(texts_view(labels@) =~= labels_of(buckets));
        }
        labels
    }
}

/// What the action `action` resolves to in `store`: what can be seen of the
/// record that its composite identifier names, or `None`.
pub open spec fn resolve(store: CacheView, action: AvailableAction) -> Option<Capabilities<u32>> {
    store.lookup_u32(action.composite_id.0, action.composite_id.1)
}

/// The test whether an action resolves to a record with the label `label`.
pub open spec fn resolves_to_label(store: CacheView, label: Seq<char>) -> spec_fn(
    AvailableAction,
) -> bool {
    |action: AvailableAction|
        resolve(store, action) is Some && resolve(store, action).unwrap().label == label
}

/// The test whether an action resolves to no record.
pub open spec fn unresolved(store: CacheView) -> spec_fn(AvailableAction) -> bool {
    |action: AvailableAction| resolve(store, action) is None
}

/// The pairing of an action with what it resolves to.
pub open spec fn resolved_entry(store: CacheView) -> spec_fn(AvailableAction) -> EntryView {
    |action: AvailableAction| (action, resolve(store, action).unwrap())
}

/// The group of `label`: those of `actions` that resolve to a record with
/// that label, in their order, each with what it resolves to.
pub open spec fn group_of(
    store: CacheView,
    actions: Seq<AvailableAction>,
    label: Seq<char>,
) -> Seq<EntryView> {
    actions.filter(resolves_to_label(store, label)).map_values(resolved_entry(store))
}

/// The grouping of `actions`: for each label that one of them resolves to,
/// the group of that label.
pub open spec fn grouped(store: CacheView, actions: Seq<AvailableAction>) -> Map<
    Seq<char>,
    Seq<EntryView>,
> {
    Map::new(
        |label: Seq<char>| group_of(store, actions, label).len() > 0,
        |label: Seq<char>| group_of(store, actions, label),
    )
}

/// The labels of the records that `actions` resolve to, each once, in the
/// order in which they first occur.
pub open spec fn first_labels(store: CacheView, actions: Seq<AvailableAction>) -> Seq<Seq<char>>
    decreases actions.len(),
{
    if actions.len() == 0 {
        Seq::empty()
    } else {
        let before = first_labels(store, actions.drop_last());
        match resolve(store, actions.last()) {
            Some(record) => if before.contains(record.label) {
                before
            } else {
                before.push(record.label)
            },
            None => before,
        }
    }
}

/// Those of `actions` that resolve to no record, in their order.
pub open spec fn discarded_of(store: CacheView, actions: Seq<AvailableAction>) -> Seq<
    AvailableAction,
> {
    actions.filter(unresolved(store))
}

/// Grouping one more action: it joins the group of the label of its record,
/// or the discarded actions where it has no record, and nothing else changes.
pub proof fn lemma_group_push(
    store: CacheView,
    actions: Seq<AvailableAction>,
    action: AvailableAction,
)
    ensures
        grouped(store, actions.push(action)) == match resolve(store, action) {
            Some(record) => with_entry(grouped(store, actions), (action, record)),
            None => grouped(store, actions),
        },
        discarded_of(store, actions.push(action)) == match resolve(store, action) {
            Some(record) => discarded_of(store, actions),
            None => discarded_of(store, actions).push(action),
        },
{
    actions.lemma_filter_push(action, unresolved(store));
    let expected = match resolve(store, action) {
        Some(record) => with_entry(grouped(store, actions), (action, record)),
        None => grouped(store, actions),
    };
    assert forall|label: Seq<char>|
        group_of(store, actions.push(action), label) == if resolves_to_label(store, label)(
            action,
        ) {
            group_of(store, actions, label).push(resolved_entry(store)(action))
        } else {
            group_of(store, actions, label)
        } by {
        actions.lemma_filter_push(action, resolves_to_label(store, label));
        actions.filter(resolves_to_label(store, label)).lemma_push_map_commute(
            resolved_entry(store),
            action,
        );
    }
    let next = grouped(store, actions.push(action));
    assert forall|label: Seq<char>| next.contains_key(label) == expected.contains_key(label) by {
        assert(group_of(store, actions.push(action), label) == if resolves_to_label(
            store,
            label,
        )(action) {
            group_of(store, actions, label).push(resolved_entry(store)(action))
        } else {
            group_of(store, actions, label)
        });
    }
    assert forall|label: Seq<char>| next.contains_key(label) implies next[label]
        == expected[label] by {
        assert(group_of(store, actions.push(action), label) == if resolves_to_label(
            store,
            label,
        )(action) {
            group_of(store, actions, label).push(resolved_entry(store)(action))
        } else {
            group_of(store, actions, label)
        });
        if resolves_to_label(store, label)(action) && !grouped(store, actions).contains_key(label) {
            assert(group_of(store, actions, label) =~= Seq::empty());
            assert(group_of(store, actions, label).push(resolved_entry(store)(action)) =~= seq![
                resolved_entry(store)(action),
            ]);
        }
    }
    assert(next =~= expected);
}

/// The labels that first occur are the labels that have a group, and none
/// occurs twice among them.
pub proof fn lemma_first_labels(store: CacheView, actions: Seq<AvailableAction>)
    ensures
        forall|label: Seq<char>|
            first_labels(store, actions).contains(label) <==> #[trigger] grouped(
                store,
                actions,
            ).contains_key(label),
        first_labels(store, actions).no_duplicates(),
    decreases actions.len(),
{
    if actions.len() == 0 {
        reveal(Seq::filter);
    } else {
        let init = actions.drop_last();
        let last = actions.last();
        let before = first_labels(store, init);
        lemma_first_labels(store, init);
        assert(init.push(last) =~= actions);
        lemma_group_push(store, init, last);
        match resolve(store, last) {
            Some(record) => {
                if !before.contains(record.label) {
                    let after = before.push(record.label);
                    assert(after[before.len() as int] == record.label);
                    assert forall|label: Seq<char>|
                        after.contains(label) <==> before.contains(label) || label
                            == record.label by {
                        if before.contains(label) {
                            let i = choose|i: int| 0 <= i < before.len() && before[i] == label;
                            assert(after[i] == label);
                        }
                    }
                }
            },
            None => {},
        }
    }
}

/// The outcome of grouping: the groups, and the actions that were set aside.
#[derive(Debug)]
pub struct Grouping {
    /// The resolved actions, by the label of their record.
    pub by_label: ActionMap,
    /// The actions that resolved to no record, in the order in which they
    /// came.
    pub discarded: Vec<Arc<AvailableAction>>,
}

/// Groups the actions `xs` by the label of the record that each resolves to
/// in `cache`. Within a group the actions keep their order. An action whose
/// composite identifier names no record is not an error: it is set aside
/// among the discarded actions and grouping goes on.
pub fn group_actions_by_label(xs: Vec<Arc<AvailableAction>>, cache: &ArcCache) -> (r: Grouping)
    ensures
        r.by_label@ == grouped(cache@, actions_view(xs@)),
        r.by_label.label_order() == first_labels(cache@, actions_view(xs@)),
        actions_view(r.discarded@) == discarded_of(cache@, actions_view(xs@)),
{
    let ghost actions = actions_view(xs@);
    let mut by_label = ActionMap::new();
    let mut discarded: Vec<Arc<AvailableAction>> = Vec::new();
    let mut i: usize = 0;
    proof {
        assert(actions.take(0) =~= Seq::empty());
        reveal(Seq::filter);
        assert(grouped(cache@, Seq::empty()) =~= Map::empty());
        assert(actions_view(discarded@) =~= Seq::empty());
    }
    while i < xs.len()
        invariant
            i <= xs.len(),
            actions == actions_view(xs@),
            by_label@ == grouped(cache@, actions.take(i as int)),
            by_label.label_order() == first_labels(cache@, actions.take(i as int)),
            actions_view(discarded@) == discarded_of(cache@, actions.take(i as int)),
        decreases xs.len() - i,
    {
        let action = xs[i].clone();
        proof {
            assert(actions.take(i + 1) =~= actions.take(i as int).push(action_view(action)));
            assert(actions.take(i + 1).drop_last() =~= actions.take(i as int));
            lemma_group_push(cache@, actions.take(i as int), action_view(action));
            lemma_first_labels(cache@, actions.take(i as int));
        }
        match cache.get_erased_record_u32((action.composite_id.0, action.composite_id.1)) {
            Some(record) => {
                by_label.push(action, record);
            },
            None => {
                proof {
                    discarded@.lemma_push_map_commute(
                        |a: Arc<AvailableAction>| action_view(a),
                        action,
                    );
                }
                discarded.push(action);
            },
        }
        i = i + 1;
    }
    proof {
        assert(actions.take(i as int) =~= actions);
    }
    Grouping { by_label, discarded }
}

} // verus!
