use erased_registry::cache::{ArcCache, ContentType};
use erased_registry::composite_id::CompositeId;
use erased_registry::erased::Erase;
use erased_registry::grouping::{group_actions_by_label, ActionMap, AvailableAction};
use erased_registry::record::{Bar, Foo, Id, Label};
use std::sync::Arc;

fn action(discriminator: u32, key: u32) -> Arc<AvailableAction> {
    Arc::new(AvailableAction { composite_id: CompositeId(discriminator, key) })
}

fn cache_with(records: &[(u32, &str)]) -> ArcCache {
    let mut cache = ArcCache::new();
    cache.set_content_type(0, ContentType::new("foo".to_string()));
    cache.set_content_type(1, ContentType::new("bar".to_string()));
    for (id, label) in records.iter() {
        cache.insert_foo(Arc::new(Foo::new(*id, label.to_string())));
    }
    cache
}

fn keys_of(groups: &ActionMap, label: &str) -> Option<Vec<(u32, u32, u32)>> {
    groups.get(label).map(|entries| {
        entries
            .iter()
            .map(|(action, record)| (action.composite_id.0, action.composite_id.1, record.id()))
            .collect()
    })
}

#[test]
fn grouping_survives_an_action_that_does_not_resolve() {
    let cache = cache_with(&[(1, "A"), (2, "B")]);
    let action1 = action(0, 1);
    let action2 = action(0, 2);
    let action3 = action(9, 1);
    let result =
        group_actions_by_label(vec![action1.clone(), action2.clone(), action3.clone()], &cache);

    let mut labels = result.by_label.labels();
    labels.sort();
    assert_eq!(labels, vec!["A".to_string(), "B".to_string()]);

    let a = result.by_label.get("A").unwrap();
    assert_eq!(a.len(), 1);
    assert!(Arc::ptr_eq(&a[0].0, &action1));
    assert_eq!(a[0].1.label(), "A");
    let b = result.by_label.get("B").unwrap();
    assert_eq!(b.len(), 1);
    assert!(Arc::ptr_eq(&b[0].0, &action2));
    assert_eq!(b[0].1.label(), "B");

    assert_eq!(result.discarded.len(), 1);
    assert!(Arc::ptr_eq(&result.discarded[0], &action3));
    for label in result.by_label.labels().iter() {
        for (grouped, _) in result.by_label.get(label).unwrap().iter() {
            assert!(!Arc::ptr_eq(grouped, &action3));
        }
    }
}

#[test]
fn groups_keep_input_order() {
    let cache = cache_with(&[(1, "A"), (2, "B"), (3, "A"), (4, "A"), (5, "B")]);
    let xs = vec![
        action(0, 4),
        action(0, 2),
        action(0, 1),
        action(0, 5),
        action(0, 3),
        action(0, 1),
    ];
    let result = group_actions_by_label(xs, &cache);
    assert_eq!(keys_of(&result.by_label, "A"), Some(vec![(0, 4, 4), (0, 1, 1), (0, 3, 3), (0, 1, 1)]));
    assert_eq!(keys_of(&result.by_label, "B"), Some(vec![(0, 2, 2), (0, 5, 5)]));
    assert_eq!(result.by_label.labels(), vec!["A".to_string(), "B".to_string()]);
    assert!(result.discarded.is_empty());
}

#[test]
fn discarded_actions_keep_input_order() {
    let mut cache = cache_with(&[(1, "A")]);
    cache.insert_bar(Arc::new(Bar::new("7".to_string(), "text".to_string())));
    cache.set_content_type(2, ContentType::new("nothing".to_string()));
    let xs = vec![action(9, 1), action(0, 1), action(0, 2), action(1, 7), action(2, 1), action(0, 1)];
    let result = group_actions_by_label(xs, &cache);
    let discarded: Vec<(u32, u32)> =
        result.discarded.iter().map(|a| (a.composite_id.0, a.composite_id.1)).collect();
    assert_eq!(discarded, vec![(9, 1), (0, 2), (1, 7), (2, 1)]);
    assert_eq!(keys_of(&result.by_label, "A"), Some(vec![(0, 1, 1), (0, 1, 1)]));
    assert_eq!(result.by_label.labels(), vec!["A".to_string()]);
    assert!(result.by_label.get("text").is_none());
}

#[test]
fn grouping_key_is_the_label_of_the_record() {
    let cache = cache_with(&[(1, "same"), (2, "same"), (3, ""), (4, "Same")]);
    let result = group_actions_by_label(vec![action(0, 1), action(0, 2), action(0, 3), action(0, 4)], &cache);
    assert_eq!(keys_of(&result.by_label, "same"), Some(vec![(0, 1, 1), (0, 2, 2)]));
    assert_eq!(keys_of(&result.by_label, ""), Some(vec![(0, 3, 3)]));
    assert_eq!(keys_of(&result.by_label, "Same"), Some(vec![(0, 4, 4)]));
    assert_eq!(keys_of(&result.by_label, "other"), None);
    assert_eq!(
        result.by_label.labels(),
        vec!["same".to_string(), "".to_string(), "Same".to_string()]
    );
}

#[test]
fn grouping_nothing_gives_nothing() {
    let cache = cache_with(&[(1, "A")]);
    let result = group_actions_by_label(vec![], &cache);
    assert!(result.by_label.labels().is_empty());
    assert!(result.by_label.get("A").is_none());
    assert!(result.discarded.is_empty());
}

#[test]
fn grouping_against_an_empty_store_discards_everything() {
    let cache = ArcCache::new();
    let result = group_actions_by_label(vec![action(0, 1), action(1, 2)], &cache);
    assert!(result.by_label.labels().is_empty());
    assert_eq!(result.discarded.len(), 2);
}

#[test]
fn grouped_handle_outlives_replacement() {
    let mut cache = cache_with(&[(1, "A")]);
    let result = group_actions_by_label(vec![action(0, 1)], &cache);
    cache.insert_foo(Arc::new(Foo::new(1, "B".to_string())));
    assert_eq!(result.by_label.get("A").unwrap()[0].1.label(), "A");
    let again = group_actions_by_label(vec![action(0, 1)], &cache);
    assert!(again.by_label.get("A").is_none());
    assert_eq!(again.by_label.get("B").unwrap()[0].1.label(), "B");
}

#[test]
fn action_map_collects_by_label() {
    let mut groups = ActionMap::new();
    assert!(groups.labels().is_empty());
    assert!(groups.get("x").is_none());
    groups.push(action(0, 1), Arc::new(Foo::new(1, "x".to_string())).erase());
    groups.push(action(0, 2), Arc::new(Foo::new(2, "y".to_string())).erase());
    groups.push(action(5, 3), Arc::new(Foo::new(3, "x".to_string())).erase());
    assert_eq!(keys_of(&groups, "x"), Some(vec![(0, 1, 1), (5, 3, 3)]));
    assert_eq!(keys_of(&groups, "y"), Some(vec![(0, 2, 2)]));
    assert_eq!(keys_of(&groups, "z"), None);
    assert_eq!(groups.labels(), vec!["x".to_string(), "y".to_string()]);
}

#[test]
fn default_action_names_record_zero_of_discriminator_zero() {
    let action = AvailableAction::default();
    assert_eq!(action.composite_id, CompositeId(0, 0));
    assert_eq!(action, AvailableAction { composite_id: CompositeId(0, 0) });
}
