use animato::keyed_list::{matches_exit, reconcile_rendered_items, ExitSchedule, KeyedItem, RenderedItem};

#[derive(Clone, Debug, PartialEq, Eq)]
struct TestItem {
    id: u32,
    label: &'static str,
}

fn rendered(id: u32) -> RenderedItem<TestItem> {
    RenderedItem {
        key: id as u64,
        dom_key: format!("row-{id}"),
        item: TestItem { id, label: "item" },
        exiting: false,
        exit_generation: 0,
    }
}

fn keyed(items: Vec<TestItem>) -> Vec<KeyedItem<TestItem>> {
    items
        .into_iter()
        .map(|item| KeyedItem { key: item.id as u64, dom_key: format!("new-{}", item.id), item })
        .collect()
}

#[test]
fn removed_rows_are_retained_and_scheduled_once() {
    let current = vec![rendered(1), rendered(2), rendered(3)];
    let source = vec![TestItem { id: 1, label: "one" }, TestItem { id: 3, label: "three" }];

    let (next, schedules) = reconcile_rendered_items(&current, keyed(source));
    assert_eq!(next.iter().map(|entry| entry.key).collect::<Vec<_>>(), vec![1, 2, 3]);
    assert!(next[1].exiting);
    assert_eq!(schedules, vec![ExitSchedule { key: 2, generation: 1, index: 1 }]);

    let source = vec![TestItem { id: 1, label: "one" }, TestItem { id: 3, label: "three" }];
    let (_, repeated_schedules) = reconcile_rendered_items(&next, keyed(source));
    assert!(repeated_schedules.is_empty());
}

#[test]
fn returning_key_cancels_the_exit_state_without_changing_generation() {
    let mut exiting = rendered(2);
    exiting.exiting = true;
    exiting.exit_generation = 4;
    let source = vec![TestItem { id: 2, label: "returned" }];

    let (next, schedules) = reconcile_rendered_items(&[exiting], keyed(source));
    assert!(!next[0].exiting);
    assert_eq!(next[0].exit_generation, 4);
    assert_eq!(next[0].item.label, "returned");
    assert!(schedules.is_empty());
}

#[test]
fn multiple_removed_rows_keep_their_previous_order() {
    let current = vec![rendered(1), rendered(2), rendered(3), rendered(4)];
    let source = vec![TestItem { id: 2, label: "two" }, TestItem { id: 4, label: "four" }];

    let (next, schedules) = reconcile_rendered_items(&current, keyed(source));
    assert_eq!(next.iter().map(|entry| entry.key).collect::<Vec<_>>(), vec![1, 2, 3, 4]);
    assert_eq!(schedules.len(), 2);
    assert!(next[0].exiting);
    assert!(next[2].exiting);
}

#[test]
fn stale_exit_generation_cannot_remove_a_newer_exit() {
    let mut entry = rendered(2);
    entry.exiting = true;
    entry.exit_generation = 2;

    assert!(!matches_exit(&entry, 2, 1));
    assert!(matches_exit(&entry, 2, 2));
    entry.exiting = false;
    assert!(!matches_exit(&entry, 2, 2));
}

#[test]
fn kept_rows_keep_dom_keys_and_new_rows_take_given_ones() {
    let current = vec![rendered(1), rendered(2)];
    let source = vec![TestItem { id: 3, label: "three" }, TestItem { id: 1, label: "one" }];
    let (next, schedules) = reconcile_rendered_items(&current, keyed(source));
    let keys: Vec<u64> = next.iter().map(|entry| entry.key).collect();
    assert_eq!(keys, vec![3, 2, 1]);
    assert_eq!(next[0].dom_key, "new-3");
    assert_eq!(next[0].exit_generation, 0);
    assert_eq!(next[2].dom_key, "row-1");
    assert_eq!(next[2].item.label, "one");
    assert!(next[1].exiting);
    assert_eq!(next[1].item, TestItem { id: 2, label: "item" });
    assert_eq!(schedules, vec![ExitSchedule { key: 2, generation: 1, index: 1 }]);
}

#[test]
fn leaving_rows_past_the_end_go_last() {
    let current = vec![rendered(1), rendered(2), rendered(3), rendered(4)];
    let source = vec![TestItem { id: 1, label: "one" }];
    let (next, schedules) = reconcile_rendered_items(&current, keyed(source));
    let keys: Vec<u64> = next.iter().map(|entry| entry.key).collect();
    assert_eq!(keys, vec![1, 2, 3, 4]);
    assert_eq!(schedules.iter().map(|s| s.index).collect::<Vec<_>>(), vec![1, 2, 3]);

    let (emptied, _) = reconcile_rendered_items(&current, Vec::new());
    assert_eq!(emptied.iter().map(|entry| entry.key).collect::<Vec<_>>(), vec![1, 2, 3, 4]);
    assert!(emptied.iter().all(|entry| entry.exiting));
}

#[test]
fn exit_generation_saturates() {
    let mut entry = rendered(7);
    entry.exit_generation = u64::MAX;
    let (next, schedules) = reconcile_rendered_items(&[entry], Vec::new());
    assert_eq!(next[0].exit_generation, u64::MAX);
    assert_eq!(schedules, vec![ExitSchedule { key: 7, generation: u64::MAX, index: 0 }]);
}
