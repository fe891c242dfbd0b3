use task_slayer::model::{blank, RepoError, Store, Task, Timestamp};

fn ts() -> Timestamp {
    Timestamp { secs: 1_767_225_600, nanos: 0 }
}

fn task(id: u64, description: &str, completed: bool) -> Task {
    Task { id, description: description.to_string(), completed, created_at: ts() }
}

fn store(tasks: Vec<Task>, next_id: u64) -> Store {
    Store { tasks, next_id }
}

fn ids(tasks: &[Task]) -> Vec<u64> {
    tasks.iter().map(|t| t.id).collect()
}

#[test]
fn default_store_starts_at_one() {
    let s = Store::default();
    assert!(s.tasks.is_empty());
    assert_eq!(s.next_id, 1);
}

#[test]
fn add_task_takes_counter_and_advances_it() {
    let mut s = store(vec![], 7);
    let t = s.add_task("x".to_string(), ts()).unwrap();
    assert_eq!(t.id, 7);
    assert!(!t.completed);
    assert_eq!(t.created_at, ts());
    assert_eq!(s.next_id, 8);
    assert_eq!(s.tasks.len(), 1);
}

#[test]
fn add_task_refuses_exhausted_counter() {
    let mut s = store(vec![task(3, "a", false)], u64::MAX);
    assert!(matches!(s.add_task("x".to_string(), ts()), Err(RepoError::IdCounterOverflow)));
    assert_eq!(s.tasks.len(), 1);
    assert_eq!(s.next_id, u64::MAX);
}

#[test]
fn listing_orders_by_id_and_keeps_equal_ids_in_order() {
    let s = store(vec![task(3, "c", false), task(1, "a", true), task(3, "d", false), task(2, "b", false)], 4);
    let all = s.into_listing();
    assert_eq!(ids(&all), vec![1, 2, 3, 3]);
    assert_eq!(all[2].description, "c");
    assert_eq!(all[3].description, "d");
}

#[test]
fn pending_listing_drops_completed() {
    let s = store(vec![task(5, "e", false), task(1, "a", true), task(2, "b", false)], 6);
    let pending = s.into_pending();
    assert_eq!(ids(&pending), vec![2, 5]);
}

#[test]
fn marking_leaves_store_alone_on_missing_ids() {
    let mut s = store(vec![task(1, "a", false), task(2, "b", false)], 3);
    match s.set_completed(&[1, 4, 6], true) {
        Err(RepoError::IdsNotFound(missing)) => assert_eq!(missing, vec![4, 6]),
        other => panic!("unexpected {:?}", other),
    }
    assert!(!s.tasks[0].completed);
}

#[test]
fn marking_with_no_match_is_refused() {
    let mut s = store(vec![task(1, "a", false)], 2);
    assert!(matches!(s.set_completed(&[9], true), Err(RepoError::NoTasksMatched)));
}

#[test]
fn marking_reports_ids_in_store_order() {
    let mut s = store(vec![task(4, "d", false), task(2, "b", false), task(3, "c", false)], 5);
    assert_eq!(s.set_completed(&[2, 4], true).unwrap(), vec![4, 2]);
    assert!(s.tasks[0].completed && s.tasks[1].completed && !s.tasks[2].completed);
}

#[test]
fn undo_after_done_restores_the_store() {
    let mut s = store(vec![task(1, "a", false), task(2, "b", true), task(3, "c", false)], 4);
    s.set_completed(&[1, 3], true).unwrap();
    s.set_completed(&[1, 3], false).unwrap();
    assert_eq!(
        s.tasks.iter().map(|t| t.completed).collect::<Vec<_>>(),
        vec![false, true, false]
    );
}

#[test]
fn done_after_undo_restores_the_store() {
    let mut s = store(vec![task(1, "a", true), task(2, "b", false), task(3, "c", true)], 4);
    assert_eq!(s.set_completed(&[1, 3], false).unwrap(), vec![1, 3]);
    assert_eq!(s.set_completed(&[1, 3], true).unwrap(), vec![1, 3]);
    assert_eq!(
        s.tasks.iter().map(|t| t.completed).collect::<Vec<_>>(),
        vec![true, false, true]
    );
    assert_eq!(ids(&s.tasks), vec![1, 2, 3]);
    assert_eq!(s.next_id, 4);
}

#[test]
fn removal_keeps_the_others_in_order_and_the_counter() {
    let mut s = store(vec![task(1, "a", false), task(2, "b", false), task(3, "c", false)], 4);
    assert_eq!(s.remove_ids(&[2]).unwrap(), vec![2]);
    assert_eq!(ids(&s.tasks), vec![1, 3]);
    assert_eq!(s.next_id, 4);
}

#[test]
fn removal_with_duplicated_ids_in_store_counts_each_task() {
    // Two tasks share id 1; the selection [1, 2] then touches two tasks
    // although id 2 names none, and the counts agree.
    let mut s = store(vec![task(1, "a", false), task(1, "b", false)], 3);
    assert_eq!(s.remove_ids(&[1, 2]).unwrap(), vec![1, 1]);
    assert!(s.tasks.is_empty());
}

#[test]
fn edit_changes_first_task_with_the_id() {
    let mut s = store(vec![task(1, "a", true), task(1, "b", false)], 2);
    let t = s.edit_description(1, "z".to_string()).unwrap();
    assert_eq!(t.description, "z");
    assert!(t.completed);
    assert_eq!(s.tasks[0].description, "z");
    assert_eq!(s.tasks[1].description, "b");
}

#[test]
fn edit_unknown_id_is_refused() {
    let mut s = store(vec![task(1, "a", false)], 2);
    assert!(matches!(s.edit_description(2, "z".to_string()), Err(RepoError::TaskNotFound(2))));
    assert_eq!(s.tasks[0].description, "a");
}

#[test]
fn compaction_renumbers_in_id_order() {
    let mut s = store(vec![task(9, "i", false), task(4, "d", true)], 10);
    assert_eq!(s.compact().unwrap(), 2);
    assert_eq!(ids(&s.tasks), vec![1, 2]);
    assert_eq!(s.tasks[0].description, "d");
    assert_eq!(s.next_id, 3);
}

#[test]
fn compaction_twice_is_compaction_once() {
    let mut s = store(vec![task(9, "i", false), task(4, "d", true), task(7, "g", false)], 10);
    s.compact().unwrap();
    let once = s.clone();
    s.compact().unwrap();
    assert_eq!(ids(&s.tasks), ids(&once.tasks));
    assert_eq!(s.next_id, once.next_id);
}

#[test]
fn compaction_of_empty_store_keeps_counter() {
    let mut s = store(vec![], 42);
    assert_eq!(s.compact().unwrap(), 0);
    assert_eq!(s.next_id, 42);
}

#[test]
fn blank_descriptions() {
    assert!(blank(""));
    assert!(blank(" \t\n\u{a0}\u{3000}"));
    assert!(!blank(" x "));
}
