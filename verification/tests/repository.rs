use std::cell::RefCell;

use task_slayer::model::{Store, StorageError, StoreView};
use task_slayer::repository::{Storage, TaskRepository};

/// In-memory storage for testing the repository without touching disk.
struct MemStorage {
    store: RefCell<Store>,
}

impl MemStorage {
    fn new() -> Self {
        Self {
            store: RefCell::new(Store::default()),
        }
    }
}

impl Storage for MemStorage {
    // `loaded` and `saved` are what the library's proofs speak of; they
    // are never called.
    fn loaded(&self, _store: StoreView) -> bool {
        unreachable!("only the proofs speak of a loaded store")
    }
    fn saved(&self, _store: StoreView) -> bool {
        unreachable!("only the proofs speak of a saved store")
    }
    fn load(&self) -> Result<Store, StorageError> {
        Ok(self.store.borrow().clone())
    }
    fn save(&self, store: &Store) -> Result<(), StorageError> {
        *self.store.borrow_mut() = store.clone();
        Ok(())
    }
}

fn repo() -> TaskRepository<MemStorage> {
    TaskRepository::new(MemStorage::new())
}

#[test]
fn add_assigns_incrementing_ids() {
    let r = repo();
    let t1 = r.add("first").unwrap();
    let t2 = r.add("second").unwrap();
    let t3 = r.add("third").unwrap();
    assert_eq!(t1.id, 1);
    assert_eq!(t2.id, 2);
    assert_eq!(t3.id, 3);
}

#[test]
fn add_stores_description() {
    let r = repo();
    let t = r.add("buy milk").unwrap();
    assert_eq!(t.description, "buy milk");
    assert!(!t.completed);
}

#[test]
fn list_pending_excludes_completed() {
    let r = repo();
    r.add("a").unwrap();
    r.add("b").unwrap();
    r.add("c").unwrap();
    r.set_completed(&[2], true).unwrap();

    let pending = r.list_pending().unwrap();
    assert_eq!(pending.len(), 2);
    assert_eq!(pending[0].id, 1);
    assert_eq!(pending[1].id, 3);
}

#[test]
fn list_all_includes_completed() {
    let r = repo();
    r.add("a").unwrap();
    r.add("b").unwrap();
    r.set_completed(&[1], true).unwrap();

    let all = r.list_all().unwrap();
    assert_eq!(all.len(), 2);
    assert!(all[0].completed);
    assert!(!all[1].completed);
}

#[test]
fn done_marks_completed() {
    let r = repo();
    r.add("a").unwrap();
    r.add("b").unwrap();

    let touched = r.set_completed(&[1], true).unwrap();
    assert_eq!(touched, vec![1]);

    let all = r.list_all().unwrap();
    assert!(all[0].completed);
    assert!(!all[1].completed);
}

#[test]
fn undo_marks_pending() {
    let r = repo();
    r.add("a").unwrap();
    r.set_completed(&[1], true).unwrap();
    r.set_completed(&[1], false).unwrap();

    let pending = r.list_pending().unwrap();
    assert_eq!(pending.len(), 1);
}

#[test]
fn rm_deletes_tasks() {
    let r = repo();
    r.add("a").unwrap();
    r.add("b").unwrap();
    r.add("c").unwrap();

    let touched = r.remove(&[2]).unwrap();
    assert_eq!(touched.len(), 1);

    let all = r.list_all().unwrap();
    assert_eq!(all.len(), 2);
    assert_eq!(all[0].id, 1);
    assert_eq!(all[1].id, 3);
}

#[test]
fn edit_updates_description() {
    let r = repo();
    r.add("original").unwrap();

    let updated = r.edit_task(1, "revised").unwrap();
    assert_eq!(updated.id, 1);
    assert_eq!(updated.description, "revised");
    assert!(!updated.completed, "edit must not touch completed");

    let all = r.list_all().unwrap();
    assert_eq!(all[0].description, "revised");
}

#[test]
fn edit_nonexistent_returns_error() {
    let r = repo();
    r.add("a").unwrap();
    assert!(r.edit_task(99, "x").is_err());
}

#[test]
fn ids_not_reused_after_rm() {
    let r = repo();
    r.add("a").unwrap(); // id 1
    r.add("b").unwrap(); // id 2
    r.remove(&[1]).unwrap();
    r.remove(&[2]).unwrap();

    let t = r.add("c").unwrap();
    assert_eq!(t.id, 3, "id should continue from next_id, not restart");
}

#[test]
fn ids_not_reused_after_rm_all() {
    let r = repo();
    r.add("a").unwrap();
    r.add("b").unwrap();
    r.remove(&[1, 2]).unwrap();

    // Store is empty but next_id should still be 3
    let t = r.add("c").unwrap();
    assert_eq!(t.id, 3);
}

#[test]
fn rm_nonexistent_returns_error() {
    let r = repo();
    r.add("a").unwrap();
    assert!(r.remove(&[99]).is_err());
}

#[test]
fn done_nonexistent_returns_error() {
    let r = repo();
    r.add("a").unwrap();
    assert!(r.set_completed(&[99], true).is_err());
}

#[test]
fn empty_selector_returns_error() {
    let r = repo();
    r.add("a").unwrap();
    assert!(r.remove(&[]).is_err());
    assert!(r.set_completed(&[], true).is_err());
}

#[test]
fn done_range_marks_multiple() {
    let r = repo();
    for i in 1..=5 {
        r.add(&format!("task {i}")).unwrap();
    }
    let touched = r.set_completed(&[2, 3, 4], true).unwrap();
    assert_eq!(touched.len(), 3);

    let pending = r.list_pending().unwrap();
    assert_eq!(pending.len(), 2);
    assert_eq!(pending[0].id, 1);
    assert_eq!(pending[1].id, 5);
}

#[test]
fn compact_renumbers_tasks() {
    let r = repo();
    r.add("a").unwrap(); // 1
    r.add("b").unwrap(); // 2
    r.add("c").unwrap(); // 3
    r.remove(&[2]).unwrap();

    let n = r.compact().unwrap();
    assert_eq!(n, 2);

    let all = r.list_all().unwrap();
    assert_eq!(all[0].id, 1);
    assert_eq!(all[0].description, "a");
    assert_eq!(all[1].id, 2);
    assert_eq!(all[1].description, "c");
}

#[test]
fn compact_resets_next_id() {
    let r = repo();
    r.add("a").unwrap();
    r.add("b").unwrap();
    r.add("c").unwrap();
    r.remove(&[1, 2]).unwrap();

    r.compact().unwrap();

    let t = r.add("d").unwrap();
    assert_eq!(
        t.id, 2,
        "next add after compact should use next_id = len + 1"
    );
}

#[test]
fn compact_preserves_order() {
    let r = repo();
    for i in 1..=5 {
        r.add(&format!("task {i}")).unwrap();
    }
    r.remove(&[2, 4]).unwrap();

    r.compact().unwrap();

    let all = r.list_all().unwrap();
    assert_eq!(all.len(), 3);
    assert_eq!(all[0].id, 1);
    assert_eq!(all[0].description, "task 1");
    assert_eq!(all[1].id, 2);
    assert_eq!(all[1].description, "task 3");
    assert_eq!(all[2].id, 3);
    assert_eq!(all[2].description, "task 5");
}

#[test]
fn compact_empty_store_returns_zero() {
    let r = repo();
    let n = r.compact().unwrap();
    assert_eq!(n, 0);

    // next_id should remain 1
    let t = r.add("first").unwrap();
    assert_eq!(t.id, 1);
}

#[test]
fn compact_already_sequential_is_noop() {
    let r = repo();
    r.add("a").unwrap();
    r.add("b").unwrap();
    r.add("c").unwrap();

    let n = r.compact().unwrap();
    assert_eq!(n, 3);

    let all = r.list_all().unwrap();
    assert_eq!(all[0].id, 1);
    assert_eq!(all[1].id, 2);
    assert_eq!(all[2].id, 3);

    let t = r.add("d").unwrap();
    assert_eq!(t.id, 4);
}
