use std::cell::{Cell, RefCell};
use std::rc::Rc;

use task_slayer::model::{RepoError, StorageError, Store, StoreView};
use task_slayer::repository::{Storage, TaskRepository};

struct MemStorage {
    store: RefCell<Store>,
    saves: Rc<Cell<usize>>,
    fail_save: bool,
}

impl MemStorage {
    fn new(fail_save: bool) -> Self {
        Self { store: RefCell::new(Store::default()), saves: Rc::new(Cell::new(0)), fail_save }
    }
}

impl Storage for MemStorage {
    // `loaded` and `saved` are what the library's proofs speak of; they
    // are never called.
    fn loaded(&self, _store: StoreView) -> bool {
        unreachable!("only the proofs speak of a loaded store")
    }
    fn saved(&self, _store: StoreView) -> bool {
        unreachable!("only the proofs speak of a saved store")
    }
    fn load(&self) -> Result<Store, StorageError> {
        Ok(self.store.borrow().clone())
    }
    fn save(&self, store: &Store) -> Result<(), StorageError> {
        if self.fail_save {
            return Err(StorageError { message: "disk full".to_string() });
        }
        self.saves.set(self.saves.get() + 1);
        *self.store.borrow_mut() = store.clone();
        Ok(())
    }
}

struct Broken;

impl Storage for Broken {
    // `loaded` and `saved` are what the library's proofs speak of; they
    // are never called.
    fn loaded(&self, _store: StoreView) -> bool {
        unreachable!("only the proofs speak of a loaded store")
    }
    fn saved(&self, _store: StoreView) -> bool {
        unreachable!("only the proofs speak of a saved store")
    }
    fn load(&self) -> Result<Store, StorageError> {
        Err(StorageError { message: "unreadable".to_string() })
    }
    fn save(&self, _store: &Store) -> Result<(), StorageError> {
        Ok(())
    }
}

#[test]
fn blank_description_is_refused_before_loading() {
    let r = TaskRepository::new(Broken);
    assert!(matches!(r.add("   "), Err(RepoError::EmptyDescription)));
    assert!(matches!(r.edit_task(1, ""), Err(RepoError::EmptyDescription)));
}

#[test]
fn empty_ids_are_refused_before_loading() {
    let r = TaskRepository::new(Broken);
    assert!(matches!(r.remove(&[]), Err(RepoError::NoIdsGiven)));
    assert!(matches!(r.set_completed(&[], false), Err(RepoError::NoIdsGiven)));
}

#[test]
fn load_failure_is_reported() {
    let r = TaskRepository::new(Broken);
    match r.list_all() {
        Err(RepoError::Storage(e)) => assert_eq!(e.message, "unreadable"),
        other => panic!("unexpected {:?}", other),
    }
}

#[test]
fn save_failure_is_reported() {
    let r = TaskRepository::new(MemStorage::new(true));
    assert!(matches!(r.add("a"), Err(RepoError::Storage(_))));
}

#[test]
fn missing_ids_are_named() {
    let r = TaskRepository::new(MemStorage::new(false));
    r.add("a").unwrap();
    r.add("b").unwrap();
    match r.set_completed(&[5, 2, 9, 2], true) {
        Err(RepoError::IdsNotFound(missing)) => assert_eq!(missing, vec![5, 9]),
        other => panic!("unexpected {:?}", other),
    }
}

#[test]
fn refused_operations_do_not_save() {
    let storage = MemStorage::new(false);
    let saves = Rc::clone(&storage.saves);
    let r = TaskRepository::new(storage);
    r.add("a").unwrap();
    let saved = saves.get();
    assert!(r.remove(&[7]).is_err());
    assert!(r.edit_task(7, "x").is_err());
    assert_eq!(r.compact().unwrap(), 1);
    assert_eq!(saves.get(), saved + 1);
    r.remove(&[1]).unwrap();
    assert_eq!(r.compact().unwrap(), 0);
    assert_eq!(saves.get(), saved + 2);
}

#[test]
fn repeated_ids_count_once() {
    let r = TaskRepository::new(MemStorage::new(false));
    r.add("a").unwrap();
    assert_eq!(r.set_completed(&[1, 1, 1], true).unwrap(), vec![1]);
}

#[test]
fn added_task_has_a_creation_time() {
    let r = TaskRepository::new(MemStorage::new(false));
    let t = r.add("a").unwrap();
    assert!(t.created_at.nanos < 1_000_000_000);
    assert!(t.created_at.secs > 1_600_000_000);
}

#[test]
fn exhausted_counter_is_reported_by_add() {
    let storage = MemStorage::new(false);
    storage.store.borrow_mut().next_id = u64::MAX;
    let r = TaskRepository::new(storage);
    assert!(matches!(r.add("a"), Err(RepoError::IdCounterOverflow)));
}
