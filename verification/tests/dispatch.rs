use std::cell::RefCell;

use task_slayer::commands::{dispatch, Command, CommandError, Outcome};
use task_slayer::model::{RepoError, StorageError, Store, StoreView};
use task_slayer::repository::{Storage, TaskRepository};
use task_slayer::selector::SelectorError;

struct MemStorage {
    store: RefCell<Store>,
}

impl Storage for MemStorage {
    // `loaded` and `saved` are what the library's proofs speak of; they
    // are never called.
    fn loaded(&self, _store: StoreView) -> bool {
        unreachable!("only the proofs speak of a loaded store")
    }
    fn saved(&self, _store: StoreView) -> bool {
        unreachable!("only the proofs speak of a saved store")
    }
    fn load(&self) -> Result<Store, StorageError> {
        Ok(self.store.borrow().clone())
    }
    fn save(&self, store: &Store) -> Result<(), StorageError> {
        *self.store.borrow_mut() = store.clone();
        Ok(())
    }
}

fn repo() -> TaskRepository<MemStorage> {
    TaskRepository::new(MemStorage { store: RefCell::new(Store::default()) })
}

fn lines(r: Result<Outcome, CommandError>) -> Vec<String> {
    match r {
        Ok(Outcome::Print(lines)) => lines,
        Ok(Outcome::SelfUpdate) => panic!("unexpected self-update"),
        Err(e) => panic!("unexpected error {:?}", e),
    }
}

fn sel(v: &[&str]) -> Vec<String> {
    v.iter().map(|s| s.to_string()).collect()
}

#[test]
fn walkthrough_as_documented() {
    let r = repo();
    assert_eq!(
        lines(dispatch(&r, Some(Command::Add { description: "Buy milk".into() }))),
        vec!["Created task 1."]
    );
    assert_eq!(
        lines(dispatch(&r, Some(Command::Edit { id: 1, description: "Buy oat milk".into() }))),
        vec!["Updated task 1."]
    );
    dispatch(&r, Some(Command::Add { description: "Buy eggs".into() })).unwrap();
    assert_eq!(
        lines(dispatch(&r, None)),
        vec!["ID Description", "-- -----------", "1  Buy oat milk", "2  Buy eggs", "", "2 tasks."]
    );
    assert_eq!(
        lines(dispatch(&r, Some(Command::Done { selectors: sel(&["1"]) }))),
        vec!["Marked 1 task done."]
    );
    assert_eq!(
        lines(dispatch(&r, Some(Command::All))),
        vec![
            "ID \u{2713} Description",
            "-- - -----------",
            "1  \u{2713} Buy oat milk",
            "2    Buy eggs",
            "",
            "2 tasks."
        ]
    );
    assert_eq!(
        lines(dispatch(&r, Some(Command::Undo { selectors: sel(&["1-1"]) }))),
        vec!["Marked 1 task undone."]
    );
    assert_eq!(
        lines(dispatch(&r, Some(Command::Rm { selectors: sel(&["1", "2", "2"]) }))),
        vec!["Removed 2 tasks."]
    );
    assert_eq!(lines(dispatch(&r, None)), vec!["0 tasks."]);
}

#[test]
fn bad_selector_is_reported() {
    let r = repo();
    match dispatch(&r, Some(Command::Done { selectors: sel(&["2-1"]) })) {
        Err(CommandError::Selector(SelectorError::ReversedRange(s))) => assert_eq!(s, "2-1"),
        other => panic!("unexpected {:?}", other.is_ok()),
    }
}

#[test]
fn unknown_ids_are_reported() {
    let r = repo();
    dispatch(&r, Some(Command::Add { description: "a".into() })).unwrap();
    match dispatch(&r, Some(Command::Rm { selectors: sel(&["1-3"]) })) {
        Err(CommandError::Repo(RepoError::IdsNotFound(ids))) => assert_eq!(ids, vec![2, 3]),
        other => panic!("unexpected {:?}", other.is_ok()),
    }
}

#[test]
fn blank_add_is_reported() {
    let r = repo();
    assert!(matches!(
        dispatch(&r, Some(Command::Add { description: " ".into() })),
        Err(CommandError::Repo(RepoError::EmptyDescription))
    ));
}

#[test]
fn update_is_left_to_the_caller() {
    let r = repo();
    assert!(matches!(dispatch(&r, Some(Command::Update)), Ok(Outcome::SelfUpdate)));
}
