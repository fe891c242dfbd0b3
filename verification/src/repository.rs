//! The task repository: the operations on tasks over a pluggable storage.
//! Each operation checks its arguments, loads the store, applies the
//! operation of `crate::store` and saves the store when it changed.
use vstd::prelude::*;
use crate::model::{RepoError, RepoFault, Store, StorageError, StoreView, Task, Timestamp, blank, is_blank, views};
use crate::selector::{resolution, sorted_unique};
use crate::sort::sort_by_id;
use crate::store::{addition, completion, compaction, edit_outcome, pending_only, removal};

verus! {

/// Where the store is kept. The backend can be replaced (a file, a
/// database, memory) without touching the operations on tasks.
///
/// Two predicates speak of the backend's contents: `loaded` holds of the
/// stores that `load` may give back, and `saved` of the stores that `save`
/// has taken as the whole store. An implementation promises that `load`
/// answers `Ok` only with a store it calls `loaded`, and `save` answers
/// `Ok` only once `saved` holds of the store it was handed. A backend that
/// promises nothing more may let both be `true`. Neither says when a save
/// took place, so that a failed operation saved nothing is not something
/// they can state; the operations below call `save` only as their last
/// step, once everything before it has succeeded.
pub trait Storage {
    /// `store` is what the backend holds, as `load` reads it.
    spec fn loaded(&self, store: StoreView) -> bool;

    /// The backend has taken `store` as the whole store.
    spec fn saved(&self, store: StoreView) -> bool;

    /// Reads the whole store.
    fn load(&self) -> (r: Result<Store, StorageError>)
        ensures
            r matches Ok(s) ==> self.loaded(s@),
    ;

    /// Replaces the whole store.
    fn save(&self, store: &Store) -> (r: Result<(), StorageError>)
        ensures
            r is Ok ==> self.saved(store@),
    ;
}

/// std's reading of the system clock.
#[verifier::external_type_specification]
#[verifier::external_body]
pub struct ExSystemTime(std::time::SystemTime);

/// Calls `SystemTime::now`. Nothing is said of the reading: it is the
/// machine's clock.
#[verifier::external_body]
fn system_now() -> std::time::SystemTime {
    std::time::SystemTime::now()
}

/// Calls `SystemTime::duration_since` with `UNIX_EPOCH`; std answers with an
/// error, here `None`, for a reading before 1970. Nothing is said of the
/// duration: it comes from the clock.
#[verifier::external_body]
fn since_unix_epoch(t: &std::time::SystemTime) -> Option<std::time::Duration> {
    t.duration_since(std::time::UNIX_EPOCH).ok()
}

/// Calls `Duration::as_secs`, the whole seconds of the duration. Nothing is
/// said of them: the duration is opaque here.
#[verifier::external_body]
fn whole_seconds(d: &std::time::Duration) -> u64 {
    d.as_secs()
}

/// Calls `Duration::subsec_nanos`, which std documents as the fractional
/// part of a second in nanoseconds, always less than one billion; the
/// contract claims that bound and nothing more.
#[verifier::external_body]
fn subsec_nanos(d: &std::time::Duration) -> (n: u32)
    ensures
        n < 1_000_000_000,
{
    d.subsec_nanos()
}

/// Calls chrono's `DateTime::from_timestamp` (UTC) and reads the instant
/// back with `timestamp` and `timestamp_subsec_nanos`. chrono's source
/// builds the date from the whole days and the time of day from the rest
/// and keeps the nanoseconds, so the contract claims that a result gives
/// back the seconds and nanoseconds it was made from. When chrono answers
/// `None` (seconds beyond its range of dates, nanoseconds that are no valid
/// fraction of a second) is left unsaid.
#[verifier::external_body]
fn utc_instant(secs: i64, nanos: u32) -> (r: Option<(i64, u32)>)
    ensures
        r matches Some((s, n)) ==> s == secs && n == nanos,
{
    match chrono::DateTime::from_timestamp(secs, nanos) {
        Some(t) => Some((t.timestamp(), t.timestamp_subsec_nanos())),
        None => None,
    }
}

/// The current time as a UTC instant, or `None` when the clock reads
/// before 1970 or beyond what a UTC date can hold. Nothing ties two
/// readings together; the nanoseconds always stay below one second.
fn now() -> (t: Option<Timestamp>)
    ensures
        t matches Some(v) ==> v.nanos < 1_000_000_000,
{
    let reading = system_now();
    let since = match since_unix_epoch(&reading) {
        Some(d) => d,
        None => return None,
    };
    let secs = whole_seconds(&since);
    if secs > 9_223_372_036_854_775_807u64 {
        return None;
    }
    let nanos = subsec_nanos(&since);
    match utc_instant(secs as i64, nanos) {
        Some((s, n)) => Some(Timestamp { secs: s, nanos: n }),
        None => None,
    }
}

/// The operations on tasks, over a storage backend.
pub struct TaskRepository<S: Storage> {
    storage: S,
}

impl<S: Storage> TaskRepository<S> {
    /// The storage backend.
    pub closed spec fn backend(&self) -> S {
        self.storage
    }

    pub fn new(storage: S) -> (r: Self)
        ensures
            r.backend() == storage,
    {
        TaskRepository { storage }
    }

    /// Reads the store from the backend; a failure comes back as `Storage`.
    fn load(&self) -> (r: Result<Store, RepoError>)
        ensures
            r matches Ok(s) ==> self.backend().loaded(s@),
            r matches Err(e) ==> e is Storage,
    {
        match self.storage.load() {
            Ok(s) => Ok(s),
            Err(e) => Err(RepoError::Storage(e)),
        }
    }

    /// Hands the store to the backend. Whether the backend accepts it is its
    /// own affair; a failure comes back as `Storage`.
    fn save(&self, store: &Store) -> (r: Result<(), RepoError>)
        ensures
            r matches Err(e) ==> e is Storage,
            r is Ok ==> self.backend().saved(store@),
    {
        match self.storage.save(store) {
            Ok(()) => Ok(()),
            Err(e) => Err(RepoError::Storage(e)),
        }
    }

    /// Adds a pending task with the next id, stamped with the current time,
    /// and saves the store. A blank description is refused before the store
    /// is read; a clock that cannot be read refuses the task.
    pub fn add(&self, description: &str) -> (r: Result<Task, RepoError>)
        ensures
            is_blank(description@) ==> r matches Err(RepoError::EmptyDescription),
            !is_blank(description@) ==> match r {
                Ok(t) => exists|s: StoreView, c: Timestamp| self.backend().loaded(s) && (#[trigger]
                    addition(s, description@, c) matches Ok((s2, v)) && v == t@
                        && self.backend().saved(s2)),
                Err(e) => e is Storage || e is ClockUnavailable || exists|s: StoreView, c: Timestamp|
                    self.backend().loaded(s) && #[trigger] addition(s, description@, c) == Err::<
                        (StoreView, crate::model::TaskView),
                        _,
                    >(e@),
            },
    {
        if blank(description) {
            return Err(RepoError::EmptyDescription);
        }
        let mut store = self.load()?;
        if store.next_id == u64::MAX {
            assert(addition(store@, description@, Timestamp { secs: 0, nanos: 0 }) == Err::<
                (StoreView, crate::model::TaskView),
                _,
            >(RepoFault::IdCounterOverflow));
            return Err(RepoError::IdCounterOverflow);
        }
        let created_at = match now() {
            Some(t) => t,
            None => return Err(RepoError::ClockUnavailable),
        };
        let ghost before = store@;
        let task = match store.add_task(description.to_owned(), created_at) {
            Ok(t) => t,
            Err(e) => {
                assert(addition(before, description@, created_at) == Err::<
                    (StoreView, crate::model::TaskView),
                    _,
                >(e@));
                return Err(e);
            },
        };
        self.save(&store)?;
        assert(addition(before, description@, created_at) matches Ok((s2, v)) && v == task@
            && self.backend().saved(s2));
        Ok(task)
    }

    /// The pending tasks, ordered by id.
    pub fn list_pending(&self) -> (r: Result<Vec<Task>, RepoError>)
        ensures
            match r {
                Ok(v) => exists|s: StoreView| self.backend().loaded(s) && views(v@) == sort_by_id(
                    #[trigger] pending_only(s.tasks),
                ),
                Err(e) => e is Storage,
            },
    {
        let store = self.load()?;
        let ghost s = store@;
        let tasks = store.into_pending();
        assert(views(tasks@) == sort_by_id(pending_only(s.tasks)));
        Ok(tasks)
    }

    /// All tasks, ordered by id.
    pub fn list_all(&self) -> (r: Result<Vec<Task>, RepoError>)
        ensures
            match r {
                Ok(v) => exists|s: StoreView| self.backend().loaded(s) && views(v@)
                    == #[trigger] sort_by_id(s.tasks),
                Err(e) => e is Storage,
            },
    {
        let store = self.load()?;
        let ghost s = store@;
        let tasks = store.into_listing();
        assert(views(tasks@) == sort_by_id(s.tasks));
        Ok(tasks)
    }

    /// Marks the tasks with the given ids done (or not done) and returns
    /// their ids in store order. Repeated ids count once; no ids at all are
    /// refused before the store is read.
    pub fn set_completed(&self, ids: &[u64], completed: bool) -> (r: Result<Vec<u64>, RepoError>)
        ensures
            r matches Err(RepoError::NoIdsGiven) <==> ids@.len() == 0,
            ids@.len() > 0 ==> match r {
                Ok(v) => exists|s: StoreView| self.backend().loaded(s) && (#[trigger]
                    completion(s, resolution(ids@), completed) matches Ok((s2, t)) && t == v@
                        && self.backend().saved(s2)),
                Err(e) => e is Storage || exists|s: StoreView| self.backend().loaded(s) && (#[trigger]
                    completion(s, resolution(ids@), completed) matches Err(f) && f == e@),
            },
    {
        let target = sorted_unique(ids);
        if target.len() == 0 {
            assert(ids@.len() == 0) by {
                if ids@.len() > 0 {
                    assert(ids@.contains(ids@[0]));
                }
            }
            return Err(RepoError::NoIdsGiven);
        }
        assert(ids@.len() > 0) by {
            assert(target@.contains(target@[0]));
        }
        let mut store = self.load()?;
        let ghost before = store@;
        let touched = match store.set_completed(target.as_slice(), completed) {
            Ok(v) => v,
            Err(e) => {
                assert(completion(before, resolution(ids@), completed) matches Err(f) && f == e@);
                return Err(e);
            },
        };
        self.save(&store)?;
        assert(completion(before, resolution(ids@), completed) matches Ok((s2, t)) && t == touched@
            && self.backend().saved(s2));
        Ok(touched)
    }

    /// Replaces a single task's description. A blank description is refused
    /// before the store is read; an unknown id gives `TaskNotFound`.
    pub fn edit_task(&self, id: u64, description: &str) -> (r: Result<Task, RepoError>)
        ensures
            is_blank(description@) ==> r matches Err(RepoError::EmptyDescription),
            !is_blank(description@) ==> match r {
                Ok(t) => exists|s: StoreView| self.backend().loaded(s) && (#[trigger]
                    edit_outcome(s, id, description@) matches Ok((s2, v)) && v == t@
                        && self.backend().saved(s2)),
                Err(e) => e is Storage || exists|s: StoreView| self.backend().loaded(s) && (#[trigger]
                    edit_outcome(s, id, description@) matches Err(f) && f == e@),
            },
    {
        if blank(description) {
            return Err(RepoError::EmptyDescription);
        }
        let mut store = self.load()?;
        let ghost before = store@;
        let task = match store.edit_description(id, description.to_owned()) {
            Ok(t) => t,
            Err(e) => {
                assert(edit_outcome(before, id, description@) matches Err(f) && f == e@);
                return Err(e);
            },
        };
        self.save(&store)?;
        assert(edit_outcome(before, id, description@) matches Ok((s2, v)) && v == task@
            && self.backend().saved(s2));
        Ok(task)
    }

    /// Renumbers all tasks sequentially from 1 in id order and resets the
    /// counter past them; returns how many tasks were renumbered (0 for an
    /// empty store, which is left alone).
    pub fn compact(&self) -> (r: Result<usize, RepoError>)
        ensures
            match r {
                Ok(n) => exists|s: StoreView| self.backend().loaded(s) && (#[trigger]
                    compaction(s) matches Ok(s2) && n == s.tasks.len() && (n > 0
                        ==> self.backend().saved(s2))),
                Err(e) => e is Storage || exists|s: StoreView| self.backend().loaded(s) && (#[trigger]
                    compaction(s) matches Err(f) && f == e@),
            },
    {
        let mut store = self.load()?;
        let ghost before = store@;
        let n = match store.compact() {
            Ok(n) => n,
            Err(e) => {
                assert(compaction(before) matches Err(f) && f == e@);
                return Err(e);
            },
        };
        if n == 0 {
            assert(compaction(before) matches Ok(s2) && n == before.tasks.len());
            return Ok(0);
        }
        self.save(&store)?;
        assert(compaction(before) matches Ok(s2) && n == before.tasks.len() && (n > 0
            ==> self.backend().saved(s2)));
        Ok(n)
    }

    /// Removes the tasks with the given ids and returns their ids in store
    /// order. Repeated ids count once; no ids at all are refused before the
    /// store is read.
    pub fn remove(&self, ids: &[u64]) -> (r: Result<Vec<u64>, RepoError>)
        ensures
            r matches Err(RepoError::NoIdsGiven) <==> ids@.len() == 0,
            ids@.len() > 0 ==> match r {
                Ok(v) => exists|s: StoreView| self.backend().loaded(s) && (#[trigger]
                    removal(s, resolution(ids@)) matches Ok((s2, t)) && t == v@
                        && self.backend().saved(s2)),
                Err(e) => e is Storage || exists|s: StoreView| self.backend().loaded(s) && (#[trigger]
                    removal(s, resolution(ids@)) matches Err(f) && f == e@),
            },
    {
        let target = sorted_unique(ids);
        if target.len() == 0 {
            assert(ids@.len() == 0) by {
                if ids@.len() > 0 {
                    assert(ids@.contains(ids@[0]));
                }
            }
            return Err(RepoError::NoIdsGiven);
        }
        assert(ids@.len() > 0) by {
            assert(target@.contains(target@[0]));
        }
        let mut store = self.load()?;
        let ghost before = store@;
        let touched = match store.remove_ids(target.as_slice()) {
            Ok(v) => v,
            Err(e) => {
                assert(removal(before, resolution(ids@)) matches Err(f) && f == e@);
                return Err(e);
            },
        };
        self.save(&store)?;
        assert(removal(before, resolution(ids@)) matches Ok((s2, t)) && t == touched@
            && self.backend().saved(s2));
        Ok(touched)
    }
}

} // verus!
