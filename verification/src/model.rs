//! Tasks, the store that holds them, and the errors of the operations on it.
use vstd::prelude::*;
use vstd::string::*;

verus! {

/// A point in time: whole seconds since the Unix epoch and the
/// nanoseconds since the last whole second.
#[derive(Clone, Copy, Debug, PartialEq, Eq)]
pub struct Timestamp {
    pub secs: i64,
    pub nanos: u32,
}

/// A single task.
#[derive(Debug)]
pub struct Task {
    pub id: u64,
    pub description: String,
    pub completed: bool,
    pub created_at: Timestamp,
}

/// What a task holds, with its description as characters.
pub struct TaskView {
    pub id: u64,
    pub description: Seq<char>,
    pub completed: bool,
    pub created_at: Timestamp,
}

impl View for Task {
    type V = TaskView;

    open spec fn view(&self) -> TaskView {
        TaskView {
            id: self.id,
            description: self.description@,
            completed: self.completed,
            created_at: self.created_at,
        }
    }
}

impl Clone for Task {
    fn clone(&self) -> (r: Self)
        ensures
            r@ == self@,
    {
        Task {
            id: self.id,
            description: self.description.clone(),
            completed: self.completed,
            created_at: self.created_at,
        }
    }
}

/// The tasks of a sequence, each by its view.
pub open spec fn views(ts: Seq<Task>) -> Seq<TaskView> {
    ts.map_values(|t: Task| t@)
}

/// What is kept on disk: the tasks and the id that the next new task gets.
///
/// The counter is kept apart from the task list so that ids are never
/// reused, even after all tasks have been deleted.
#[derive(Debug)]
pub struct Store {
    pub tasks: Vec<Task>,
    pub next_id: u64,
}

/// What a store holds.
pub struct StoreView {
    pub tasks: Seq<TaskView>,
    pub next_id: u64,
}

impl View for Store {
    type V = StoreView;

    open spec fn view(&self) -> StoreView {
        StoreView { tasks: views(self.tasks@), next_id: self.next_id }
    }
}

impl Clone for Store {
    fn clone(&self) -> (r: Self)
        ensures
            r@ == self@,
    {
        let mut tasks: Vec<Task> = Vec::new();
        let mut i: usize = 0;
        while i < self.tasks.len()
            invariant
                i <= self.tasks@.len(),
                tasks@.len() == i,
                forall|j: int| 0 <= j < i ==> #[trigger] tasks@[j]@ == self.tasks@[j]@,
            decreases self.tasks@.len() - i,
        {
            tasks.push(self.tasks[i].clone());
            i = i + 1;
        }
        assert(views(tasks@) =~= views(self.tasks@));
        Store { tasks, next_id: self.next_id }
    }
}

/// The store of a fresh installation: no tasks, ids start at 1.
pub open spec fn empty_store() -> StoreView {
    StoreView { tasks: Seq::empty(), next_id: 1 }
}

impl Default for Store {
    fn default() -> (s: Self)
        ensures
            s@ == empty_store(),
    {
        let s = Store { tasks: Vec::new(), next_id: 1 };
        assert(s@.tasks =~= Seq::<TaskView>::empty());
        s
    }
}

/// Ids are unique, and every id lies below the counter, so that the
/// counter never hands out an id that is or was in use.
pub open spec fn well_formed(s: StoreView) -> bool {
    &&& forall|i: int, j: int|
        0 <= i < s.tasks.len() && 0 <= j < s.tasks.len() && i != j ==> #[trigger] s.tasks[i].id
            != #[trigger] s.tasks[j].id
    &&& forall|i: int| 0 <= i < s.tasks.len() ==> #[trigger] s.tasks[i].id < s.next_id
}

/// A failure of the storage backend, with its message.
#[derive(Debug)]
pub struct StorageError {
    pub message: String,
}

/// Why an operation on the tasks failed.
pub enum RepoFault {
    EmptyDescription,
    IdCounterOverflow,
    ClockUnavailable,
    NoIdsGiven,
    NoTasksMatched,
    IdsNotFound(Seq<u64>),
    TaskNotFound(u64),
    Storage(Seq<char>),
}

/// Why an operation on the tasks failed.
#[derive(Debug)]
pub enum RepoError {
    /// The description is empty or only whitespace.
    EmptyDescription,
    /// The id counter cannot advance any further.
    IdCounterOverflow,
    /// The system clock could not be read as a time since 1970.
    ClockUnavailable,
    /// No task ids were given.
    NoIdsGiven,
    /// None of the given ids names a task.
    NoTasksMatched,
    /// Some of the given ids name no task; these are they, in increasing order.
    IdsNotFound(Vec<u64>),
    /// No task has this id.
    TaskNotFound(u64),
    /// The storage backend failed.
    Storage(StorageError),
}

impl View for RepoError {
    type V = RepoFault;

    open spec fn view(&self) -> RepoFault {
        match self {
            RepoError::EmptyDescription => RepoFault::EmptyDescription,
            RepoError::IdCounterOverflow => RepoFault::IdCounterOverflow,
            RepoError::ClockUnavailable => RepoFault::ClockUnavailable,
            RepoError::NoIdsGiven => RepoFault::NoIdsGiven,
            RepoError::NoTasksMatched => RepoFault::NoTasksMatched,
            RepoError::IdsNotFound(ids) => RepoFault::IdsNotFound(ids@),
            RepoError::TaskNotFound(id) => RepoFault::TaskNotFound(*id),
            RepoError::Storage(e) => RepoFault::Storage(e.message@),
        }
    }
}

/// `char::is_whitespace`: the characters with the Unicode `White_Space` property.
pub open spec fn is_whitespace(c: char) -> bool {
    ||| c == ' '
    ||| ('\u{9}' <= c && c <= '\u{d}')
    ||| c == '\u{85}'
    ||| c == '\u{a0}'
    ||| c == '\u{1680}'
    ||| ('\u{2000}' <= c && c <= '\u{200a}')
    ||| c == '\u{2028}'
    ||| c == '\u{2029}'
    ||| c == '\u{202f}'
    ||| c == '\u{205f}'
    ||| c == '\u{3000}'
}

/// Nothing is left once surrounding whitespace is trimmed.
pub open spec fn is_blank(s: Seq<char>) -> bool {
    forall|i: int| 0 <= i < s.len() ==> is_whitespace(#[trigger] s[i])
}

fn char_is_whitespace(c: char) -> (r: bool)
    ensures
        r == is_whitespace(c),
{
    c == ' ' || ('\u{9}' <= c && c <= '\u{d}') || c == '\u{85}' || c == '\u{a0}' || c
        == '\u{1680}' || ('\u{2000}' <= c && c <= '\u{200a}') || c == '\u{2028}' || c
        == '\u{2029}' || c == '\u{202f}' || c == '\u{205f}' || c == '\u{3000}'
}

/// Whether `s` is empty once trimmed of whitespace.
pub fn blank(s: &str) -> (r: bool)
    ensures
        r == is_blank(s@),
{
    let n = s.unicode_len();
    let mut i: usize = 0;
    while i < n
        invariant
            n == s@.len(),
            i <= n,
            forall|j: int| 0 <= j < i ==> is_whitespace(#[trigger] s@[j]),
        decreases n - i,
    {
        if !char_is_whitespace(s.get_char(i)) {
            return false;
        }
        i = i + 1;
    }
    true
}

} // verus!
