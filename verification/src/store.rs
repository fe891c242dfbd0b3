//! The operations on a loaded store: adding, listing, marking, editing,
//! removing and renumbering tasks.
use vstd::prelude::*;
use crate::model::{RepoError, RepoFault, Store, StoreView, Task, TaskView, Timestamp, views};
use crate::sort::{sort_by_id, sort_tasks_by_id};

verus! {

/// A new, pending task.
pub open spec fn new_task(id: u64, description: Seq<char>, created_at: Timestamp) -> TaskView {
    TaskView { id, description, completed: false, created_at }
}

/// Adding a task: it takes the counter's id and the counter advances;
/// a counter that cannot advance refuses the task.
pub open spec fn addition(s: StoreView, description: Seq<char>, created_at: Timestamp) -> Result<
    (StoreView, TaskView),
    RepoFault,
> {
    if s.next_id == u64::MAX {
        Err(RepoFault::IdCounterOverflow)
    } else {
        let t = new_task(s.next_id, description, created_at);
        Ok((StoreView { tasks: s.tasks.push(t), next_id: (s.next_id + 1) as u64 }, t))
    }
}

/// The tasks that are not completed, in their order.
pub open spec fn pending_only(s: Seq<TaskView>) -> Seq<TaskView>
    decreases s.len(),
{
    if s.len() == 0 {
        s
    } else if s.last().completed {
        pending_only(s.drop_last())
    } else {
        pending_only(s.drop_last()).push(s.last())
    }
}

/// The ids of the tasks whose id is in `target`, in the order of the tasks.
pub open spec fn touched_ids(s: Seq<TaskView>, target: Seq<u64>) -> Seq<u64>
    decreases s.len(),
{
    if s.len() == 0 {
        Seq::empty()
    } else if target.contains(s.last().id) {
        touched_ids(s.drop_last(), target).push(s.last().id)
    } else {
        touched_ids(s.drop_last(), target)
    }
}

/// The ids of `target` that are not in `touched`, in the order of `target`.
pub open spec fn missing_ids(target: Seq<u64>, touched: Seq<u64>) -> Seq<u64>
    decreases target.len(),
{
    if target.len() == 0 {
        Seq::empty()
    } else if touched.contains(target.last()) {
        missing_ids(target.drop_last(), touched)
    } else {
        missing_ids(target.drop_last(), touched).push(target.last())
    }
}

/// Why a selection of ids is refused: it names no task, or it names fewer
/// tasks than it has ids.
pub open spec fn selection_fault(target: Seq<u64>, touched: Seq<u64>) -> Option<RepoFault> {
    if touched.len() == 0 {
        Some(RepoFault::NoTasksMatched)
    } else if touched.len() != target.len() {
        Some(RepoFault::IdsNotFound(missing_ids(target, touched)))
    } else {
        None
    }
}

/// `t` with its completion set to `completed`.
pub open spec fn with_completed(t: TaskView, completed: bool) -> TaskView {
    TaskView { id: t.id, description: t.description, completed, created_at: t.created_at }
}

/// Every task whose id is in `target` gets `completed`; the others stay.
pub open spec fn marked(s: Seq<TaskView>, target: Seq<u64>, completed: bool) -> Seq<TaskView> {
    Seq::new(
        s.len(),
        |i: int|
            if target.contains(s[i].id) {
                with_completed(s[i], completed)
            } else {
                s[i]
            },
    )
}

/// Marking the tasks of `target` done (or not done): the new store and the
/// ids of the tasks that were marked, or why nothing is changed.
pub open spec fn completion(s: StoreView, target: Seq<u64>, completed: bool) -> Result<
    (StoreView, Seq<u64>),
    RepoFault,
> {
    let touched = touched_ids(s.tasks, target);
    match selection_fault(target, touched) {
        Some(f) => Err(f),
        None => Ok(
            (StoreView { tasks: marked(s.tasks, target, completed), next_id: s.next_id }, touched),
        ),
    }
}

/// The tasks whose id is not in `target`, in their order.
pub open spec fn unlisted(s: Seq<TaskView>, target: Seq<u64>) -> Seq<TaskView>
    decreases s.len(),
{
    if s.len() == 0 {
        s
    } else if target.contains(s.last().id) {
        unlisted(s.drop_last(), target)
    } else {
        unlisted(s.drop_last(), target).push(s.last())
    }
}

/// Removing the tasks of `target`: the new store and the ids of the removed
/// tasks, or why nothing is changed.
pub open spec fn removal(s: StoreView, target: Seq<u64>) -> Result<(StoreView, Seq<u64>), RepoFault> {
    let touched = touched_ids(s.tasks, target);
    match selection_fault(target, touched) {
        Some(f) => Err(f),
        None => Ok((StoreView { tasks: unlisted(s.tasks, target), next_id: s.next_id }, touched)),
    }
}

/// `p` is the position of the first task with id `id`.
pub open spec fn is_first_with_id(s: Seq<TaskView>, id: u64, p: int) -> bool {
    &&& 0 <= p < s.len()
    &&& s[p].id == id
    &&& forall|j: int| 0 <= j < p ==> s[j].id != id
}

/// `t` with its description replaced.
pub open spec fn with_description(t: TaskView, description: Seq<char>) -> TaskView {
    TaskView { id: t.id, description, completed: t.completed, created_at: t.created_at }
}

/// Replacing the description of the first task with id `id`: the new store
/// and the updated task, or why nothing is changed.
pub open spec fn edit_outcome(s: StoreView, id: u64, description: Seq<char>) -> Result<
    (StoreView, TaskView),
    RepoFault,
> {
    if exists|p: int| is_first_with_id(s.tasks, id, p) {
        let p = choose|p: int| is_first_with_id(s.tasks, id, p);
        let t = with_description(s.tasks[p], description);
        Ok((StoreView { tasks: s.tasks.update(p, t), next_id: s.next_id }, t))
    } else {
        Err(RepoFault::TaskNotFound(id))
    }
}

/// `t` with id `id`.
pub open spec fn with_id(t: TaskView, id: u64) -> TaskView {
    TaskView { id, description: t.description, completed: t.completed, created_at: t.created_at }
}

/// The tasks numbered `1, 2, ...` in their order.
pub open spec fn renumbered(s: Seq<TaskView>) -> Seq<TaskView> {
    Seq::new(s.len(), |i: int| with_id(s[i], (i + 1) as u64))
}

/// Renumbering the tasks from 1 in id order, with the counter just past
/// the last number; an empty store stays as it is.
pub open spec fn compaction(s: StoreView) -> Result<StoreView, RepoFault> {
    if s.tasks.len() == 0 {
        Ok(s)
    } else if s.tasks.len() >= u64::MAX {
        Err(RepoFault::IdCounterOverflow)
    } else {
        Ok(
            StoreView {
                tasks: renumbered(sort_by_id(s.tasks)),
                next_id: (s.tasks.len() + 1) as u64,
            },
        )
    }
}

/// Whether `id` is one of `ids`.
pub fn contains_id(ids: &[u64], id: u64) -> (r: bool)
    ensures
        r == ids@.contains(id),
{
    let mut i: usize = 0;
    while i < ids.len()
        invariant
            i <= ids@.len(),
            forall|j: int| 0 <= j < i ==> ids@[j] != id,
        decreases ids@.len() - i,
    {
        if ids[i] == id {
            assert(ids@[i as int] == id);
            return true;
        }
        i = i + 1;
    }
    false
}

/// The ids of the tasks that `target` names, in the order of the tasks.
fn collect_touched(tasks: &Vec<Task>, target: &[u64]) -> (r: Vec<u64>)
    ensures
        r@ == touched_ids(views(tasks@), target@),
{
    let ghost all = views(tasks@);
    let mut r: Vec<u64> = Vec::new();
    let mut i: usize = 0;
    assert(all.take(0) =~= Seq::<TaskView>::empty());
    while i < tasks.len()
        invariant
            i <= tasks@.len(),
            all == views(tasks@),
            r@ == touched_ids(all.take(i as int), target@),
        decreases tasks@.len() - i,
    {
        assert(all.take(i + 1).drop_last() =~= all.take(i as int));
        assert(all.take(i + 1).last() == tasks@[i as int]@);
        if contains_id(target, tasks[i].id) {
            r.push(tasks[i].id);
        }
        i = i + 1;
    }
    assert(all.take(tasks@.len() as int) =~= all);
    r
}

/// The ids of `target` that are not in `touched`, in the order of `target`.
fn collect_missing(target: &[u64], touched: &Vec<u64>) -> (r: Vec<u64>)
    ensures
        r@ == missing_ids(target@, touched@),
{
    let mut r: Vec<u64> = Vec::new();
    let mut i: usize = 0;
    assert(target@.take(0) =~= Seq::<u64>::empty());
    while i < target.len()
        invariant
            i <= target@.len(),
            r@ == missing_ids(target@.take(i as int), touched@),
        decreases target@.len() - i,
    {
        assert(target@.take(i + 1).drop_last() =~= target@.take(i as int));
        assert(target@.take(i + 1).last() == target@[i as int]);
        if !contains_id(touched.as_slice(), target[i]) {
            r.push(target[i]);
        }
        i = i + 1;
    }
    assert(target@.take(target@.len() as int) =~= target@);
    r
}

/// Refuses a selection that names no task, or fewer tasks than it has ids.
fn check_selection(target: &[u64], touched: &Vec<u64>) -> (r: Result<(), RepoError>)
    ensures
        match selection_fault(target@, touched@) {
            Some(f) => r matches Err(e) && e@ == f,
            None => r is Ok,
        },
{
    if touched.len() == 0 {
        Err(RepoError::NoTasksMatched)
    } else if touched.len() != target.len() {
        Err(RepoError::IdsNotFound(collect_missing(target, touched)))
    } else {
        Ok(())
    }
}

impl Store {
    /// Adds a pending task with the next id.
    pub fn add_task(&mut self, description: String, created_at: Timestamp) -> (r: Result<
        Task,
        RepoError,
    >)
        ensures
            match addition(old(self)@, description@, created_at) {
                Ok((s, t)) => r matches Ok(task) && task@ == t && final(self)@ == s,
                Err(f) => r matches Err(e) && e@ == f && final(self)@ == old(self)@,
            },
    {
        if self.next_id == u64::MAX {
            return Err(RepoError::IdCounterOverflow);
        }
        let id = self.next_id;
        self.next_id = id + 1;
        let task = Task { id, description, completed: false, created_at };
        let ghost before = self.tasks@;
        self.tasks.push(task.clone());
        assert(views(self.tasks@) =~= views(before).push(task@));
        Ok(task)
    }

    /// The pending tasks, ordered by id.
    pub fn into_pending(self) -> (r: Vec<Task>)
        ensures
            views(r@) == sort_by_id(pending_only(self@.tasks)),
    {
        let ghost orig = self@.tasks;
        let mut rest = self.tasks;
        let mut kept: Vec<Task> = Vec::new();
        let ghost mut k: int = 0;
        assert(orig.take(0) =~= Seq::<TaskView>::empty());
        assert(views(kept@) =~= Seq::<TaskView>::empty());
        assert(views(rest@) =~= orig.skip(0));
        while rest.len() > 0
            invariant
                0 <= k <= orig.len(),
                views(kept@) == pending_only(orig.take(k)),
                views(rest@) == orig.skip(k),
            decreases rest@.len(),
        {
            let ghost before_rest = rest@;
            assert(views(before_rest).len() == before_rest.len());
            let t = rest.remove(0);
            assert(t@ == orig[k]) by {
                assert(views(before_rest)[0] == before_rest[0]@);
                assert(views(before_rest)[0] == orig.skip(k)[0]);
            }
            let ghost before_kept = kept@;
            if !t.completed {
                kept.push(t);
                assert(views(kept@) =~= views(before_kept).push(orig[k]));
            }
            proof {
                assert(orig.take(k + 1).drop_last() =~= orig.take(k));
                assert(orig.take(k + 1).last() == orig[k]);
                assert(rest@ =~= before_rest.remove(0));
                assert forall|j: int| 0 <= j < rest@.len() implies #[trigger] views(rest@)[j]
                    == orig.skip(k + 1)[j] by {
                    assert(rest@[j] == before_rest[j + 1]);
                    assert(views(before_rest)[j + 1] == orig.skip(k)[j + 1]);
                }
                assert(views(rest@) =~= orig.skip(k + 1));
                k = k + 1;
            }
        }
        assert(orig.take(k) =~= orig);
        sort_tasks_by_id(kept)
    }

    /// All tasks, ordered by id.
    pub fn into_listing(self) -> (r: Vec<Task>)
        ensures
            views(r@) == sort_by_id(self@.tasks),
    {
        sort_tasks_by_id(self.tasks)
    }

    /// Marks the tasks whose id is in `target` done (or not done) and
    /// returns their ids in store order; nothing changes on refusal.
    pub fn set_completed(&mut self, target: &[u64], completed: bool) -> (r: Result<
        Vec<u64>,
        RepoError,
    >)
        ensures
            match completion(old(self)@, target@, completed) {
                Ok((s, touched)) => r matches Ok(v) && v@ == touched && final(self)@ == s,
                Err(f) => r matches Err(e) && e@ == f && final(self)@ == old(self)@,
            },
    {
        let touched = collect_touched(&self.tasks, target);
        match check_selection(target, &touched) {
            Err(e) => return Err(e),
            Ok(()) => {},
        }
        let ghost orig = self@.tasks;
        assert(orig.len() == self.tasks@.len());
        let mut i: usize = 0;
        while i < self.tasks.len()
            invariant
                i <= self.tasks@.len(),
                orig.len() == self.tasks@.len(),
                self.next_id == old(self).next_id,
                orig == old(self)@.tasks,
                forall|j: int|
                    0 <= j < i ==> #[trigger] self.tasks@[j]@ == marked(orig, target@, completed)[j],
                forall|j: int| i <= j < self.tasks@.len() ==> #[trigger] self.tasks@[j]@ == orig[j],
            decreases self.tasks@.len() - i,
        {
            if contains_id(target, self.tasks[i].id) {
                let mut t = self.tasks[i].clone();
                t.completed = completed;
                self.tasks.set(i, t);
            }
            i = i + 1;
        }
        assert(views(self.tasks@) =~= marked(orig, target@, completed));
        Ok(touched)
    }

    /// Removes the tasks whose id is in `target` and returns their ids in
    /// store order; nothing changes on refusal.
    pub fn remove_ids(&mut self, target: &[u64]) -> (r: Result<Vec<u64>, RepoError>)
        ensures
            match removal(old(self)@, target@) {
                Ok((s, touched)) => r matches Ok(v) && v@ == touched && final(self)@ == s,
                Err(f) => r matches Err(e) && e@ == f && final(self)@ == old(self)@,
            },
    {
        let touched = collect_touched(&self.tasks, target);
        match check_selection(target, &touched) {
            Err(e) => return Err(e),
            Ok(()) => {},
        }
        let ghost orig = self@.tasks;
        let mut rest: Vec<Task> = Vec::new();
        core::mem::swap(&mut rest, &mut self.tasks);
        let ghost mut k: int = 0;
        assert(orig.take(0) =~= Seq::<TaskView>::empty());
        assert(views(self.tasks@) =~= Seq::<TaskView>::empty());
        assert(views(rest@) =~= orig.skip(0));
        while rest.len() > 0
            invariant
                0 <= k <= orig.len(),
                views(self.tasks@) == unlisted(orig.take(k), target@),
                views(rest@) == orig.skip(k),
                self.next_id == old(self).next_id,
                orig == old(self)@.tasks,
            decreases rest@.len(),
        {
            let ghost before_rest = rest@;
            assert(views(before_rest).len() == before_rest.len());
            let t = rest.remove(0);
            assert(t@ == orig[k]) by {
                assert(views(before_rest)[0] == before_rest[0]@);
                assert(views(before_rest)[0] == orig.skip(k)[0]);
            }
            let ghost before_kept = self.tasks@;
            if !contains_id(target, t.id) {
                self.tasks.push(t);
                assert(views(self.tasks@) =~= views(before_kept).push(orig[k]));
            }
            proof {
                assert(orig.take(k + 1).drop_last() =~= orig.take(k));
                assert(orig.take(k + 1).last() == orig[k]);
                assert(rest@ =~= before_rest.remove(0));
                assert forall|j: int| 0 <= j < rest@.len() implies #[trigger] views(rest@)[j]
                    == orig.skip(k + 1)[j] by {
                    assert(rest@[j] == before_rest[j + 1]);
                    assert(views(before_rest)[j + 1] == orig.skip(k)[j + 1]);
                }
                assert(views(rest@) =~= orig.skip(k + 1));
                k = k + 1;
            }
        }
        assert(orig.take(k) =~= orig);
        Ok(touched)
    }

    /// Replaces the description of the first task with id `id` and returns
    /// the updated task; nothing changes when no task has that id.
    pub fn edit_description(&mut self, id: u64, description: String) -> (r: Result<
        Task,
        RepoError,
    >)
        ensures
            match edit_outcome(old(self)@, id, description@) {
                Ok((s, t)) => r matches Ok(task) && task@ == t && final(self)@ == s,
                Err(f) => r matches Err(e) && e@ == f && final(self)@ == old(self)@,
            },
    {
        let ghost orig = self@.tasks;
        let mut i: usize = 0;
        while i < self.tasks.len()
            invariant
                i <= self.tasks@.len(),
                orig == views(self.tasks@),
                orig == old(self)@.tasks,
                self.next_id == old(self).next_id,
                self.tasks@ == old(self).tasks@,
                forall|j: int| 0 <= j < i ==> orig[j].id != id,
            decreases self.tasks@.len() - i,
        {
            if self.tasks[i].id == id {
                proof {
                    assert(is_first_with_id(orig, id, i as int));
                    let q = choose|q: int| is_first_with_id(orig, id, q);
                    assert(q == i as int) by {
                        if q < i as int {
                            assert(orig[q].id != id);
                        } else if q > i as int {
                            assert(orig[i as int].id != id);
                        }
                    }
                }
                let mut t = self.tasks[i].clone();
                t.description = description;
                let updated = t.clone();
                self.tasks.set(i, t);
                assert(views(self.tasks@) =~= orig.update(i as int, updated@));
                return Ok(updated);
            }
            i = i + 1;
        }
        assert(!exists|q: int| is_first_with_id(orig, id, q));
        Err(RepoError::TaskNotFound(id))
    }

    /// Renumbers the tasks from 1 in id order and resets the counter past
    /// them; returns how many tasks there are. An empty store is left alone.
    pub fn compact(&mut self) -> (r: Result<usize, RepoError>)
        ensures
            match compaction(old(self)@) {
                Ok(s) => r matches Ok(n) && n == old(self)@.tasks.len() && final(self)@ == s,
                Err(f) => r matches Err(e) && e@ == f && final(self)@ == old(self)@,
            },
    {
        let n = self.tasks.len();
        assert(self@.tasks.len() == n);
        if n == 0 {
            return Ok(0);
        }
        if n as u64 == u64::MAX {
            return Err(RepoError::IdCounterOverflow);
        }
        let ghost sorted_view = sort_by_id(self@.tasks);
        let mut rest: Vec<Task> = Vec::new();
        core::mem::swap(&mut rest, &mut self.tasks);
        let mut sorted = sort_tasks_by_id(rest);
        proof {
            crate::sort::lemma_sort_sorted(views(rest@));
            assert(views(sorted@).len() == sorted@.len());
            assert forall|j: int| 0 <= j < sorted@.len() implies #[trigger] sorted@[j]@ == sorted_view[j] by {
                assert(views(sorted@)[j] == sorted@[j]@);
            }
        }
        let mut i: usize = 0;
        while i < sorted.len()
            invariant
                i <= sorted@.len(),
                sorted@.len() == n,
                sorted_view.len() == n,
                n < u64::MAX,
                forall|j: int| 0 <= j < i ==> #[trigger] sorted@[j]@ == renumbered(sorted_view)[j],
                forall|j: int| i <= j < sorted@.len() ==> #[trigger] sorted@[j]@ == sorted_view[j],
            decreases sorted@.len() - i,
        {
            let mut t = sorted[i].clone();
            t.id = i as u64 + 1;
            sorted.set(i, t);
            i = i + 1;
        }
        assert(views(sorted@) =~= renumbered(sorted_view));
        self.tasks = sorted;
        self.next_id = n as u64 + 1;
        Ok(n)
    }
}

} // verus!
