//! The commands of the command line and what each one does and prints.
use vstd::prelude::*;
use crate::model::{RepoError, StoreView};
use crate::render::{
    created_line, created_message, full_lines, full_text, lines_text, marked_line, marked_message,
    pending_lines, pending_text, removed_line, removed_message, updated_line, updated_message,
};
use crate::repository::{Storage, TaskRepository};
use crate::selector::{
    SelectorError, expand_selectors, expansion, lemma_resolution, strictly_increasing,
    texts,
};
use crate::sort::sort_by_id;
use crate::store::{addition, completion, edit_outcome, pending_only, removal};

verus! {

/// A command of the command line.
pub enum Command {
    /// Add a new task.
    Add { description: String },
    /// Edit a task's description.
    Edit { id: u64, description: String },
    /// List all tasks, including completed ones.
    All,
    /// Mark tasks as done. Accepts ids and ranges, e.g. `1 3-5 8`.
    Done { selectors: Vec<String> },
    /// Mark completed tasks as not done. Accepts ids and ranges.
    Undo { selectors: Vec<String> },
    /// Remove tasks permanently. Accepts ids and ranges.
    Rm { selectors: Vec<String> },
    /// Download and install the latest release.
    Update,
}

/// The parsed command line: no command lists the pending tasks.
pub struct Cli {
    pub command: Option<Command>,
}

/// What is left to do once a command has run.
pub enum Outcome {
    /// Print these lines.
    Print(Vec<String>),
    /// Run the self-update.
    SelfUpdate,
}

/// Why a command failed.
#[derive(Debug)]
pub enum CommandError {
    Selector(SelectorError),
    Repo(RepoError),
}

/// `target` lists the ids of `set` in increasing order.
pub open spec fn orders(target: Seq<u64>, set: Set<u64>) -> bool {
    &&& strictly_increasing(target)
    &&& forall|x: u64| target.contains(x) <==> set.contains(x)
}

pub open spec fn storage_failed(r: Result<Outcome, CommandError>) -> bool {
    r matches Err(CommandError::Repo(e)) && e is Storage
}

/// The reply to listing the pending tasks of a store that the backend `b`
/// gave.
pub open spec fn pending_reply<S: Storage>(b: S, r: Result<Outcome, CommandError>) -> bool {
    match r {
        Ok(Outcome::Print(lines)) => exists|s: StoreView| b.loaded(s) && lines_text(lines@)
            == pending_text(sort_by_id(#[trigger] pending_only(s.tasks))),
        _ => storage_failed(r),
    }
}

/// The reply to listing all tasks of a store that the backend `b` gave.
pub open spec fn full_reply<S: Storage>(b: S, r: Result<Outcome, CommandError>) -> bool {
    match r {
        Ok(Outcome::Print(lines)) => exists|s: StoreView| b.loaded(s) && lines_text(lines@)
            == full_text(#[trigger] sort_by_id(s.tasks)),
        _ => storage_failed(r),
    }
}

/// The reply to adding a task to a store that the backend `b` gave; on
/// success `b` has taken the store with the task added.
pub open spec fn add_reply<S: Storage>(b: S, description: Seq<char>, r: Result<Outcome, CommandError>) -> bool {
    match r {
        Ok(Outcome::Print(lines)) => exists|s: StoreView, c: crate::model::Timestamp| b.loaded(s)
            && (#[trigger] addition(s, description, c) matches Ok((s2, t)) && b.saved(s2)
            && lines_text(lines@) == seq![created_line(t.id)]),
        Ok(Outcome::SelfUpdate) => false,
        Err(CommandError::Selector(_)) => false,
        Err(CommandError::Repo(e)) => if crate::model::is_blank(description) {
            e is EmptyDescription
        } else {
            e is Storage || e is ClockUnavailable || exists|s: StoreView, c: crate::model::Timestamp|
                b.loaded(s) && #[trigger] addition(s, description, c) == Err::<
                    (StoreView, crate::model::TaskView),
                    _,
                >(e@)
        },
    }
}

/// The reply to editing a task of a store that the backend `b` gave; on
/// success `b` has taken the edited store.
pub open spec fn edit_reply<S: Storage>(b: S, id: u64, description: Seq<char>, r: Result<Outcome, CommandError>) -> bool {
    match r {
        Ok(Outcome::Print(lines)) => !crate::model::is_blank(description) && exists|s: StoreView|
            b.loaded(s) && (#[trigger] edit_outcome(s, id, description) matches Ok((s2, _))
                && b.saved(s2) && lines_text(lines@) == seq![updated_line(id)]),
        Ok(Outcome::SelfUpdate) => false,
        Err(CommandError::Selector(_)) => false,
        Err(CommandError::Repo(e)) => if crate::model::is_blank(description) {
            e is EmptyDescription
        } else {
            e is Storage || exists|s: StoreView| b.loaded(s) && (#[trigger] edit_outcome(
                s,
                id,
                description,
            ) matches Err(f) && f == e@)
        },
    }
}

/// The reply to marking the tasks of `set` in a store that the backend `b`
/// gave; on success `b` has taken the marked store.
pub open spec fn marking_reply<S: Storage>(b: S, set: Set<u64>, completed: bool, r: Result<Outcome, CommandError>) -> bool {
    match r {
        Ok(Outcome::Print(lines)) => exists|s: StoreView, target: Seq<u64>|
            b.loaded(s) && orders(target, set) && (#[trigger] completion(s, target, completed) matches Ok((s2, t))
                && b.saved(s2) && lines_text(lines@) == seq![marked_line(completed, t.len())]),
        Ok(Outcome::SelfUpdate) => false,
        Err(CommandError::Selector(_)) => false,
        Err(CommandError::Repo(e)) => (e is NoIdsGiven <==> set == Set::<u64>::empty()) && (
        e is NoIdsGiven || e is Storage || exists|s: StoreView, target: Seq<u64>|
            b.loaded(s) && orders(target, set) && (#[trigger] completion(s, target, completed) matches Err(f)
                && f == e@)),
    }
}

/// The reply to removing the tasks of `set` from a store that the backend
/// `b` gave; on success `b` has taken the store without them.
pub open spec fn removal_reply<S: Storage>(b: S, set: Set<u64>, r: Result<Outcome, CommandError>) -> bool {
    match r {
        Ok(Outcome::Print(lines)) => exists|s: StoreView, target: Seq<u64>|
            b.loaded(s) && orders(target, set) && (#[trigger] removal(s, target) matches Ok((s2, t))
                && b.saved(s2) && lines_text(lines@) == seq![removed_line(t.len())]),
        Ok(Outcome::SelfUpdate) => false,
        Err(CommandError::Selector(_)) => false,
        Err(CommandError::Repo(e)) => (e is NoIdsGiven <==> set == Set::<u64>::empty()) && (
        e is NoIdsGiven || e is Storage || exists|s: StoreView, target: Seq<u64>|
            b.loaded(s) && orders(target, set) && (#[trigger] removal(s, target) matches Err(f) && f == e@)),
    }
}

/// The reply to a command whose selectors are read first.
pub open spec fn selection_reply(
    selectors: Seq<String>,
    r: Result<Outcome, CommandError>,
    on_ids: spec_fn(Set<u64>) -> bool,
) -> bool {
    match expansion(texts(selectors)) {
        Err(f) => r matches Err(CommandError::Selector(e)) && e@ == f,
        Ok(set) => on_ids(set),
    }
}

/// What a command replies, run against a repository over the backend `b`.
pub open spec fn dispatch_reply<S: Storage>(b: S, command: Option<Command>, r: Result<Outcome, CommandError>) -> bool {
    match command {
        None => pending_reply(b, r),
        Some(Command::Add { description }) => add_reply(b, description@, r),
        Some(Command::Edit { id, description }) => edit_reply(b, id, description@, r),
        Some(Command::All) => full_reply(b, r),
        Some(Command::Done { selectors }) => selection_reply(
            selectors@,
            r,
            |set: Set<u64>| marking_reply(b, set, true, r),
        ),
        Some(Command::Undo { selectors }) => selection_reply(
            selectors@,
            r,
            |set: Set<u64>| marking_reply(b, set, false, r),
        ),
        Some(Command::Rm { selectors }) => selection_reply(
            selectors@,
            r,
            |set: Set<u64>| removal_reply(b, set, r),
        ),
        Some(Command::Update) => r matches Ok(Outcome::SelfUpdate),
    }
}

/// Ids that list a set are none exactly when the set is empty.
proof fn lemma_no_ids_iff_empty(ids: Seq<u64>, set: Set<u64>)
    requires
        orders(ids, set),
    ensures
        ids.len() == 0 <==> set == Set::<u64>::empty(),
{
    if ids.len() > 0 {
        assert(ids.contains(ids[0]));
    }
    if set != Set::<u64>::empty() {
        let x = choose|x: u64| set.contains(x);
        assert(set.contains(x)) by {
            if !set.contains(x) {
                assert(set =~= Set::<u64>::empty());
            }
        }
        assert(ids.contains(x));
    }
}

/// Reads the selectors into increasing ids, or the error of the first one
/// that cannot be read.
fn read_selectors(selectors: &Vec<String>) -> (r: Result<Vec<u64>, CommandError>)
    ensures
        match expansion(texts(selectors@)) {
            Err(f) => r matches Err(CommandError::Selector(e)) && e@ == f,
            Ok(set) => r matches Ok(v) && orders(v@, set) && crate::selector::resolution(v@) == v@,
        },
{
    match expand_selectors(selectors.as_slice()) {
        Ok(v) => {
            proof {
                lemma_resolution(v@, v@);
            }
            Ok(v)
        },
        Err(e) => Err(CommandError::Selector(e)),
    }
}

fn mark<S: Storage>(repo: &TaskRepository<S>, selectors: &Vec<String>, completed: bool) -> (r: Result<
    Outcome,
    CommandError,
>)
    ensures
        selection_reply(
            selectors@,
            r,
            |set: Set<u64>| marking_reply(repo.backend(), set, completed, r),
        ),
{
    let ids = match read_selectors(selectors) {
        Ok(v) => v,
        Err(e) => return Err(e),
    };
    let ghost set = expansion(texts(selectors@))->Ok_0;
    proof {
        lemma_no_ids_iff_empty(ids@, set);
    }
    match repo.set_completed(ids.as_slice(), completed) {
        Ok(touched) => {
            let lines = vec![marked_message(completed, touched.len())];
            assert(lines_text(lines@) =~= seq![marked_line(completed, touched@.len())]);
            Ok(Outcome::Print(lines))
        },
        Err(e) => Err(CommandError::Repo(e)),
    }
}

fn remove<S: Storage>(repo: &TaskRepository<S>, selectors: &Vec<String>) -> (r: Result<
    Outcome,
    CommandError,
>)
    ensures
        selection_reply(selectors@, r, |set: Set<u64>| removal_reply(repo.backend(), set, r)),
{
    let ids = match read_selectors(selectors) {
        Ok(v) => v,
        Err(e) => return Err(e),
    };
    let ghost set = expansion(texts(selectors@))->Ok_0;
    proof {
        lemma_no_ids_iff_empty(ids@, set);
    }
    match repo.remove(ids.as_slice()) {
        Ok(touched) => {
            let lines = vec![removed_message(touched.len())];
            assert(lines_text(lines@) =~= seq![removed_line(touched@.len())]);
            Ok(Outcome::Print(lines))
        },
        Err(e) => Err(CommandError::Repo(e)),
    }
}

/// Runs a command against the repository and says what is left to do:
/// the lines to print, or the self-update.
pub fn dispatch<S: Storage>(repo: &TaskRepository<S>, command: Option<Command>) -> (r: Result<
    Outcome,
    CommandError,
>)
    ensures
        dispatch_reply(repo.backend(), command, r),
{
    match command {
        None => match repo.list_pending() {
            Ok(tasks) => Ok(Outcome::Print(pending_lines(tasks.as_slice()))),
            Err(e) => Err(CommandError::Repo(e)),
        },
        Some(Command::Add { description }) => match repo.add(description.as_str()) {
            Ok(task) => {
                let lines = vec![created_message(task.id)];
                assert(lines_text(lines@) =~= seq![created_line(task.id)]);
                Ok(Outcome::Print(lines))
            },
            Err(e) => Err(CommandError::Repo(e)),
        },
        Some(Command::Edit { id, description }) => match repo.edit_task(id, description.as_str()) {
            Ok(task) => {
                let lines = vec![updated_message(id)];
                assert(lines_text(lines@) =~= seq![updated_line(id)]);
                Ok(Outcome::Print(lines))
            },
            Err(e) => Err(CommandError::Repo(e)),
        },
        Some(Command::All) => match repo.list_all() {
            Ok(tasks) => Ok(Outcome::Print(full_lines(tasks.as_slice()))),
            Err(e) => Err(CommandError::Repo(e)),
        },
        Some(Command::Done { selectors }) => mark(repo, &selectors, true),
        Some(Command::Undo { selectors }) => mark(repo, &selectors, false),
        Some(Command::Rm { selectors }) => remove(repo, &selectors),
        Some(Command::Update) => Ok(Outcome::SelfUpdate),
    }
}

} // verus!
