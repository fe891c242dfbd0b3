//! What holds of the operations on tasks across calls and for every store.
use vstd::prelude::*;
use crate::model::{StoreView, TaskView, Timestamp, well_formed};
use crate::model::is_blank;
use crate::render::{
    count_line, created_line, decimal, full_text, id_column, marked_line, max_id, padded,
    pending_text, removed_line, updated_line,
};
use crate::selector::{
    all_digits, decimal_value, expansion, ids_between, is_digit, is_resolution, parse_u64,
    selector_bounds, strictly_increasing, unsigned_body,
};
use crate::sort::{
    lemma_insert_pos_at, lemma_sort_permutes, lemma_sort_sorted, lemma_sort_stable, sort_by_id,
    sorted_by_id, with_id_only,
};
use crate::store::{
    addition, compaction, completion, edit_outcome, is_first_with_id, marked, missing_ids,
    pending_only, removal, selection_fault, touched_ids, unlisted, with_completed, with_id,
};

verus! {

broadcast use vstd::seq_lib::to_multiset_contains;

/// No two tasks share an id.
pub open spec fn unique_ids(s: Seq<TaskView>) -> bool {
    forall|i: int, j: int|
        0 <= i < s.len() && 0 <= j < s.len() && i != j ==> #[trigger] s[i].id != #[trigger] s[j].id
}

/// A new task gets the counter's id, which no task of a well-formed store
/// has, and the store stays well formed.
pub proof fn law_add_assigns_fresh_id(s: StoreView, description: Seq<char>, created_at: Timestamp)
    requires
        well_formed(s),
        addition(s, description, created_at) is Ok,
    ensures
        ({
            let (s2, t) = addition(s, description, created_at)->Ok_0;
            &&& well_formed(s2)
            &&& t.id == s.next_id
            &&& s2.next_id == s.next_id + 1
            &&& forall|i: int| 0 <= i < s.tasks.len() ==> s.tasks[i].id < t.id
        }),
{
}

/// Consecutive additions get consecutive ids.
pub proof fn law_ids_increment(
    s: StoreView,
    d1: Seq<char>,
    c1: Timestamp,
    d2: Seq<char>,
    c2: Timestamp,
)
    requires
        addition(s, d1, c1) is Ok,
        addition(addition(s, d1, c1)->Ok_0.0, d2, c2) is Ok,
    ensures
        addition(addition(s, d1, c1)->Ok_0.0, d2, c2)->Ok_0.1.id == addition(s, d1, c1)->Ok_0.1.id + 1,
{
}

/// Marking changes only the completion of the tasks whose id is listed,
/// and keeps the store well formed.
pub proof fn law_marking_changes_only_completion(s: StoreView, target: Seq<u64>, completed: bool)
    requires
        completion(s, target, completed) is Ok,
    ensures
        ({
            let s2 = completion(s, target, completed)->Ok_0.0;
            &&& s2.next_id == s.next_id
            &&& s2.tasks.len() == s.tasks.len()
            &&& forall|i: int|
                0 <= i < s.tasks.len() ==> {
                    &&& #[trigger] s2.tasks[i].id == s.tasks[i].id
                    &&& s2.tasks[i].description == s.tasks[i].description
                    &&& s2.tasks[i].created_at == s.tasks[i].created_at
                    &&& s2.tasks[i].completed == if target.contains(s.tasks[i].id) {
                        completed
                    } else {
                        s.tasks[i].completed
                    }
                }
            &&& well_formed(s) ==> well_formed(s2)
        }),
{
    let s2 = completion(s, target, completed)->Ok_0.0;
    assert forall|i: int, j: int|
        well_formed(s) && 0 <= i < s2.tasks.len() && 0 <= j < s2.tasks.len() && i != j implies #[trigger] s2.tasks[i].id
        != #[trigger] s2.tasks[j].id by {
        assert(s.tasks[i].id != s.tasks[j].id);
    }
    assert forall|i: int| well_formed(s) && 0 <= i < s2.tasks.len() implies #[trigger] s2.tasks[i].id
        < s2.next_id by {
        assert(s.tasks[i].id < s.next_id);
    }
}

/// Two task lists with the same ids at the same places select the same ids.
proof fn lemma_touched_by_ids(a: Seq<TaskView>, b: Seq<TaskView>, target: Seq<u64>)
    requires
        a.len() == b.len(),
        forall|i: int| 0 <= i < a.len() ==> #[trigger] a[i].id == b[i].id,
    ensures
        touched_ids(a, target) == touched_ids(b, target),
    decreases a.len(),
{
    if a.len() > 0 {
        lemma_touched_by_ids(a.drop_last(), b.drop_last(), target);
        assert(a[a.len() - 1].id == b[b.len() - 1].id);
    }
}

/// Undoing what was just marked done gives back the store, when the
/// listed tasks were pending before.
pub proof fn law_undo_reverts_done(s: StoreView, target: Seq<u64>)
    requires
        completion(s, target, true) is Ok,
        forall|i: int|
            0 <= i < s.tasks.len() && target.contains(#[trigger] s.tasks[i].id)
                ==> !s.tasks[i].completed,
    ensures
        completion(completion(s, target, true)->Ok_0.0, target, false) == Ok::<
            (StoreView, Seq<u64>),
            crate::model::RepoFault,
        >((s, completion(s, target, true)->Ok_0.1)),
{
    let (s1, touched) = completion(s, target, true)->Ok_0;
    law_marking_changes_only_completion(s, target, true);
    lemma_touched_by_ids(s1.tasks, s.tasks, target);
    let back = marked(s1.tasks, target, false);
    assert forall|i: int| 0 <= i < s.tasks.len() implies #[trigger] back[i] == s.tasks[i] by {
        if target.contains(s.tasks[i].id) {
            assert(s1.tasks[i] == with_completed(s.tasks[i], true));
        }
    }
    assert(back =~= s.tasks);
}

/// Marking done again what was just undone gives back the store, when the
/// listed tasks were done before.
pub proof fn law_done_reverts_undo(s: StoreView, target: Seq<u64>)
    requires
        completion(s, target, false) is Ok,
        forall|i: int|
            0 <= i < s.tasks.len() && target.contains(#[trigger] s.tasks[i].id)
                ==> s.tasks[i].completed,
    ensures
        completion(completion(s, target, false)->Ok_0.0, target, true) == Ok::<
            (StoreView, Seq<u64>),
            crate::model::RepoFault,
        >((s, completion(s, target, false)->Ok_0.1)),
{
    let (s1, touched) = completion(s, target, false)->Ok_0;
    law_marking_changes_only_completion(s, target, false);
    lemma_touched_by_ids(s1.tasks, s.tasks, target);
    let back = marked(s1.tasks, target, true);
    assert forall|i: int| 0 <= i < s.tasks.len() implies #[trigger] back[i] == s.tasks[i] by {
        if target.contains(s.tasks[i].id) {
            assert(s1.tasks[i] == with_completed(s.tasks[i], false));
        }
    }
    assert(back =~= s.tasks);
}

/// The tasks kept by a removal: those of `s` whose id is not listed; a
/// removal keeps ids unique.
pub proof fn lemma_unlisted(s: Seq<TaskView>, target: Seq<u64>)
    ensures
        forall|x: TaskView| unlisted(s, target).contains(x) <==> (s.contains(x) && !target.contains(x.id)),
        unique_ids(s) ==> unique_ids(unlisted(s, target)),
    decreases s.len(),
{
    if s.len() > 0 {
        let p = s.drop_last();
        let l = s.last();
        lemma_unlisted(p, target);
        let u = unlisted(p, target);
        assert forall|x: TaskView| #[trigger] s.contains(x) <==> (p.contains(x) || x == l) by {
            if s.contains(x) {
                let k = choose|k: int| 0 <= k < s.len() && s[k] == x;
                if k < s.len() - 1 {
                    assert(p[k] == x);
                }
            }
            if p.contains(x) {
                let k = choose|k: int| 0 <= k < p.len() && p[k] == x;
                assert(s[k] == x);
            }
            if x == l {
                assert(s[s.len() - 1] == x);
            }
        }
        if !target.contains(l.id) {
            let u2 = u.push(l);
            assert forall|x: TaskView| #[trigger] u2.contains(x) <==> (u.contains(x) || x == l) by {
                if u2.contains(x) {
                    let k = choose|k: int| 0 <= k < u2.len() && u2[k] == x;
                    if k < u.len() {
                        assert(u[k] == x);
                    }
                }
                if u.contains(x) {
                    let k = choose|k: int| 0 <= k < u.len() && u[k] == x;
                    assert(u2[k] == x);
                }
                if x == l {
                    assert(u2[u.len() as int] == x);
                }
            }
            if unique_ids(s) {
                assert(unique_ids(p)) by {
                    assert forall|i: int, j: int|
                        0 <= i < p.len() && 0 <= j < p.len() && i != j implies #[trigger] p[i].id
                        != #[trigger] p[j].id by {
                        assert(s[i] == p[i] && s[j] == p[j]);
                    }
                }
                assert forall|i: int, j: int|
                    0 <= i < u2.len() && 0 <= j < u2.len() && i != j implies #[trigger] u2[i].id
                    != #[trigger] u2[j].id by {
                    if i < u.len() && j < u.len() {
                        assert(u2[i] == u[i] && u2[j] == u[j]);
                    } else if i < u.len() {
                        assert(u2[i] == u[i]);
                        assert(u2[j] == l);
                        assert(u.contains(u[i]));
                        assert(p.contains(u[i]));
                        let k = choose|k: int| 0 <= k < p.len() && p[k] == u[i];
                        assert(s[k] == p[k]);
                        assert(s[s.len() - 1] == l);
                        assert(s[k].id != s[s.len() - 1].id);
                    } else if j < u.len() {
                        assert(u2[j] == u[j]);
                        assert(u2[i] == l);
                        assert(u.contains(u[j]));
                        assert(p.contains(u[j]));
                        let k = choose|k: int| 0 <= k < p.len() && p[k] == u[j];
                        assert(s[k] == p[k]);
                        assert(s[s.len() - 1] == l);
                        assert(s[k].id != s[s.len() - 1].id);
                    }
                }
            }
        } else {
            if unique_ids(s) {
                assert(unique_ids(p)) by {
                    assert forall|i: int, j: int|
                        0 <= i < p.len() && 0 <= j < p.len() && i != j implies #[trigger] p[i].id
                        != #[trigger] p[j].id by {
                        assert(s[i] == p[i] && s[j] == p[j]);
                    }
                }
            }
        }
    }
}

/// A removal takes away exactly the listed tasks, keeps the counter (so a
/// removed id is never handed out again) and keeps the store well formed.
pub proof fn law_removal_keeps_others(s: StoreView, target: Seq<u64>)
    requires
        removal(s, target) is Ok,
    ensures
        ({
            let s2 = removal(s, target)->Ok_0.0;
            &&& s2.next_id == s.next_id
            &&& forall|x: TaskView| s2.tasks.contains(x) <==> (s.tasks.contains(x) && !target.contains(x.id))
            &&& well_formed(s) ==> well_formed(s2)
        }),
{
    let s2 = removal(s, target)->Ok_0.0;
    lemma_unlisted(s.tasks, target);
    assert(s2.tasks == unlisted(s.tasks, target));
    assert(s2.next_id == s.next_id);
    assert(forall|x: TaskView|
        s2.tasks.contains(x) <==> (s.tasks.contains(x) && !target.contains(x.id)));
    if well_formed(s) {
        assert(unique_ids(s.tasks));
        assert forall|i: int| 0 <= i < s2.tasks.len() implies #[trigger] s2.tasks[i].id < s2.next_id by {
            assert(s2.tasks.contains(s2.tasks[i]));
            assert(s.tasks.contains(s2.tasks[i]));
            let k = choose|k: int| 0 <= k < s.tasks.len() && s.tasks[k] == s2.tasks[i];
            assert(s.tasks[k].id < s.next_id);
        }
    }
}

/// Ids are never reused: after tasks are removed, a new task gets an id
/// that none of the tasks before the removal had.
pub proof fn law_ids_not_reused_after_removal(
    s: StoreView,
    target: Seq<u64>,
    description: Seq<char>,
    created_at: Timestamp,
)
    requires
        well_formed(s),
        removal(s, target) is Ok,
        addition(removal(s, target)->Ok_0.0, description, created_at) is Ok,
    ensures
        forall|i: int|
            0 <= i < s.tasks.len() ==> #[trigger] s.tasks[i].id != addition(
                removal(s, target)->Ok_0.0,
                description,
                created_at,
            )->Ok_0.1.id,
{
    law_removal_keeps_others(s, target);
}

/// An edit changes only the description of the task with that id, and
/// keeps the store well formed.
pub proof fn law_edit_changes_only_description(s: StoreView, id: u64, description: Seq<char>)
    requires
        edit_outcome(s, id, description) is Ok,
    ensures
        ({
            let (s2, t) = edit_outcome(s, id, description)->Ok_0;
            &&& t.id == id
            &&& t.description == description
            &&& s2.next_id == s.next_id
            &&& s2.tasks.len() == s.tasks.len()
            &&& exists|p: int|
                is_first_with_id(s.tasks, id, p) && s2.tasks[p] == t && t.completed
                    == s.tasks[p].completed && t.created_at == s.tasks[p].created_at && forall|j: int|
                    0 <= j < s.tasks.len() && j != p ==> #[trigger] s2.tasks[j] == s.tasks[j]
            &&& well_formed(s) ==> well_formed(s2)
        }),
{
    let p = choose|p: int| is_first_with_id(s.tasks, id, p);
    assert(is_first_with_id(s.tasks, id, p));
    let (s2, t) = edit_outcome(s, id, description)->Ok_0;
    assert(s2.tasks == s.tasks.update(p, t));
    assert(s2.tasks[p] == t);
    assert(forall|j: int| 0 <= j < s.tasks.len() && j != p ==> #[trigger] s2.tasks[j] == s.tasks[j]);
    assert forall|i: int, j: int|
        well_formed(s) && 0 <= i < s2.tasks.len() && 0 <= j < s2.tasks.len() && i != j implies #[trigger] s2.tasks[i].id
        != #[trigger] s2.tasks[j].id by {
        assert(s2.tasks[i].id == s.tasks[i].id && s2.tasks[j].id == s.tasks[j].id);
    }
    assert forall|i: int| well_formed(s) && 0 <= i < s2.tasks.len() implies #[trigger] s2.tasks[i].id
        < s2.next_id by {
        assert(s2.tasks[i].id == s.tasks[i].id);
    }
}

/// Compacting numbers the tasks 1, 2, ... in id order (stably), carries
/// over their descriptions, completion and creation times, and sets the
/// counter to one past the count; the result is well formed. An empty
/// store is left as it is.
pub proof fn law_compaction_renumbers(s: StoreView)
    requires
        compaction(s) is Ok,
    ensures
        s.tasks.len() == 0 ==> compaction(s)->Ok_0 == s,
        s.tasks.len() > 0 ==> ({
            let s2 = compaction(s)->Ok_0;
            let sorted = sort_by_id(s.tasks);
            &&& s2.tasks.len() == s.tasks.len()
            &&& s2.next_id == s.tasks.len() + 1
            &&& forall|i: int|
                0 <= i < s2.tasks.len() ==> {
                    &&& #[trigger] s2.tasks[i].id == i + 1
                    &&& s2.tasks[i].description == sorted[i].description
                    &&& s2.tasks[i].completed == sorted[i].completed
                    &&& s2.tasks[i].created_at == sorted[i].created_at
                }
            &&& sorted_by_id(sorted)
            &&& sorted.to_multiset() == s.tasks.to_multiset()
            &&& forall|id: u64| #[trigger] with_id_only(sorted, id) == with_id_only(s.tasks, id)
            &&& well_formed(s2)
        }),
{
    lemma_sort_sorted(s.tasks);
    law_full_listing(s.tasks);
}

/// Tasks already in strictly increasing id order are left as they are by
/// sorting.
pub proof fn lemma_sort_of_increasing(s: Seq<TaskView>)
    requires
        forall|i: int, j: int| 0 <= i < j < s.len() ==> s[i].id < s[j].id,
    ensures
        sort_by_id(s) == s,
    decreases s.len(),
{
    if s.len() > 0 {
        let p = s.drop_last();
        lemma_sort_of_increasing(p);
        assert forall|j: int| 0 <= j < p.len() implies #[trigger] p[j].id <= s.last().id by {
            assert(p[j] == s[j]);
        }
        lemma_insert_pos_at(p, s.last().id, p.len() as int);
        assert(p.insert(p.len() as int, s.last()) =~= s);
    }
}

/// Compacting twice is compacting once.
pub proof fn law_compaction_idempotent(s: StoreView)
    requires
        compaction(s) is Ok,
    ensures
        compaction(compaction(s)->Ok_0) == compaction(s),
{
    let s1 = compaction(s)->Ok_0;
    law_compaction_renumbers(s);
    if s.tasks.len() > 0 {
        law_compaction_renumbers(s);
        lemma_sort_of_increasing(s1.tasks);
        let again = crate::store::renumbered(s1.tasks);
        assert forall|i: int| 0 <= i < s1.tasks.len() implies #[trigger] again[i] == s1.tasks[i] by {
            assert(with_id(s1.tasks[i], (i + 1) as u64) == s1.tasks[i]);
        }
        assert(again =~= s1.tasks);
    }
}

/// The full listing holds every task once, in id order, and tasks with
/// equal ids keep their order.
pub proof fn law_full_listing(tasks: Seq<TaskView>)
    ensures
        sorted_by_id(sort_by_id(tasks)),
        sort_by_id(tasks).to_multiset() == tasks.to_multiset(),
        forall|id: u64| #[trigger] with_id_only(sort_by_id(tasks), id) == with_id_only(tasks, id),
{
    lemma_sort_sorted(tasks);
    lemma_sort_permutes(tasks);
    assert forall|id: u64| #[trigger] with_id_only(sort_by_id(tasks), id) == with_id_only(tasks, id) by {
        lemma_sort_stable(tasks, id);
    }
}

/// `pending_only` keeps exactly the tasks that are not completed.
pub proof fn lemma_pending_only(s: Seq<TaskView>)
    ensures
        forall|x: TaskView| pending_only(s).contains(x) <==> (s.contains(x) && !x.completed),
    decreases s.len(),
{
    if s.len() > 0 {
        let p = s.drop_last();
        let l = s.last();
        lemma_pending_only(p);
        let u = pending_only(p);
        assert forall|x: TaskView| #[trigger] s.contains(x) <==> (p.contains(x) || x == l) by {
            if s.contains(x) {
                let k = choose|k: int| 0 <= k < s.len() && s[k] == x;
                if k < s.len() - 1 {
                    assert(p[k] == x);
                }
            }
            if p.contains(x) {
                let k = choose|k: int| 0 <= k < p.len() && p[k] == x;
                assert(s[k] == x);
            }
            if x == l {
                assert(s[s.len() - 1] == x);
            }
        }
        if !l.completed {
            let u2 = u.push(l);
            assert forall|x: TaskView| #[trigger] u2.contains(x) <==> (u.contains(x) || x == l) by {
                if u2.contains(x) {
                    let k = choose|k: int| 0 <= k < u2.len() && u2[k] == x;
                    if k < u.len() {
                        assert(u[k] == x);
                    }
                }
                if u.contains(x) {
                    let k = choose|k: int| 0 <= k < u.len() && u[k] == x;
                    assert(u2[k] == x);
                }
                if x == l {
                    assert(u2[u.len() as int] == x);
                }
            }
        }
    }
}

/// The pending listing holds exactly the tasks that are not completed, each
/// as often as the store holds it, in id order; tasks with equal ids keep
/// their order.
pub proof fn law_pending_listing(tasks: Seq<TaskView>)
    ensures
        sorted_by_id(sort_by_id(pending_only(tasks))),
        forall|x: TaskView|
            sort_by_id(pending_only(tasks)).contains(x) <==> (tasks.contains(x) && !x.completed),
        sort_by_id(pending_only(tasks)).to_multiset() == pending_only(tasks).to_multiset(),
        forall|id: u64| #[trigger]
            with_id_only(sort_by_id(pending_only(tasks)), id) == with_id_only(pending_only(tasks), id),
{
    assert forall|id: u64| #[trigger]
        with_id_only(sort_by_id(pending_only(tasks)), id) == with_id_only(pending_only(tasks), id) by {
        lemma_sort_stable(pending_only(tasks), id);
    }
    let p = pending_only(tasks);
    lemma_sort_sorted(p);
    lemma_sort_permutes(p);
    lemma_pending_only(tasks);
    assert forall|x: TaskView| sort_by_id(p).contains(x) <==> p.contains(x) by {
        assert(sort_by_id(p).to_multiset().count(x) == p.to_multiset().count(x));
    }
}


/// Some selector of the list is refused.
pub open spec fn some_refused(ss: Seq<Seq<char>>) -> bool {
    exists|i: int| 0 <= i < ss.len() && selector_bounds(ss[i]) is Err
}

/// `i` is the first refused selector of the list.
pub open spec fn first_refused(ss: Seq<Seq<char>>, i: int) -> bool {
    &&& 0 <= i < ss.len()
    &&& selector_bounds(ss[i]) is Err
    &&& forall|j: int| 0 <= j < i ==> selector_bounds(ss[j]) is Ok
}

/// Selectors are refused exactly when one of them is, and then with the
/// fault of the first one; otherwise they name exactly the ids that lie in
/// one of their ranges.
pub proof fn law_expansion(ss: Seq<Seq<char>>)
    ensures
        expansion(ss) is Err <==> some_refused(ss),
        expansion(ss) is Err ==> exists|i: int|
            first_refused(ss, i) && expansion(ss)->Err_0 == selector_bounds(ss[i])->Err_0,
        expansion(ss) is Ok ==> forall|x: u64|
            expansion(ss)->Ok_0.contains(x) <==> exists|i: int|
                0 <= i < ss.len() && selector_bounds(ss[i])->Ok_0.0 <= x && x
                    <= #[trigger] selector_bounds(ss[i])->Ok_0.1,
    decreases ss.len(),
{
    if ss.len() > 0 {
        let p = ss.drop_last();
        let k = ss.len() - 1;
        law_expansion(p);
        assert forall|i: int| 0 <= i < p.len() implies #[trigger] p[i] == ss[i] by {}
        if expansion(p) is Err {
            let i = choose|i: int|
                first_refused(p, i) && expansion(p)->Err_0 == selector_bounds(p[i])->Err_0;
            assert(first_refused(ss, i)) by {
                assert(ss[i] == p[i]);
                assert forall|j: int| 0 <= j < i implies selector_bounds(ss[j]) is Ok by {
                    assert(ss[j] == p[j]);
                }
            }
            assert(expansion(ss) == expansion(p));
            assert(some_refused(ss)) by {
                assert(selector_bounds(ss[i]) is Err);
            }
        } else {
            assert(!some_refused(p));
            if selector_bounds(ss[k]) is Err {
                assert(first_refused(ss, k)) by {
                    assert forall|j: int| 0 <= j < k implies selector_bounds(ss[j]) is Ok by {
                        assert(ss[j] == p[j]);
                        if selector_bounds(p[j]) is Err {
                            assert(some_refused(p));
                        }
                    }
                }
            } else {
                assert(!some_refused(ss)) by {
                    if some_refused(ss) {
                        let i = choose|i: int| 0 <= i < ss.len() && selector_bounds(ss[i]) is Err;
                        if i < k {
                            assert(ss[i] == p[i]);
                            assert(some_refused(p));
                        }
                    }
                }
                let set = expansion(ss)->Ok_0;
                assert forall|x: u64| set.contains(x) <==> exists|i: int|
                    0 <= i < ss.len() && selector_bounds(ss[i])->Ok_0.0 <= x && x
                        <= #[trigger] selector_bounds(ss[i])->Ok_0.1 by {
                    if set.contains(x) {
                        if expansion(p)->Ok_0.contains(x) {
                            let i = choose|i: int|
                                0 <= i < p.len() && selector_bounds(p[i])->Ok_0.0 <= x && x
                                    <= #[trigger] selector_bounds(p[i])->Ok_0.1;
                            assert(ss[i] == p[i]);
                        } else {
                            assert(selector_bounds(ss[k])->Ok_0.0 <= x && x <= selector_bounds(
                                ss[k],
                            )->Ok_0.1);
                        }
                    }
                    if exists|i: int|
                        0 <= i < ss.len() && selector_bounds(ss[i])->Ok_0.0 <= x && x
                            <= #[trigger] selector_bounds(ss[i])->Ok_0.1 {
                        let i = choose|i: int|
                            0 <= i < ss.len() && selector_bounds(ss[i])->Ok_0.0 <= x && x
                                <= #[trigger] selector_bounds(ss[i])->Ok_0.1;
                        if i < k {
                            assert(ss[i] == p[i]);
                            assert(expansion(p)->Ok_0.contains(x));
                        }
                    }
                }
            }
        }
    }
}


/// Some task of `s` has id `x`.
pub open spec fn has_task(s: Seq<TaskView>, x: u64) -> bool {
    exists|i: int| 0 <= i < s.len() && s[i].id == x
}

/// The ids a selection touches are the listed ids that name a task, each
/// once when task ids are unique.
proof fn lemma_touched_members(s: Seq<TaskView>, target: Seq<u64>)
    ensures
        forall|x: u64|
            touched_ids(s, target).contains(x) <==> (target.contains(x) && has_task(s, x)),
        unique_ids(s) ==> touched_ids(s, target).no_duplicates(),
    decreases s.len(),
{
    if s.len() > 0 {
        let p = s.drop_last();
        let l = s.last();
        lemma_touched_members(p, target);
        let t = touched_ids(p, target);
        assert forall|x: u64| #[trigger] has_task(s, x) <==> (has_task(p, x) || l.id == x) by {
            if has_task(s, x) {
                let i = choose|i: int| 0 <= i < s.len() && s[i].id == x;
                if i < s.len() - 1 {
                    assert(p[i] == s[i]);
                }
            }
            if has_task(p, x) {
                let i = choose|i: int| 0 <= i < p.len() && p[i].id == x;
                assert(s[i] == p[i]);
            }
            if l.id == x {
                assert(s[s.len() - 1].id == x);
            }
        }
        if target.contains(l.id) {
            let t2 = t.push(l.id);
            assert forall|x: u64| #[trigger] t2.contains(x) <==> (t.contains(x) || x == l.id) by {
                if t2.contains(x) {
                    let k = choose|k: int| 0 <= k < t2.len() && t2[k] == x;
                    if k < t.len() {
                        assert(t[k] == x);
                    }
                }
                if t.contains(x) {
                    let k = choose|k: int| 0 <= k < t.len() && t[k] == x;
                    assert(t2[k] == x);
                }
                if x == l.id {
                    assert(t2[t.len() as int] == x);
                }
            }
            if unique_ids(s) {
                assert(unique_ids(p)) by {
                    assert forall|i: int, j: int|
                        0 <= i < p.len() && 0 <= j < p.len() && i != j implies #[trigger] p[i].id
                        != #[trigger] p[j].id by {
                        assert(s[i] == p[i] && s[j] == p[j]);
                    }
                }
                assert(!has_task(p, l.id)) by {
                    if has_task(p, l.id) {
                        let i = choose|i: int| 0 <= i < p.len() && p[i].id == l.id;
                        assert(s[i] == p[i]);
                        assert(s[s.len() - 1] == l);
                    }
                }
                assert forall|i: int, j: int|
                    0 <= i < t2.len() && 0 <= j < t2.len() && i != j implies t2[i] != t2[j] by {
                    if i < t.len() && j < t.len() {
                        assert(t2[i] == t[i] && t2[j] == t[j]);
                    } else if i < t.len() {
                        assert(t2[i] == t[i]);
                        assert(t.contains(t[i]));
                    } else if j < t.len() {
                        assert(t2[j] == t[j]);
                        assert(t.contains(t[j]));
                    }
                }
            }
        } else {
            if unique_ids(s) {
                assert(unique_ids(p)) by {
                    assert forall|i: int, j: int|
                        0 <= i < p.len() && 0 <= j < p.len() && i != j implies #[trigger] p[i].id
                        != #[trigger] p[j].id by {
                        assert(s[i] == p[i] && s[j] == p[j]);
                    }
                }
            }
        }
    }
}

/// The ids reported missing are the listed ids outside `touched`, in their
/// order; from increasing ids they come out increasing.
proof fn lemma_missing_members(target: Seq<u64>, touched: Seq<u64>)
    ensures
        forall|x: u64|
            missing_ids(target, touched).contains(x) <==> (target.contains(x) && !touched.contains(x)),
        strictly_increasing(target) ==> strictly_increasing(missing_ids(target, touched)),
    decreases target.len(),
{
    if target.len() > 0 {
        let p = target.drop_last();
        let l = target.last();
        lemma_missing_members(p, touched);
        let m = missing_ids(p, touched);
        assert forall|x: u64| #[trigger] target.contains(x) <==> (p.contains(x) || x == l) by {
            if target.contains(x) {
                let k = choose|k: int| 0 <= k < target.len() && target[k] == x;
                if k < target.len() - 1 {
                    assert(p[k] == x);
                }
            }
            if p.contains(x) {
                let k = choose|k: int| 0 <= k < p.len() && p[k] == x;
                assert(target[k] == x);
            }
            if x == l {
                assert(target[target.len() - 1] == x);
            }
        }
        if strictly_increasing(target) {
            assert(strictly_increasing(p)) by {
                assert forall|i: int, j: int| 0 <= i < j < p.len() implies p[i] < p[j] by {
                    assert(p[i] == target[i] && p[j] == target[j]);
                }
            }
        }
        if !touched.contains(l) {
            let m2 = m.push(l);
            assert forall|x: u64| #[trigger] m2.contains(x) <==> (m.contains(x) || x == l) by {
                if m2.contains(x) {
                    let k = choose|k: int| 0 <= k < m2.len() && m2[k] == x;
                    if k < m.len() {
                        assert(m[k] == x);
                    }
                }
                if m.contains(x) {
                    let k = choose|k: int| 0 <= k < m.len() && m[k] == x;
                    assert(m2[k] == x);
                }
                if x == l {
                    assert(m2[m.len() as int] == x);
                }
            }
            if strictly_increasing(target) {
                assert forall|i: int, j: int| 0 <= i < j < m2.len() implies m2[i] < m2[j] by {
                    if j < m.len() {
                        assert(m2[i] == m[i] && m2[j] == m[j]);
                    } else {
                        let x = m[i];
                        assert(m2[i] == x);
                        assert(m.contains(x));
                        assert(p.contains(x));
                        let k = choose|k: int| 0 <= k < p.len() && p[k] == x;
                        assert(target[k] == p[k]);
                        assert(target[k] < target[target.len() - 1]);
                        assert(m2[j] == l);
                    }
                }
            }
        }
    }
}

/// With unique task ids and a selection of distinct ids in increasing
/// order: the selection goes through exactly when it is not empty and every
/// id names a task; it is refused as matching nothing exactly when no id
/// names a task; otherwise the missing ids are reported, in increasing
/// order, exactly the ids that name no task.
pub proof fn law_selection(s: Seq<TaskView>, ids: Seq<u64>, target: Seq<u64>)
    requires
        unique_ids(s),
        is_resolution(target, ids),
    ensures
        selection_fault(target, touched_ids(s, target)) is None <==> (ids.len() > 0 && forall|x: u64|
            ids.contains(x) ==> has_task(s, x)),
        selection_fault(target, touched_ids(s, target)) == Some(crate::model::RepoFault::NoTasksMatched)
            <==> forall|x: u64| ids.contains(x) ==> !has_task(s, x),
        selection_fault(target, touched_ids(s, target)) matches Some(
            crate::model::RepoFault::IdsNotFound(m),
        ) ==> strictly_increasing(m) && forall|x: u64|
            m.contains(x) <==> (ids.contains(x) && !has_task(s, x)),
{
    let t = touched_ids(s, target);
    lemma_touched_members(s, target);
    lemma_missing_members(target, t);
    assert(target.no_duplicates());
    assert(t.no_duplicates());
    assert(ids.len() > 0 <==> target.len() > 0) by {
        if ids.len() > 0 {
            assert(ids.contains(ids[0]));
            assert(target.contains(ids[0]));
        }
        if target.len() > 0 {
            assert(target.contains(target[0]));
        }
    }
    assert(t.len() == 0 <==> forall|x: u64| ids.contains(x) ==> !has_task(s, x)) by {
        if t.len() > 0 {
            let x = t[0];
            assert(t.contains(x));
            assert(target.contains(x) && has_task(s, x));
            assert(ids.contains(x));
        }
        if exists|x: u64| ids.contains(x) && has_task(s, x) {
            let x = choose|x: u64| ids.contains(x) && has_task(s, x);
            assert(t.contains(x));
        }
    }
    target.unique_seq_to_set();
    t.unique_seq_to_set();
    assert(t.to_set().subset_of(target.to_set()));
    vstd::set_lib::lemma_len_subset(t.to_set(), target.to_set());
    if forall|x: u64| ids.contains(x) ==> has_task(s, x) {
        assert(t.to_set() =~= target.to_set());
    }
    if t.len() == target.len() {
        vstd::set_lib::lemma_subset_equality(t.to_set(), target.to_set());
        assert forall|x: u64| ids.contains(x) implies has_task(s, x) by {
            assert(target.to_set().contains(x));
            assert(t.to_set().contains(x));
        }
    }
}


/// Removing the tasks of a list of ids from a store with unique ids: it
/// goes through exactly when the list is not empty and every id names a
/// task, and then reports each of those ids once.
pub proof fn law_removal_outcome(s: StoreView, ids: Seq<u64>, target: Seq<u64>)
    requires
        unique_ids(s.tasks),
        is_resolution(target, ids),
    ensures
        removal(s, target) is Ok <==> (ids.len() > 0 && forall|x: u64|
            ids.contains(x) ==> has_task(s.tasks, x)),
        removal(s, target) matches Ok((_, t)) ==> t.no_duplicates() && forall|x: u64|
            t.contains(x) <==> ids.contains(x),
{
    law_selection(s.tasks, ids, target);
    lemma_touched_members(s.tasks, target);
}

/// Marking the tasks of a list of ids in a store with unique ids: it goes
/// through exactly when the list is not empty and every id names a task,
/// and then reports each of those ids once.
pub proof fn law_marking_outcome(s: StoreView, ids: Seq<u64>, target: Seq<u64>, completed: bool)
    requires
        unique_ids(s.tasks),
        is_resolution(target, ids),
    ensures
        completion(s, target, completed) is Ok <==> (ids.len() > 0 && forall|x: u64|
            ids.contains(x) ==> has_task(s.tasks, x)),
        completion(s, target, completed) matches Ok((_, t)) ==> t.no_duplicates() && forall|x: u64|
            t.contains(x) <==> ids.contains(x),
{
    law_selection(s.tasks, ids, target);
    lemma_touched_members(s.tasks, target);
}

/// An operation on a loaded store, as the repository applies it.
pub enum Op {
    Add(Seq<char>, Timestamp),
    Mark(Seq<u64>, bool),
    Edit(u64, Seq<char>),
    Remove(Seq<u64>),
}

/// The store after an operation (unchanged when it is refused), and the id
/// of the task it added, if it added one.
pub open spec fn step(s: StoreView, op: Op) -> (StoreView, Option<u64>) {
    match op {
        Op::Add(d, c) => match addition(s, d, c) {
            Ok((s2, t)) => (s2, Some(t.id)),
            Err(_) => (s, None),
        },
        Op::Mark(target, c) => match completion(s, target, c) {
            Ok((s2, _)) => (s2, None),
            Err(_) => (s, None),
        },
        Op::Edit(id, d) => match edit_outcome(s, id, d) {
            Ok((s2, _)) => (s2, None),
            Err(_) => (s, None),
        },
        Op::Remove(target) => match removal(s, target) {
            Ok((s2, _)) => (s2, None),
            Err(_) => (s, None),
        },
    }
}

/// The store after a sequence of operations.
pub open spec fn replay(s: StoreView, ops: Seq<Op>) -> StoreView
    decreases ops.len(),
{
    if ops.len() == 0 {
        s
    } else {
        step(replay(s, ops.drop_last()), ops.last()).0
    }
}

/// The ids of the tasks that a sequence of operations added, in order.
pub open spec fn added_ids(s: StoreView, ops: Seq<Op>) -> Seq<u64>
    decreases ops.len(),
{
    if ops.len() == 0 {
        Seq::empty()
    } else {
        let prev = added_ids(s, ops.drop_last());
        match step(replay(s, ops.drop_last()), ops.last()).1 {
            Some(id) => prev.push(id),
            None => prev,
        }
    }
}

/// One operation keeps a well-formed store well formed, never lowers the
/// counter, and an added task gets the counter's id.
proof fn lemma_step(s: StoreView, op: Op)
    requires
        well_formed(s),
    ensures
        well_formed(step(s, op).0),
        step(s, op).0.next_id >= s.next_id,
        step(s, op).1 matches Some(id) ==> id == s.next_id && step(s, op).0.next_id == id + 1,
{
    match op {
        Op::Add(d, c) => {
            if addition(s, d, c) is Ok {
                law_add_assigns_fresh_id(s, d, c);
            }
        },
        Op::Mark(target, c) => {
            if completion(s, target, c) is Ok {
                law_marking_changes_only_completion(s, target, c);
            }
        },
        Op::Edit(id, d) => {
            if edit_outcome(s, id, d) is Ok {
                law_edit_changes_only_description(s, id, d);
            }
        },
        Op::Remove(target) => {
            if removal(s, target) is Ok {
                law_removal_keeps_others(s, target);
            }
        },
    }
}

/// Ids are never reused: over any sequence of additions, markings, edits
/// and removals on a well-formed store, the store stays well formed, each
/// added task gets an id greater than every id added before it, and no
/// added id is the id of a task the store held at the start.
pub proof fn law_ids_never_reused(s: StoreView, ops: Seq<Op>)
    requires
        well_formed(s),
    ensures
        well_formed(replay(s, ops)),
        replay(s, ops).next_id >= s.next_id,
        strictly_increasing(added_ids(s, ops)),
        forall|i: int|
            0 <= i < added_ids(s, ops).len() ==> s.next_id <= #[trigger] added_ids(s, ops)[i]
                < replay(s, ops).next_id,
        forall|i: int, j: int|
            0 <= i < added_ids(s, ops).len() && 0 <= j < s.tasks.len() ==> #[trigger] added_ids(
                s,
                ops,
            )[i] != #[trigger] s.tasks[j].id,
    decreases ops.len(),
{
    if ops.len() > 0 {
        let p = ops.drop_last();
        law_ids_never_reused(s, p);
        let r = replay(s, p);
        lemma_step(r, ops.last());
        let prev = added_ids(s, p);
        let now = added_ids(s, ops);
        if step(r, ops.last()).1 is Some {
            assert forall|i: int, j: int| 0 <= i < j < now.len() implies now[i] < now[j] by {
                if j < prev.len() {
                    assert(now[i] == prev[i] && now[j] == prev[j]);
                } else {
                    assert(now[i] == prev[i]);
                    assert(prev[i] < r.next_id);
                }
            }
            assert forall|i: int| 0 <= i < now.len() implies s.next_id <= #[trigger] now[i]
                < replay(s, ops).next_id by {
                if i < prev.len() {
                    assert(now[i] == prev[i]);
                }
            }
        }
        assert forall|i: int, j: int|
            0 <= i < now.len() && 0 <= j < s.tasks.len() implies #[trigger] now[i]
            != #[trigger] s.tasks[j].id by {
            assert(s.next_id <= now[i]);
            assert(s.tasks[j].id < s.next_id);
        }
    } else {
        assert(added_ids(s, ops) =~= Seq::<u64>::empty());
    }
}

/// A successful addition appends exactly the given task: the counter's id,
/// the description as given, not completed, stamped with the given time;
/// the other tasks stay as they are and the counter moves on by one. It
/// succeeds whenever the counter can still move on.
pub proof fn law_addition_stores_as_given(s: StoreView, description: Seq<char>, created_at: Timestamp)
    ensures
        (s.next_id < u64::MAX) <==> addition(s, description, created_at) is Ok,
        addition(s, description, created_at) matches Ok((s2, t)) ==> {
            &&& t.id == s.next_id
            &&& t.description == description
            &&& !t.completed
            &&& t.created_at == created_at
            &&& s2.tasks.len() == s.tasks.len() + 1
            &&& s2.tasks.last() == t
            &&& forall|i: int| 0 <= i < s.tasks.len() ==> #[trigger] s2.tasks[i] == s.tasks[i]
            &&& s2.next_id == s.next_id + 1
        },
{
}

/// The pending selection is the store's tasks filtered to those not
/// completed, in their order, each as often as the store holds it.
pub proof fn law_pending_is_filter(s: Seq<TaskView>)
    ensures
        pending_only(s) == s.filter(|t: TaskView| !t.completed),
        forall|x: TaskView| #[trigger] pending_only(s).to_multiset().count(x) == if x.completed {
            0
        } else {
            s.to_multiset().count(x)
        },
{
    let pred = |t: TaskView| !t.completed;
    lemma_pending_filter(s, pred);
    lemma_pending_count(s);
}

proof fn lemma_pending_filter(s: Seq<TaskView>, pred: spec_fn(TaskView) -> bool)
    requires
        forall|t: TaskView| #[trigger] pred(t) == !t.completed,
    ensures
        pending_only(s) == s.filter(pred),
    decreases s.len(),
{
    reveal(Seq::filter);
    if s.len() > 0 {
        lemma_pending_filter(s.drop_last(), pred);
        assert(pred(s.last()) == !s.last().completed);
    }
}

proof fn lemma_pending_count(s: Seq<TaskView>)
    ensures
        forall|x: TaskView| #[trigger] pending_only(s).to_multiset().count(x) == if x.completed {
            0
        } else {
            s.to_multiset().count(x)
        },
    decreases s.len(),
{
    broadcast use vstd::seq_lib::to_multiset_build, vstd::multiset::group_multiset_axioms;

    if s.len() == 0 {
        assert(s.to_multiset() =~= vstd::multiset::Multiset::<TaskView>::empty());
    } else {
        let p = s.drop_last();
        let l = s.last();
        lemma_pending_count(p);
        assert(s =~= p.push(l));
        if !l.completed {
            assert(pending_only(s) == pending_only(p).push(l));
        }
    }
}

/// The rows of both listings: the id padded to the column, then (in the
/// full listing) a check mark or a space, then the whole description; the
/// listing ends with the count of tasks.
pub proof fn law_listing_rows(tasks: Seq<TaskView>)
    requires
        tasks.len() > 0,
    ensures
        pending_text(tasks).len() == tasks.len() + 4,
        full_text(tasks).len() == tasks.len() + 4,
        pending_text(tasks).last() == decimal(tasks.len()) + " "@ + (if tasks.len() == 1 {
            "task"@
        } else {
            "tasks"@
        }) + "."@,
        full_text(tasks).last() == pending_text(tasks).last(),
        pending_text(tasks)[0] == padded("ID"@, id_column(tasks)) + " Description"@,
        full_text(tasks)[0] == padded("ID"@, id_column(tasks)) + " \u{2713} Description"@,
        pending_text(tasks)[1] == crate::render::repeated('-', id_column(tasks)) + " -----------"@,
        full_text(tasks)[1] == crate::render::repeated('-', id_column(tasks)) + " - -----------"@,
        pending_text(tasks)[tasks.len() as int + 2] == Seq::<char>::empty(),
        full_text(tasks)[tasks.len() as int + 2] == Seq::<char>::empty(),
        forall|i: int|
            0 <= i < tasks.len() ==> #[trigger] pending_text(tasks)[i + 2] == padded(
                decimal(tasks[i].id as nat),
                id_column(tasks),
            ) + " "@ + tasks[i].description,
        forall|i: int|
            0 <= i < tasks.len() ==> #[trigger] full_text(tasks)[i + 2] == padded(
                decimal(tasks[i].id as nat),
                id_column(tasks),
            ) + " "@ + (if tasks[i].completed {
                "\u{2713}"@
            } else {
                " "@
            }) + " "@ + tasks[i].description,
{
    assert(count_line(tasks.len()) == pending_text(tasks).last());
}

/// An empty store lists as the single line `0 tasks.`, in both listings.
pub proof fn law_empty_listing()
    ensures
        pending_text(Seq::<TaskView>::empty()) == seq!["0 tasks."@],
        full_text(Seq::<TaskView>::empty()) == seq!["0 tasks."@],
{
}

/// The decimal digits of a number read back as that number.
pub proof fn law_decimal_reads_back(n: u64)
    ensures
        parse_u64(decimal(n as nat)) == Some(n),
        all_digits(decimal(n as nat)),
        decimal(n as nat).len() > 0,
{
    lemma_decimal_value(n as nat);
    assert(unsigned_body(decimal(n as nat)) == decimal(n as nat));
}

proof fn lemma_decimal_value(n: nat)
    ensures
        all_digits(decimal(n)),
        decimal_value(decimal(n)) == n,
        decimal(n).len() > 0,
        is_digit(decimal(n)[0]),
    decreases n,
{
    if n >= 10 {
        lemma_decimal_value(n / 10);
        let d = decimal(n / 10);
        let c = (48 + n % 10) as char;
        assert(decimal(n) == d.push(c));
        assert(d.push(c).drop_last() =~= d);
        assert forall|i: int| 0 <= i < d.push(c).len() implies is_digit(#[trigger] d.push(c)[i]) by {
            if i < d.len() {
                assert(d.push(c)[i] == d[i]);
            }
        }
        assert(c as int == 48 + n % 10);
        assert(decimal_value(d.push(c)) == decimal_value(d) * 10 + crate::selector::digit_value(c));
        assert((n / 10) * 10 + n % 10 == n) by (nonlinear_arith);
    } else {
        let c = (48 + n) as char;
        assert(c as int == 48 + n);
        assert(decimal(n) == seq![c]);
        assert(seq![c].drop_last() =~= Seq::<char>::empty());
        assert(decimal_value(seq![c]) == decimal_value(Seq::<char>::empty()) * 10
            + crate::selector::digit_value(c));
    }
}

/// The ids between two bounds are every id from the first to the second,
/// in increasing order, each once.
pub proof fn law_ids_between(lo: u64, hi: u64)
    requires
        lo <= hi,
    ensures
        ids_between(lo, hi).len() == hi - lo + 1,
        forall|i: int| 0 <= i < ids_between(lo, hi).len() ==> #[trigger] ids_between(lo, hi)[i] == lo + i,
        forall|x: u64| ids_between(lo, hi).contains(x) <==> lo <= x <= hi,
        strictly_increasing(ids_between(lo, hi)),
{
    let r = ids_between(lo, hi);
    assert forall|x: u64| lo <= x <= hi implies r.contains(x) by {
        assert(r[x - lo] == x);
    }
}

/// A range `a-b` whose bounds read as numbers, the first no larger than the
/// second, selects exactly the bounds as read, however far apart they are.
pub proof fn law_range_selector(a: Seq<char>, b: Seq<char>)
    requires
        !a.contains('-'),
        parse_u64(a) is Some,
        parse_u64(b) is Some,
        parse_u64(a)->Some_0 <= parse_u64(b)->Some_0,
    ensures
        selector_bounds(a + "-"@ + b) == Ok::<(u64, u64), crate::selector::SelectorFault>(
            (parse_u64(a)->Some_0, parse_u64(b)->Some_0),
        ),
{
    let s = a + "-"@ + b;
    let p = a.len() as int;
    assert("-"@ =~= seq!['-']) by {
        reveal_strlit("-");
    }
    assert(s[p] == '-');
    assert forall|j: int| 0 <= j < p implies s[j] != '-' by {
        assert(s[j] == a[j]);
        if a[j] == '-' {
            assert(a.contains('-'));
        }
    }
    assert(crate::selector::is_first_dash(s, p));
    let q = choose|q: int| crate::selector::is_first_dash(s, q);
    assert(q == p) by {
        if q < p {
            assert(s[q] != '-');
        } else if q > p {
            assert(s[p] != '-');
        }
    }
    assert(s.subrange(0, p) =~= a);
    assert(s.subrange(p + 1, s.len() as int) =~= b);
}

/// The selector `lo-hi`, written in decimal, selects every id from `lo` to
/// `hi`; the selector `n` selects `n` alone.
pub proof fn law_decimal_range_selects_all(lo: u64, hi: u64)
    requires
        lo <= hi,
    ensures
        selector_bounds(decimal(lo as nat) + "-"@ + decimal(hi as nat)) == Ok::<
            (u64, u64),
            crate::selector::SelectorFault,
        >((lo, hi)),
        selector_bounds(decimal(lo as nat)) == Ok::<(u64, u64), crate::selector::SelectorFault>(
            (lo, lo),
        ),
        forall|x: u64| ids_between(lo, hi).contains(x) <==> lo <= x <= hi,
{
    law_decimal_reads_back(lo);
    law_decimal_reads_back(hi);
    let a = decimal(lo as nat);
    assert(!a.contains('-')) by {
        if a.contains('-') {
            let k = choose|k: int| 0 <= k < a.len() && a[k] == '-';
            assert(is_digit(a[k]));
        }
    }
    assert(!exists|p: int| crate::selector::is_first_dash(a, p)) by {
        if exists|p: int| crate::selector::is_first_dash(a, p) {
            let p = choose|p: int| crate::selector::is_first_dash(a, p);
            assert(is_digit(a[p]));
        }
    }
    law_range_selector(a, decimal(hi as nat));
    law_ids_between(lo, hi);
}

/// A description is refused as blank exactly when every character has the
/// Unicode `White_Space` property, which the characters below hold and no
/// other: so any text with a letter, a digit, a mark or an ideograph in it
/// is not blank.
pub proof fn law_blank_is_white_space_only(s: Seq<char>)
    ensures
        is_blank(s) <==> forall|i: int|
            0 <= i < s.len() ==> {
                let c = #[trigger] s[i];
                ||| c == ' '
                ||| c == '\t'
                ||| c == '\n'
                ||| c == '\u{b}'
                ||| c == '\u{c}'
                ||| c == '\r'
                ||| c == '\u{85}'
                ||| c == '\u{a0}'
                ||| c == '\u{1680}'
                ||| ('\u{2000}' <= c && c <= '\u{200a}')
                ||| c == '\u{2028}'
                ||| c == '\u{2029}'
                ||| c == '\u{202f}'
                ||| c == '\u{205f}'
                ||| c == '\u{3000}'
            },
        (exists|i: int| 0 <= i < s.len() && #[trigger] s[i] > '\u{3000}') ==> !is_blank(s),
        (exists|i: int| 0 <= i < s.len() && '!' <= #[trigger] s[i] && s[i] <= '~') ==> !is_blank(s),
{
}

/// A removal keeps the tasks whose id is not listed, in their order, each
/// as often as the store holds it; the ids it reports are those of the
/// listed tasks, in store order.
pub proof fn law_removal_is_filter(s: Seq<TaskView>, target: Seq<u64>)
    ensures
        unlisted(s, target) == s.filter(|t: TaskView| !target.contains(t.id)),
        touched_ids(s, target) == s.filter(|t: TaskView| target.contains(t.id)).map_values(
            |t: TaskView| t.id,
        ),
{
    let keep = |t: TaskView| !target.contains(t.id);
    let take = |t: TaskView| target.contains(t.id);
    let id_of = |t: TaskView| t.id;
    lemma_unlisted_filter(s, target, keep);
    lemma_touched_filter(s, target, take, id_of);
}

proof fn lemma_unlisted_filter(s: Seq<TaskView>, target: Seq<u64>, keep: spec_fn(TaskView) -> bool)
    requires
        forall|t: TaskView| #[trigger] keep(t) == !target.contains(t.id),
    ensures
        unlisted(s, target) == s.filter(keep),
    decreases s.len(),
{
    reveal(Seq::filter);
    if s.len() > 0 {
        lemma_unlisted_filter(s.drop_last(), target, keep);
        assert(keep(s.last()) == !target.contains(s.last().id));
    }
}

proof fn lemma_touched_filter(
    s: Seq<TaskView>,
    target: Seq<u64>,
    take: spec_fn(TaskView) -> bool,
    id_of: spec_fn(TaskView) -> u64,
)
    requires
        forall|t: TaskView| #[trigger] take(t) == target.contains(t.id),
        forall|t: TaskView| #[trigger] id_of(t) == t.id,
    ensures
        touched_ids(s, target) == s.filter(take).map_values(id_of),
    decreases s.len(),
{
    reveal(Seq::filter);
    if s.len() > 0 {
        let p = s.drop_last();
        let l = s.last();
        lemma_touched_filter(p, target, take, id_of);
        assert(take(l) == target.contains(l.id));
        if take(l) {
            assert(s.filter(take) == p.filter(take).push(l));
            assert(p.filter(take).push(l).map_values(id_of) =~= p.filter(take).map_values(id_of).push(
                id_of(l),
            ));
        }
    }
}

/// Padding keeps the text and fills with spaces up to the width.
pub proof fn law_padded(s: Seq<char>, w: nat)
    ensures
        padded(s, w).len() == if s.len() >= w {
            s.len()
        } else {
            w
        },
        padded(s, w).take(s.len() as int) == s,
        forall|i: int| s.len() <= i < padded(s, w).len() ==> #[trigger] padded(s, w)[i] == ' ',
{
    assert(padded(s, w).take(s.len() as int) =~= s);
}

/// The largest id is one of the ids and no id exceeds it.
proof fn lemma_max_id(tasks: Seq<TaskView>)
    ensures
        forall|i: int| 0 <= i < tasks.len() ==> #[trigger] tasks[i].id <= max_id(tasks),
        tasks.len() == 0 ==> max_id(tasks) == 0,
        tasks.len() > 0 ==> exists|i: int| 0 <= i < tasks.len() && #[trigger] tasks[i].id == max_id(tasks),
    decreases tasks.len(),
{
    if tasks.len() > 0 {
        let p = tasks.drop_last();
        lemma_max_id(p);
        assert forall|i: int| 0 <= i < tasks.len() implies #[trigger] tasks[i].id <= max_id(tasks) by {
            if i < p.len() {
                assert(tasks[i] == p[i]);
            }
        }
        if tasks.last().id > max_id(p) || p.len() == 0 {
            assert(tasks[tasks.len() - 1].id == max_id(tasks));
        } else {
            let k = choose|k: int| 0 <= k < p.len() && #[trigger] p[k].id == max_id(p);
            assert(tasks[k] == p[k]);
        }
    }
}

/// A larger number has at least as many digits.
proof fn lemma_decimal_len_monotone(a: nat, b: nat)
    requires
        a <= b,
    ensures
        decimal(a).len() <= decimal(b).len(),
    decreases b,
{
    if a >= 10 {
        lemma_decimal_len_monotone(a / 10, b / 10);
    }
}

/// The id column is wide enough for every id and for the heading, and no
/// wider than it needs: it is as wide as the longest id, or 2.
pub proof fn law_id_column(tasks: Seq<TaskView>)
    ensures
        id_column(tasks) >= 2,
        forall|i: int|
            0 <= i < tasks.len() ==> decimal(#[trigger] tasks[i].id as nat).len() <= id_column(tasks),
        id_column(tasks) == 2 || exists|i: int|
            0 <= i < tasks.len() && decimal(#[trigger] tasks[i].id as nat).len() == id_column(tasks),
{
    lemma_max_id(tasks);
    assert forall|i: int|
        0 <= i < tasks.len() implies decimal(#[trigger] tasks[i].id as nat).len() <= id_column(tasks) by {
        lemma_decimal_len_monotone(tasks[i].id as nat, max_id(tasks) as nat);
    }
    if id_column(tasks) != 2 {
        if tasks.len() == 0 {
            assert(decimal(0nat).len() == 1);
        } else {
            let k = choose|k: int| 0 <= k < tasks.len() && #[trigger] tasks[k].id == max_id(tasks);
            assert(decimal(tasks[k].id as nat).len() == id_column(tasks));
        }
    }
}

/// Text that reads as a number is digits, with at most a leading `+`; a
/// number's digits read back as it with or without that `+`.
pub proof fn law_parse_u64_shape(s: Seq<char>, n: u64)
    ensures
        parse_u64(s) is Some ==> s.len() > 0 && forall|i: int|
            0 <= i < s.len() ==> ('0' <= #[trigger] s[i] && s[i] <= '9') || (i == 0 && s[i] == '+'),
        parse_u64("+"@ + decimal(n as nat)) == Some(n),
{
    if parse_u64(s) is Some {
        let body = unsigned_body(s);
        assert forall|i: int| 0 <= i < s.len() implies ('0' <= #[trigger] s[i] && s[i] <= '9') || (i
            == 0 && s[i] == '+') by {
            if s[0] == '+' {
                if i > 0 {
                    assert(s[i] == body[i - 1]);
                    assert(is_digit(body[i - 1]));
                }
            } else {
                assert(is_digit(body[i]));
            }
        }
    }
    law_decimal_reads_back(n);
    let d = decimal(n as nat);
    let t = "+"@ + d;
    assert("+"@ =~= seq!['+']) by {
        reveal_strlit("+");
    }
    assert(t[0] == '+');
    assert(unsigned_body(t) =~= d);
}

/// The replies to add, edit, done, undo and rm name the task or the number
/// of tasks they speak of: the digits after the fixed opening read back as
/// that number, and the closing word says which way the tasks were marked.
pub proof fn law_reply_lines_name_their_numbers(id: u64, n: u64, completed: bool)
    ensures
        created_line(id).take(13) == "Created task "@,
        parse_u64(created_line(id).subrange(13, created_line(id).len() - 1)) == Some(id),
        updated_line(id).take(13) == "Updated task "@,
        parse_u64(updated_line(id).subrange(13, updated_line(id).len() - 1)) == Some(id),
        parse_u64(removed_line(n as nat).subrange(8, 8 + decimal(n as nat).len() as int)) == Some(n),
        parse_u64(marked_line(completed, n as nat).subrange(7, 7 + decimal(n as nat).len() as int))
            == Some(n),
        parse_u64(count_line(n as nat).take(decimal(n as nat).len() as int)) == Some(n),
        marked_line(completed, n as nat).last() == '.',
        completed ==> marked_line(completed, n as nat).subrange(
            marked_line(completed, n as nat).len() - 6,
            marked_line(completed, n as nat).len() as int,
        ) == " done."@,
        !completed ==> marked_line(completed, n as nat).subrange(
            marked_line(completed, n as nat).len() - 8,
            marked_line(completed, n as nat).len() as int,
        ) == " undone."@,
{
    reveal_strlit("Created task ");
    reveal_strlit("Updated task ");
    reveal_strlit("Removed ");
    reveal_strlit("Marked ");
    reveal_strlit(".");
    reveal_strlit(" ");
    reveal_strlit(" done");
    reveal_strlit(" undone");
    reveal_strlit(" done.");
    reveal_strlit(" undone.");
    law_decimal_reads_back(id);
    law_decimal_reads_back(n);
    let d = decimal(id as nat);
    let e = decimal(n as nat);
    assert(created_line(id).subrange(13, created_line(id).len() - 1) =~= d);
    assert(created_line(id).take(13) =~= "Created task "@);
    assert(updated_line(id).subrange(13, updated_line(id).len() - 1) =~= d);
    assert(updated_line(id).take(13) =~= "Updated task "@);
    assert(removed_line(n as nat).subrange(8, 8 + e.len() as int) =~= e);
    assert(marked_line(completed, n as nat).subrange(7, 7 + e.len() as int) =~= e);
    assert(count_line(n as nat).take(e.len() as int) =~= e);
    let m = marked_line(completed, n as nat);
    if completed {
        assert(m.subrange(m.len() - 6, m.len() as int) =~= " done."@);
    } else {
        assert(m.subrange(m.len() - 8, m.len() as int) =~= " undone."@);
    }
}

} // verus!
