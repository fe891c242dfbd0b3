//! Ordering tasks by id, keeping tasks with equal ids in their first order.
use vstd::prelude::*;
use crate::model::{Task, TaskView, views};

verus! {

broadcast use {vstd::seq_lib::to_multiset_build, vstd::seq_lib::to_multiset_insert};

/// How many leading elements of `s` come before a task with id `id` when it
/// is inserted after every element whose id is not greater.
pub open spec fn insert_pos(s: Seq<TaskView>, id: u64) -> nat
    decreases s.len(),
{
    if s.len() == 0 {
        0
    } else if id < s[0].id {
        0
    } else {
        1 + insert_pos(s.drop_first(), id)
    }
}

/// `s` with `t` inserted after the leading run of tasks whose ids are not
/// greater than that of `t`.
pub open spec fn insert_by_id(s: Seq<TaskView>, t: TaskView) -> Seq<TaskView> {
    s.insert(insert_pos(s, t.id) as int, t)
}

/// The tasks of `s` ordered by id; tasks with equal ids keep their order.
pub open spec fn sort_by_id(s: Seq<TaskView>) -> Seq<TaskView>
    decreases s.len(),
{
    if s.len() == 0 {
        s
    } else {
        insert_by_id(sort_by_id(s.drop_last()), s.last())
    }
}

/// Ids never decrease along `s`.
pub open spec fn sorted_by_id(s: Seq<TaskView>) -> bool {
    forall|i: int, j: int| 0 <= i < j < s.len() ==> s[i].id <= s[j].id
}

pub proof fn lemma_insert_pos_bounds(s: Seq<TaskView>, id: u64)
    ensures
        insert_pos(s, id) <= s.len(),
        forall|j: int| 0 <= j < insert_pos(s, id) ==> #[trigger] s[j].id <= id,
        insert_pos(s, id) < s.len() ==> s[insert_pos(s, id) as int].id > id,
    decreases s.len(),
{
    if s.len() > 0 && id >= s[0].id {
        let t = s.drop_first();
        lemma_insert_pos_bounds(t, id);
        assert forall|j: int| 0 <= j < insert_pos(s, id) implies #[trigger] s[j].id <= id by {
            if j > 0 {
                assert(s[j] == t[j - 1]);
            }
        }
    }
}

/// The position after the leading run of tasks with ids not greater than
/// `id` is the insertion position.
pub proof fn lemma_insert_pos_at(s: Seq<TaskView>, id: u64, p: int)
    requires
        0 <= p <= s.len(),
        forall|j: int| 0 <= j < p ==> #[trigger] s[j].id <= id,
        p < s.len() ==> s[p].id > id,
    ensures
        insert_pos(s, id) == p,
    decreases s.len(),
{
    if s.len() > 0 && p > 0 {
        let t = s.drop_first();
        assert(s[0].id <= id);
        assert forall|j: int| 0 <= j < p - 1 implies #[trigger] t[j].id <= id by {
            assert(t[j] == s[j + 1]);
        }
        lemma_insert_pos_at(t, id, p - 1);
    }
}

/// Sorting yields tasks in id order.
pub proof fn lemma_sort_sorted(s: Seq<TaskView>)
    ensures
        sorted_by_id(sort_by_id(s)),
        sort_by_id(s).len() == s.len(),
    decreases s.len(),
{
    if s.len() > 0 {
        let r = sort_by_id(s.drop_last());
        let t = s.last();
        lemma_sort_sorted(s.drop_last());
        lemma_insert_pos_bounds(r, t.id);
        let p = insert_pos(r, t.id) as int;
        let q = r.insert(p, t);
        r.insert_ensures(p, t);
        assert forall|i: int, j: int| 0 <= i < j < q.len() implies q[i].id <= q[j].id by {
            if j < p {
            } else if j == p {
            } else if i < p {
                assert(q[j] == r[j - 1]);
            } else if i == p {
                assert(q[j] == r[j - 1]);
                assert(r[p].id <= r[j - 1].id);
            } else {
                assert(q[i] == r[i - 1] && q[j] == r[j - 1]);
            }
        }
    }
}

/// Sorting keeps every task, and no other.
pub proof fn lemma_sort_permutes(s: Seq<TaskView>)
    ensures
        sort_by_id(s).to_multiset() == s.to_multiset(),
    decreases s.len(),
{
    if s.len() > 0 {
        let r = sort_by_id(s.drop_last());
        lemma_sort_permutes(s.drop_last());
        lemma_insert_pos_bounds(r, s.last().id);
        assert(s.drop_last().push(s.last()) =~= s);
    }
}

/// The tasks of `s` with id `id`, in their order.
pub open spec fn with_id_only(s: Seq<TaskView>, id: u64) -> Seq<TaskView>
    decreases s.len(),
{
    if s.len() == 0 {
        s
    } else if s.last().id == id {
        with_id_only(s.drop_last(), id).push(s.last())
    } else {
        with_id_only(s.drop_last(), id)
    }
}

proof fn lemma_with_id_only_concat(a: Seq<TaskView>, b: Seq<TaskView>, id: u64)
    ensures
        with_id_only(a + b, id) == with_id_only(a, id) + with_id_only(b, id),
    decreases b.len(),
{
    if b.len() == 0 {
        assert(a + b =~= a);
        assert(with_id_only(a, id) + with_id_only(b, id) =~= with_id_only(a, id));
    } else {
        lemma_with_id_only_concat(a, b.drop_last(), id);
        assert((a + b).drop_last() =~= a + b.drop_last());
        assert((a + b).last() == b.last());
        if b.last().id == id {
            assert(with_id_only(a, id) + with_id_only(b.drop_last(), id).push(b.last())
                =~= (with_id_only(a, id) + with_id_only(b.drop_last(), id)).push(b.last()));
        }
    }
}

proof fn lemma_with_id_only_none(s: Seq<TaskView>, id: u64)
    requires
        forall|i: int| 0 <= i < s.len() ==> #[trigger] s[i].id != id,
    ensures
        with_id_only(s, id) == Seq::<TaskView>::empty(),
    decreases s.len(),
{
    if s.len() > 0 {
        assert forall|i: int| 0 <= i < s.drop_last().len() implies #[trigger] s.drop_last()[i].id
            != id by {
            assert(s.drop_last()[i] == s[i]);
        }
        lemma_with_id_only_none(s.drop_last(), id);
        assert(s[s.len() - 1].id != id);
    }
}

/// Sorting keeps tasks with equal ids in their order: it is stable.
pub proof fn lemma_sort_stable(s: Seq<TaskView>, id: u64)
    ensures
        with_id_only(sort_by_id(s), id) == with_id_only(s, id),
    decreases s.len(),
{
    if s.len() > 0 {
        let p = s.drop_last();
        let l = s.last();
        let r = sort_by_id(p);
        lemma_sort_stable(p, id);
        lemma_sort_sorted(p);
        lemma_insert_pos_bounds(r, l.id);
        let k = insert_pos(r, l.id) as int;
        let front = r.subrange(0, k);
        let back = r.subrange(k, r.len() as int);
        assert(r.insert(k, l) =~= front + seq![l] + back);
        assert(r =~= front + back);
        lemma_with_id_only_concat(front + seq![l], back, id);
        lemma_with_id_only_concat(front, seq![l], id);
        lemma_with_id_only_concat(front, back, id);
        let one = seq![l];
        assert(one.drop_last() =~= Seq::<TaskView>::empty());
        assert(one.last() == l);
        assert(with_id_only(one.drop_last(), id) =~= Seq::<TaskView>::empty());
        if l.id == id {
            assert forall|i: int| 0 <= i < back.len() implies #[trigger] back[i].id != id by {
                assert(back[i] == r[k + i]);
                if i > 0 {
                    assert(r[k].id <= r[k + i].id);
                }
            }
            lemma_with_id_only_none(back, id);
            assert(with_id_only(one, id) =~= one);
            assert(with_id_only(front, id) + seq![l] + Seq::<TaskView>::empty()
                =~= (with_id_only(front, id) + Seq::<TaskView>::empty()).push(l));
        } else {
            assert(with_id_only(one, id) =~= Seq::<TaskView>::empty());
            assert(with_id_only(front, id) + Seq::<TaskView>::empty() =~= with_id_only(front, id));
        }
    }
}

/// Orders tasks by id, stably.
pub fn sort_tasks_by_id(tasks: Vec<Task>) -> (r: Vec<Task>)
    ensures
        views(r@) == sort_by_id(views(tasks@)),
{
    let ghost orig = views(tasks@);
    let mut rest = tasks;
    let mut out: Vec<Task> = Vec::new();
    let ghost mut k: int = 0;
    assert(orig.take(0) =~= Seq::<TaskView>::empty());
    assert(views(out@) =~= Seq::<TaskView>::empty());
    assert(views(rest@) =~= orig.skip(0));
    while rest.len() > 0
        invariant
            0 <= k <= orig.len(),
            views(out@) == sort_by_id(orig.take(k)),
            views(rest@) == orig.skip(k),
        decreases rest@.len(),
    {
        let ghost before_rest = rest@;
        let t = rest.remove(0);
        assert(views(before_rest).len() == before_rest.len());
        assert(k < orig.len());
        assert(t@ == orig[k]) by {
            assert(views(before_rest)[0] == before_rest[0]@);
            assert(views(before_rest)[0] == orig.skip(k)[0]);
        }
        let mut p: usize = 0;
        while p < out.len() && out[p].id <= t.id
            invariant
                p <= out@.len(),
                forall|j: int| 0 <= j < p ==> #[trigger] views(out@)[j].id <= t.id,
            decreases out@.len() - p,
        {
            p = p + 1;
        }
        proof {
            lemma_insert_pos_at(views(out@), t.id, p as int);
        }
        let ghost before_out = out@;
        out.insert(p, t);
        proof {
            assert(views(out@) =~= views(before_out).insert(p as int, orig[k]));
            assert(orig.take(k + 1).drop_last() =~= orig.take(k));
            assert(orig.take(k + 1).last() == orig[k]);
            assert(rest@ =~= before_rest.remove(0));
            assert forall|j: int| 0 <= j < rest@.len() implies #[trigger] views(rest@)[j]
                == orig.skip(k + 1)[j] by {
                assert(rest@[j] == before_rest[j + 1]);
                assert(views(before_rest)[j + 1] == orig.skip(k)[j + 1]);
            }
            assert(views(rest@) =~= orig.skip(k + 1));
            k = k + 1;
        }
    }
    assert(orig.take(k) =~= orig);
    out
}

} // verus!
