//! Collection-wide laws: statements that relate several operations, proved
//! once and for all over the mathematical model.

use vstd::prelude::*;

use crate::collection::{
    after_complete, after_create, after_delete, after_edit, complete_one, find_index, find_from,
    has_id, lemma_find_from_props, lemma_max_id_bounds, max_id,
};
use crate::task::TaskView;

verus! {

/// The inputs of one `create` call.
pub struct CreateReq {
    pub title: Seq<char>,
    pub description: Option<Seq<char>>,
    pub class: Option<Seq<char>>,
    pub due_date: Option<Seq<char>>,
}

/// The collection built by applying the given `create` calls, in order, to
/// an empty collection, with no other operation in between.
pub open spec fn build_tasks(reqs: Seq<CreateReq>) -> Seq<TaskView>
    decreases reqs.len(),
{
    if reqs.len() == 0 {
        Seq::<TaskView>::empty()
    } else {
        after_create(
            build_tasks(reqs.drop_last()),
            reqs.last().title,
            reqs.last().description,
            reqs.last().class,
            reqs.last().due_date,
        )
    }
}

proof fn lemma_canonical_max(ts: Seq<TaskView>)
    requires
        ts.len() <= u32::MAX,
        forall|k: int| 0 <= k < ts.len() ==> (#[trigger] ts[k]).id == k + 1,
    ensures
        max_id(ts) == ts.len(),
    decreases ts.len(),
{
    if ts.len() > 0 {
        assert(forall|k: int| 0 <= k < ts.len() - 1 ==> ts.drop_last()[k] == ts[k]);
        lemma_canonical_max(ts.drop_last());
    }
}

/// ID monotonicity: a collection built by N sequential `create` calls with
/// no deletions holds N tasks, and the k-th task (counting from 1) carries
/// ID k; in particular the N-th task carries ID N.
pub proof fn lemma_id_monotonicity(reqs: Seq<CreateReq>)
    requires
        reqs.len() <= u32::MAX,
    ensures
        build_tasks(reqs).len() == reqs.len(),
        forall|k: int| 0 <= k < reqs.len() ==> (#[trigger] build_tasks(reqs)[k]).id == k + 1,
    decreases reqs.len(),
{
    if reqs.len() > 0 {
        lemma_id_monotonicity(reqs.drop_last());
        lemma_canonical_max(build_tasks(reqs.drop_last()));
    }
}

/// Fresh IDs: the task that `create` appends carries an ID different from
/// the ID of every task already present, namely the maximum plus one.
pub proof fn lemma_create_fresh_id(
    ts: Seq<TaskView>,
    title: Seq<char>,
    description: Option<Seq<char>>,
    class: Option<Seq<char>>,
    due_date: Option<Seq<char>>,
)
    requires
        max_id(ts) < u32::MAX,
    ensures
        after_create(ts, title, description, class, due_date).last().id == max_id(ts) + 1,
        forall|j: int| 0 <= j < ts.len()
            ==> after_create(ts, title, description, class, due_date).last().id
                != (#[trigger] ts[j]).id,
{
    lemma_max_id_bounds(ts);
}

/// ID no-reuse after deleting the maximum: delete the task holding the
/// current maximum ID, then create; the new ID follows the
/// maximum-over-all-remaining-tasks policy, so it differs from the ID of
/// every remaining task — and from the deleted ID itself whenever the
/// remaining maximum plus one does not land back on it. (When the IDs are
/// consecutive it does land back: deleting the single task of ID 1 and
/// creating again yields ID 1; such collections are excluded here.)
pub proof fn lemma_no_reuse_after_delete_max(
    ts: Seq<TaskView>,
    title: Seq<char>,
    description: Option<Seq<char>>,
    class: Option<Seq<char>>,
    due_date: Option<Seq<char>>,
)
    requires
        has_id(ts, max_id(ts)),
        max_id(after_delete(ts, max_id(ts))) < u32::MAX,
        max_id(after_delete(ts, max_id(ts))) + 1 != max_id(ts),
    ensures
        ({
            let remaining = after_delete(ts, max_id(ts));
            let created = after_create(remaining, title, description, class, due_date);
            &&& created.last().id == max_id(remaining) + 1
            &&& created.last().id != max_id(ts)
            &&& forall|j: int| 0 <= j < remaining.len()
                ==> created.last().id != (#[trigger] remaining[j]).id
        }),
{
    let remaining = after_delete(ts, max_id(ts));
    lemma_create_fresh_id(remaining, title, description, class, due_date);
}

proof fn lemma_find_same_ids(a: Seq<TaskView>, b: Seq<TaskView>, id: u32, i: int)
    requires
        0 <= i <= a.len(),
        a.len() == b.len(),
        forall|k: int| 0 <= k < a.len() ==> (#[trigger] a[k]).id == b[k].id,
    ensures
        find_from(a, id, i) == find_from(b, id, i),
    decreases a.len() - i,
{
    if i < a.len() && a[i].id != id {
        lemma_find_same_ids(a, b, id, i + 1);
    }
}

/// Idempotent completion: completing the same ID twice leaves the same end
/// state as completing it once.
pub proof fn lemma_complete_idempotent(ts: Seq<TaskView>, id: u32)
    ensures
        after_complete(after_complete(ts, id), id) == after_complete(ts, id),
{
    lemma_find_from_props(ts, id, 0);
    let j = find_index(ts, id);
    if j != -1 {
        let ts1 = ts.update(j, complete_one(ts[j]));
        lemma_find_same_ids(ts, ts1, id, 0);
        assert(complete_one(ts1[j]) == ts1[j]);
        assert(ts1.update(j, ts1[j]) =~= ts1);
    }
}

/// Not-found handling: an `edit`, `complete` or `delete` whose ID is absent
/// from the collection leaves it unchanged.
pub proof fn lemma_not_found_no_change(
    ts: Seq<TaskView>,
    id: u32,
    title: Option<Seq<char>>,
    description: Option<Seq<char>>,
    class: Option<Seq<char>>,
    due_date: Option<Seq<char>>,
)
    requires
        !has_id(ts, id),
    ensures
        after_complete(ts, id) == ts,
        after_edit(ts, id, title, description, class, due_date) == ts,
        after_delete(ts, id) == ts,
{
    lemma_find_from_props(ts, id, 0);
}

/// Partial edit: an edit that supplies only a title changes only the title
/// of the addressed task; its other fields, and every other task, keep
/// their prior values.
pub proof fn lemma_partial_edit(ts: Seq<TaskView>, id: u32, new_title: Seq<char>)
    ensures
        ({
            let r = after_edit(ts, id, Some(new_title), None, None, None);
            let j = find_index(ts, id);
            &&& r.len() == ts.len()
            &&& (j != -1 ==> r[j].title == new_title
                && r[j].description == ts[j].description
                && r[j].class == ts[j].class
                && r[j].due_date == ts[j].due_date
                && r[j].id == ts[j].id
                && r[j].complete == ts[j].complete)
            &&& forall|k: int| 0 <= k < ts.len() && k != j ==> r[k] == ts[k]
        }),
{
    lemma_find_from_props(ts, id, 0);
}

} // verus!
