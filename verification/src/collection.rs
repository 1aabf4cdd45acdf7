//! The in-memory task collection: an ordered sequence of tasks with
//! create / edit / complete / delete / clear / list operations.
//!
//! The ID-assignment policy is "maximum existing ID plus one, or 1 when the
//! collection is empty", computed over all remaining tasks (never inferred
//! from the last element's position).

use vstd::prelude::*;

use crate::task::{opt_view, tasks_view, Task, TaskView};

verus! {

/// The largest task ID in the collection, or 0 when it is empty.
pub open spec fn max_id(ts: Seq<TaskView>) -> u32
    decreases ts.len(),
{
    if ts.len() == 0 {
        0u32
    } else {
        let m = max_id(ts.drop_last());
        if ts.last().id > m {
            ts.last().id
        } else {
            m
        }
    }
}

/// The index of the first task with the given ID, or -1 when none has it.
pub open spec fn find_from(ts: Seq<TaskView>, id: u32, i: int) -> int
    decreases ts.len() - i when 0 <= i <= ts.len()
{
    if i >= ts.len() {
        -1
    } else if ts[i].id == id {
        i
    } else {
        find_from(ts, id, i + 1)
    }
}

pub open spec fn find_index(ts: Seq<TaskView>, id: u32) -> int {
    find_from(ts, id, 0)
}

pub open spec fn has_id(ts: Seq<TaskView>, id: u32) -> bool {
    exists|j: int| 0 <= j < ts.len() && (#[trigger] ts[j]).id == id
}

/// What `find_from` returns: the first match at or past `i`, or -1.
pub proof fn lemma_find_from_props(ts: Seq<TaskView>, id: u32, i: int)
    requires
        0 <= i <= ts.len(),
    ensures
        find_from(ts, id, i) == -1 ==> forall|j: int| i <= j < ts.len() ==> (#[trigger] ts[j]).id != id,
        find_from(ts, id, i) != -1 ==> i <= find_from(ts, id, i) < ts.len()
            && ts[find_from(ts, id, i)].id == id
            && forall|j: int| i <= j < find_from(ts, id, i) ==> (#[trigger] ts[j]).id != id,
    decreases ts.len() - i,
{
    if i < ts.len() && ts[i].id != id {
        lemma_find_from_props(ts, id, i + 1);
    }
}

/// Every ID in the collection is bounded by `max_id`.
pub proof fn lemma_max_id_bounds(ts: Seq<TaskView>)
    ensures
        forall|j: int| 0 <= j < ts.len() ==> (#[trigger] ts[j]).id <= max_id(ts),
    decreases ts.len(),
{
    if ts.len() > 0 {
        lemma_max_id_bounds(ts.drop_last());
        assert(forall|j: int| 0 <= j < ts.len() - 1 ==> ts[j] == ts.drop_last()[j]);
    }
}

/// The collection after a `create` call.
pub open spec fn after_create(
    ts: Seq<TaskView>,
    title: Seq<char>,
    description: Option<Seq<char>>,
    class: Option<Seq<char>>,
    due_date: Option<Seq<char>>,
) -> Seq<TaskView> {
    ts.push(
        TaskView {
            id: (max_id(ts) + 1) as u32,
            title: title,
            description: description,
            class: class,
            due_date: due_date,
            complete: false,
        },
    )
}

pub open spec fn complete_one(t: TaskView) -> TaskView {
    TaskView { complete: true, ..t }
}

/// The collection after `complete(id)`: the first task with that ID is
/// marked complete; nothing changes when no task has it.
pub open spec fn after_complete(ts: Seq<TaskView>, id: u32) -> Seq<TaskView> {
    let j = find_index(ts, id);
    if j == -1 {
        ts
    } else {
        ts.update(j, complete_one(ts[j]))
    }
}

/// A supplied field replaces the current value; an unsupplied one leaves it.
pub open spec fn upd_field(cur: Option<Seq<char>>, new: Option<Seq<char>>) -> Option<Seq<char>> {
    match new {
        Some(s) => Some(s),
        None => cur,
    }
}

pub open spec fn edit_one(
    t: TaskView,
    title: Option<Seq<char>>,
    description: Option<Seq<char>>,
    class: Option<Seq<char>>,
    due_date: Option<Seq<char>>,
) -> TaskView {
    TaskView {
        id: t.id,
        title: match title {
            Some(s) => s,
            None => t.title,
        },
        description: upd_field(t.description, description),
        class: upd_field(t.class, class),
        due_date: upd_field(t.due_date, due_date),
        complete: t.complete,
    }
}

/// The collection after `edit(id, ...)`: supplied fields of the first task
/// with that ID are overwritten; nothing changes when no task has it.
pub open spec fn after_edit(
    ts: Seq<TaskView>,
    id: u32,
    title: Option<Seq<char>>,
    description: Option<Seq<char>>,
    class: Option<Seq<char>>,
    due_date: Option<Seq<char>>,
) -> Seq<TaskView> {
    let j = find_index(ts, id);
    if j == -1 {
        ts
    } else {
        ts.update(j, edit_one(ts[j], title, description, class, due_date))
    }
}

/// The collection after `delete(id)`: the first task with that ID is removed
/// and the order of the rest is kept; nothing changes when no task has it.
pub open spec fn after_delete(ts: Seq<TaskView>, id: u32) -> Seq<TaskView> {
    let j = find_index(ts, id);
    if j == -1 {
        ts
    } else {
        ts.remove(j)
    }
}

/// Which tasks a listing shows: all of them, or those whose completion flag
/// matches the requested one (`list_complete == false` asks for incomplete).
pub open spec fn keep_task(t: TaskView, list_all: bool, list_complete: bool) -> bool {
    list_all || t.complete == list_complete
}

fn clone_opt(o: &Option<String>) -> (r: Option<String>)
    ensures
        opt_view(r) == opt_view(*o),
{
    match o {
        Some(s) => Some(s.clone()),
        None => None,
    }
}

fn clone_task(t: &Task) -> (r: Task)
    ensures
        r@ == t@,
{
    Task {
        id: t.id,
        title: t.title.clone(),
        description: clone_opt(&t.description),
        class: clone_opt(&t.class),
        due_date: clone_opt(&t.due_date),
        complete: t.complete,
    }
}

/// The largest task ID present, or 0 for an empty collection.
pub fn max_task_id(task_list: &Vec<Task>) -> (m: u32)
    ensures
        m == max_id(tasks_view(task_list@)),
{
    let ghost ts = tasks_view(task_list@);
    let mut m: u32 = 0;
    let mut i: usize = 0;
    while i < task_list.len()
        invariant
            ts == tasks_view(task_list@),
            0 <= i <= task_list.len(),
            ts.len() == task_list.len(),
            m == max_id(ts.subrange(0, i as int)),
        decreases task_list.len() - i,
    {
        proof {
            assert(ts.subrange(0, i + 1).drop_last() =~= ts.subrange(0, i as int));
            assert(ts.subrange(0, i + 1).last() == ts[i as int]);
        }
        if task_list[i].id > m {
            m = task_list[i].id;
        }
        i += 1;
    }
    proof {
        assert(ts.subrange(0, ts.len() as int) =~= ts);
    }
    m
}

/// Appends a fresh task: ID = maximum existing ID + 1 (1 for an empty
/// collection), fields as supplied, `complete == false`. Returns a copy of
/// the task it appended.
pub fn new_task(
    task_list: &mut Vec<Task>,
    title: &str,
    description: &Option<String>,
    class: &Option<String>,
    due_date: &Option<String>,
) -> (t: Task)
    requires
        max_id(tasks_view(old(task_list)@)) < u32::MAX,
    ensures
        tasks_view(final(task_list)@) == after_create(
            tasks_view(old(task_list)@),
            title@,
            opt_view(*description),
            opt_view(*class),
            opt_view(*due_date),
        ),
        t@ == tasks_view(final(task_list)@).last(),
{
    let ghost ts = tasks_view(old(task_list)@);
    let m = max_task_id(task_list);
    let task_id = m + 1;
    let pushed = Task {
        id: task_id,
        title: title.to_owned(),
        description: clone_opt(description),
        class: clone_opt(class),
        due_date: clone_opt(due_date),
        complete: false,
    };
    let returned = Task {
        id: task_id,
        title: title.to_owned(),
        description: clone_opt(description),
        class: clone_opt(class),
        due_date: clone_opt(due_date),
        complete: false,
    };
    task_list.push(pushed);
    proof {
        assert(tasks_view(task_list@) =~= after_create(
            ts,
            title@,
            opt_view(*description),
            opt_view(*class),
            opt_view(*due_date),
        ));
    }
    returned
}

/// Marks the first task with the given ID complete. Returns whether a task
/// with that ID was found; when none was, the collection is unchanged.
pub fn mark_task_complete(task_list: &mut Vec<Task>, id: u32) -> (found: bool)
    ensures
        tasks_view(final(task_list)@) == after_complete(tasks_view(old(task_list)@), id),
        found <==> has_id(tasks_view(old(task_list)@), id),
{
    let ghost ts = tasks_view(old(task_list)@);
    proof {
        lemma_find_from_props(ts, id, 0);
    }
    let mut i: usize = 0;
    while i < task_list.len()
        invariant
            ts == tasks_view(old(task_list)@),
            task_list@ == old(task_list)@,
            0 <= i <= task_list.len(),
            ts.len() == task_list.len(),
            find_index(ts, id) == find_from(ts, id, i as int),
            forall|k: int| 0 <= k < i ==> (#[trigger] ts[k]).id != id,
        decreases task_list.len() - i,
    {
        if task_list[i].id == id {
            task_list[i].complete = true;
            proof {
                assert(tasks_view(task_list@) =~= after_complete(ts, id));
            }
            return true;
        }
        i += 1;
    }
    proof {
        assert(find_index(ts, id) == -1);
    }
    false
}

/// Overwrites the supplied fields of the first task with the given ID;
/// unsupplied fields keep their prior values. Returns whether a task with
/// that ID was found; when none was, the collection is unchanged.
pub fn edit_task(
    task_list: &mut Vec<Task>,
    id: u32,
    title: &Option<String>,
    description: &Option<String>,
    class: &Option<String>,
    due_date: &Option<String>,
) -> (found: bool)
    ensures
        tasks_view(final(task_list)@) == after_edit(
            tasks_view(old(task_list)@),
            id,
            opt_view(*title),
            opt_view(*description),
            opt_view(*class),
            opt_view(*due_date),
        ),
        found <==> has_id(tasks_view(old(task_list)@), id),
{
    let ghost ts = tasks_view(old(task_list)@);
    proof {
        lemma_find_from_props(ts, id, 0);
    }
    let mut i: usize = 0;
    while i < task_list.len()
        invariant
            ts == tasks_view(old(task_list)@),
            task_list@ == old(task_list)@,
            0 <= i <= task_list.len(),
            ts.len() == task_list.len(),
            find_index(ts, id) == find_from(ts, id, i as int),
            forall|k: int| 0 <= k < i ==> (#[trigger] ts[k]).id != id,
        decreases task_list.len() - i,
    {
        if task_list[i].id == id {
            let cur = &task_list[i];
            let edited = Task {
                id: cur.id,
                title: match title {
                    Some(s) => s.clone(),
                    None => cur.title.clone(),
                },
                description: match description {
                    Some(s) => Some(s.clone()),
                    None => clone_opt(&cur.description),
                },
                class: match class {
                    Some(s) => Some(s.clone()),
                    None => clone_opt(&cur.class),
                },
                due_date: match due_date {
                    Some(s) => Some(s.clone()),
                    None => clone_opt(&cur.due_date),
                },
                complete: cur.complete,
            };
            task_list[i] = edited;
            proof {
                assert(tasks_view(task_list@) =~= after_edit(
                    ts,
                    id,
                    opt_view(*title),
                    opt_view(*description),
                    opt_view(*class),
                    opt_view(*due_date),
                ));
            }
            return true;
        }
        i += 1;
    }
    proof {
        assert(find_index(ts, id) == -1);
    }
    false
}

/// Removes the first task with the given ID, keeping the order of the rest.
/// Returns whether a task with that ID was found; when none was, the
/// collection is unchanged.
pub fn delete_task(task_list: &mut Vec<Task>, id: u32) -> (found: bool)
    ensures
        tasks_view(final(task_list)@) == after_delete(tasks_view(old(task_list)@), id),
        found <==> has_id(tasks_view(old(task_list)@), id),
{
    let ghost ts = tasks_view(old(task_list)@);
    proof {
        lemma_find_from_props(ts, id, 0);
    }
    let mut i: usize = 0;
    while i < task_list.len()
        invariant
            ts == tasks_view(old(task_list)@),
            task_list@ == old(task_list)@,
            0 <= i <= task_list.len(),
            ts.len() == task_list.len(),
            find_index(ts, id) == find_from(ts, id, i as int),
            forall|k: int| 0 <= k < i ==> (#[trigger] ts[k]).id != id,
        decreases task_list.len() - i,
    {
        if task_list[i].id == id {
            task_list.remove(i);
            proof {
                assert(tasks_view(task_list@) =~= after_delete(ts, id));
            }
            return true;
        }
        i += 1;
    }
    proof {
        assert(find_index(ts, id) == -1);
    }
    false
}

/// Discards every task, leaving an empty collection.
pub fn clear_tasks(task_list: &mut Vec<Task>)
    ensures
        tasks_view(final(task_list)@) == Seq::<TaskView>::empty(),
{
    task_list.clear();
    proof {
        assert(tasks_view(task_list@) =~= Seq::<TaskView>::empty());
    }
}

/// An order-preserving filtered copy of the collection: every task when
/// `list_all`, otherwise the tasks whose completion flag equals
/// `list_complete`.
pub fn list_tasks(task_list: &Vec<Task>, list_all: bool, list_complete: bool) -> (r: Vec<Task>)
    ensures
        tasks_view(r@) == tasks_view(task_list@).filter(
            |t: TaskView| keep_task(t, list_all, list_complete),
        ),
{
    let ghost ts = tasks_view(task_list@);
    let ghost pred = |t: TaskView| keep_task(t, list_all, list_complete);
    let mut r: Vec<Task> = Vec::new();
    let mut i: usize = 0;
    proof {
        reveal(Seq::filter);
        assert(tasks_view(r@) =~= ts.subrange(0, 0).filter(pred));
    }
    while i < task_list.len()
        invariant
            ts == tasks_view(task_list@),
            0 <= i <= task_list.len(),
            ts.len() == task_list.len(),
            tasks_view(r@) == ts.subrange(0, i as int).filter(pred),
            pred == (|t: TaskView| keep_task(t, list_all, list_complete)),
        decreases task_list.len() - i,
    {
        proof {
            reveal(Seq::filter);
            assert(ts.subrange(0, i + 1).drop_last() =~= ts.subrange(0, i as int));
            assert(ts.subrange(0, i + 1).last() == ts[i as int]);
        }
        let keep = list_all || task_list[i].complete == list_complete;
        if keep {
            let copy = clone_task(&task_list[i]);
            r.push(copy);
            proof {
                assert(tasks_view(r@) =~= ts.subrange(0, i + 1).filter(pred));
            }
        } else {
            proof {
                assert(tasks_view(r@) =~= ts.subrange(0, i + 1).filter(pred));
            }
        }
        i += 1;
    }
    proof {
        assert(ts.subrange(0, ts.len() as int) =~= ts);
    }
    r
}

} // verus!
