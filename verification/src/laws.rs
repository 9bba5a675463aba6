//! Proved laws relating the storage operations: dense sibling numbering,
//! cascade completeness, toggle involution, and distinctness of repeated
//! task-to-todo additions.
use vstd::prelude::*;

use crate::model::DailyTodoView;
use crate::model::TaskView;
use crate::store::db_wf;
use crate::store::doomed_ids;
use crate::store::filter_seq;
use crate::store::group_indexes;
use crate::store::has_todo;
use crate::store::in_group;
use crate::store::lemma_doomed_closed;
use crate::store::lemma_filter_seq_contains;
use crate::store::lemma_seeded_doomed;
use crate::store::next_order_index;
use crate::store::project_seed;
use crate::store::seq_max;
use crate::store::task_keep;
use crate::store::todo_added;
use crate::store::todo_flipped;
use crate::store::todos_after_toggle;
use crate::store::todos_severed;
use crate::store::DbView;

verus! {

/// Dense sibling ordering: the group's order indexes are exactly
/// 0, 1, 2, ... in creation order.
pub open spec fn dense(g: Seq<int>) -> bool {
    forall|k: int| 0 <= k < g.len() ==> g[k] == k
}

proof fn lemma_seq_max_dense(g: Seq<int>)
    requires
        dense(g),
        g.len() > 0,
    ensures
        seq_max(g) == g.len() - 1,
    decreases g.len(),
{
    if g.len() > 1 {
        assert forall|k: int| 0 <= k < g.drop_last().len() implies g.drop_last()[k] == k by {
            assert(g[k] == k);
        }
        lemma_seq_max_dense(g.drop_last());
    }
}

/// Creating a task in a sibling group whose order indexes are dense keeps
/// them dense and hands the new task the next index in line: repeated
/// creations under one `(project, parent)` pair number the group
/// 0, 1, 2, ... in call order.
pub proof fn lemma_sibling_order_dense(
    s: Seq<TaskView>,
    t: TaskView,
    project_id: Seq<char>,
    parent_id: Option<Seq<char>>,
)
    requires
        dense(group_indexes(s, project_id, parent_id)),
        in_group(t, project_id, parent_id),
        t.order_index == next_order_index(s, project_id, parent_id),
    ensures
        group_indexes(s.push(t), project_id, parent_id) == group_indexes(
            s,
            project_id,
            parent_id,
        ).push(t.order_index),
        dense(group_indexes(s.push(t), project_id, parent_id)),
        t.order_index == group_indexes(s, project_id, parent_id).len(),
{
    let g = group_indexes(s, project_id, parent_id);
    assert(s.push(t).drop_last() =~= s);
    if g.len() > 0 {
        lemma_seq_max_dense(g);
    }
    assert forall|k: int| 0 <= k < g.push(t.order_index).len() implies g.push(t.order_index)[k]
        == k by {
        if k < g.len() {
            assert(g[k] == k);
        }
    }
}

/// Creating a task under a different `(project, parent)` pair leaves a
/// group's order indexes untouched: interleaved creations in other groups
/// cannot disturb the numbering.
pub proof fn lemma_other_group_untouched(
    s: Seq<TaskView>,
    t: TaskView,
    project_id: Seq<char>,
    parent_id: Option<Seq<char>>,
)
    requires
        !in_group(t, project_id, parent_id),
    ensures
        group_indexes(s.push(t), project_id, parent_id) == group_indexes(
            s,
            project_id,
            parent_id,
        ),
{
    assert(s.push(t).drop_last() =~= s);
}

/// Toggling the same todo twice restores the table exactly: `toggle_todo`
/// is an involution.
pub proof fn lemma_toggle_involution(s: Seq<DailyTodoView>, id: Seq<char>)
    ensures
        todos_after_toggle(todos_after_toggle(s, id), id) == s,
{
    let s1 = todos_after_toggle(s, id);
    let s2 = todos_after_toggle(s1, id);
    assert forall|i: int| 0 <= i < s.len() implies s2[i] == s[i] by {
        if s[i].id == id {
            assert(s1[i] == todo_flipped(s[i]));
            assert(s2[i] == todo_flipped(s1[i]));
        }
    }
    assert(s2 =~= s);
}

/// Two successful `add_task_to_todo` calls with the same task and date
/// create two distinct todo records, each carrying the task's title as it
/// stood at its own call time (here: the same title, since the first call
/// leaves the task table untouched).
pub proof fn lemma_add_task_twice(
    s0: DbView,
    s1: DbView,
    s2: DbView,
    t1: DailyTodoView,
    t2: DailyTodoView,
    task_id: Seq<char>,
    date: Seq<char>,
)
    requires
        db_wf(s0),
        todo_added(s0, s1, t1, task_id, date),
        todo_added(s1, s2, t2, task_id, date),
    ensures
        t1.id != t2.id,
        t1.title == t2.title,
{
    assert(s1.todos[s1.todos.len() - 1] == t1);
    if t1.id == t2.id {
        assert(has_todo(s1.todos, t2.id));
    }
    let j1 = choose|j: int|
        0 <= j < s0.tasks.len() && s0.tasks[j].id == task_id && t1.title == s0.tasks[j].title;
    let j2 = choose|j: int|
        0 <= j < s1.tasks.len() && s1.tasks[j].id == task_id && t2.title == s1.tasks[j].title;
    assert(s1.tasks == s0.tasks);
    if j1 < j2 {
        assert(s0.tasks[j1].id != s0.tasks[j2].id);
    } else if j2 < j1 {
        assert(s0.tasks[j2].id != s0.tasks[j1].id);
    }
}

/// Deleting a project removes every task under it, transitively through
/// nested parents, while every todo row survives with its identifier,
/// title and memo intact; a todo's task link is severed exactly when its
/// task was removed.
pub proof fn lemma_delete_project_cascade(s: DbView, project_id: Seq<char>)
    requires
        db_wf(s),
    ensures
        ({
            let d = doomed_ids(s.tasks, project_seed(project_id));
            let remaining = filter_seq(s.tasks, task_keep(d));
            let survivors = todos_severed(s.todos, d);
            &&& forall|i: int|
                0 <= i < remaining.len() ==> (#[trigger] remaining[i]).project_id != project_id
            &&& forall|i: int|
                0 <= i < remaining.len() && (#[trigger] remaining[i]).parent_id is Some
                    ==> !d.contains(remaining[i].parent_id->0)
            &&& survivors.len() == s.todos.len()
            &&& forall|i: int|
                0 <= i < s.todos.len() ==> (#[trigger] survivors[i]).id == s.todos[i].id
                    && survivors[i].title == s.todos[i].title && survivors[i].memo
                    == s.todos[i].memo && survivors[i].date == s.todos[i].date
                    && survivors[i].completed == s.todos[i].completed
            &&& forall|i: int|
                0 <= i < s.todos.len() && (#[trigger] s.todos[i].task_id) is Some && d.contains(
                    s.todos[i].task_id->0,
                ) ==> survivors[i].task_id is None
            &&& forall|i: int|
                0 <= i < s.todos.len() && (#[trigger] s.todos[i].task_id) is Some && !d.contains(
                    s.todos[i].task_id->0,
                ) ==> survivors[i].task_id == s.todos[i].task_id
        }),
{
    let seed = project_seed(project_id);
    let d = doomed_ids(s.tasks, seed);
    let remaining = filter_seq(s.tasks, task_keep(d));
    lemma_seeded_doomed(s.tasks, seed);
    lemma_doomed_closed(s.tasks, seed);
    lemma_filter_seq_contains(s.tasks, task_keep(d));
    assert forall|i: int| 0 <= i < remaining.len() implies (#[trigger] remaining[i]).project_id
        != project_id by {
        assert(remaining.contains(remaining[i]));
        let j = choose|j: int| 0 <= j < s.tasks.len() && s.tasks[j] == remaining[i];
        if s.tasks[j].project_id == project_id {
            assert(d.contains(s.tasks[j].id));
        }
    }
    assert forall|i: int|
        0 <= i < remaining.len() && (#[trigger] remaining[i]).parent_id is Some implies
        !d.contains(remaining[i].parent_id->0) by {
        assert(remaining.contains(remaining[i]));
        let j = choose|j: int| 0 <= j < s.tasks.len() && s.tasks[j] == remaining[i];
        if d.contains(s.tasks[j].parent_id->0) {
            assert(d.contains(s.tasks[j].id));
        }
    }
}

} // verus!
