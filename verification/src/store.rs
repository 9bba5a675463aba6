//! The storage engine: an in-memory store of projects, tasks and daily todos
//! under the relational invariants of the domain (unique identifiers, dense
//! sibling ordering on creation, cascading deletes, weak todo-task links).
use vstd::prelude::*;

use crate::ext::{fresh_id, now_timestamp};
use crate::model::clone_opt_str;
use crate::model::lemma_seq_views_push;
use crate::model::opt_str_eq;
use crate::model::opt_view;
use crate::model::seq_views;
use crate::model::CommandError;
use crate::model::DailyTodo;
use crate::model::DailyTodoView;
use crate::model::DailyTodoWithTask;
use crate::model::DailyTodoWithTaskView;
use crate::model::Project;
use crate::model::ProjectView;
use crate::model::Task;
use crate::model::TaskView;
use vstd::pervasive::VecAdditionalExecFns;
use vstd::string::StringExecFns;

verus! {

broadcast use lemma_seq_views_push, vstd::seq_lib::group_to_multiset_ensures;

/// Mathematical view of the whole store: the three tables, each in creation
/// order.
pub struct DbView {
    pub projects: Seq<ProjectView>,
    pub tasks: Seq<TaskView>,
    pub todos: Seq<DailyTodoView>,
}

pub open spec fn distinct_project_ids(s: Seq<ProjectView>) -> bool {
    forall|i: int, j: int| 0 <= i < j < s.len() ==> s[i].id != s[j].id
}

pub open spec fn distinct_task_ids(s: Seq<TaskView>) -> bool {
    forall|i: int, j: int| 0 <= i < j < s.len() ==> s[i].id != s[j].id
}

pub open spec fn distinct_todo_ids(s: Seq<DailyTodoView>) -> bool {
    forall|i: int, j: int| 0 <= i < j < s.len() ==> s[i].id != s[j].id
}

/// Tasks are stored in creation order, so a task's parent, having existed
/// when the task was created, stands earlier in the table.
pub open spec fn parent_earlier(s: Seq<TaskView>) -> bool {
    forall|i: int|
        0 <= i < s.len() && (#[trigger] s[i].parent_id) is Some ==> exists|j: int|
            0 <= j < i && s[j].id == s[i].parent_id->0
}

/// Well-formedness of the store: identifiers are primary keys, unique within
/// each table, and the task table lists parents before their children.
pub open spec fn db_wf(s: DbView) -> bool {
    &&& distinct_project_ids(s.projects)
    &&& distinct_task_ids(s.tasks)
    &&& distinct_todo_ids(s.todos)
    &&& parent_earlier(s.tasks)
}

pub open spec fn has_project(s: Seq<ProjectView>, id: Seq<char>) -> bool {
    exists|i: int| 0 <= i < s.len() && s[i].id == id
}

pub open spec fn has_task(s: Seq<TaskView>, id: Seq<char>) -> bool {
    exists|i: int| 0 <= i < s.len() && s[i].id == id
}

pub open spec fn has_todo(s: Seq<DailyTodoView>, id: Seq<char>) -> bool {
    exists|i: int| 0 <= i < s.len() && s[i].id == id
}

/// The subsequence of `s` whose elements satisfy `keep`, in order.
pub open spec fn filter_seq<T>(s: Seq<T>, keep: spec_fn(T) -> bool) -> Seq<T>
    decreases s.len(),
{
    if s.len() == 0 {
        Seq::empty()
    } else {
        let p = filter_seq(s.drop_last(), keep);
        if keep(s.last()) {
            p.push(s.last())
        } else {
            p
        }
    }
}

pub proof fn lemma_filter_seq_contains<T>(s: Seq<T>, keep: spec_fn(T) -> bool)
    ensures
        forall|x: T| #[trigger] filter_seq(s, keep).contains(x) ==> s.contains(x) && keep(x),
    decreases s.len(),
{
    if s.len() > 0 {
        lemma_filter_seq_contains(s.drop_last(), keep);
        assert forall|x: T| #[trigger] filter_seq(s, keep).contains(x) implies s.contains(x)
            && keep(x) by {
            let p = filter_seq(s.drop_last(), keep);
            if p.contains(x) {
                assert(s.drop_last().contains(x));
                let j = choose|j: int| 0 <= j < s.drop_last().len() && s.drop_last()[j] == x;
                assert(s[j] == x);
            } else {
                assert(x == s.last());
                assert(s[s.len() - 1] == x);
            }
        }
    }
}

/// Membership of a task in the sibling group keyed by `(project, parent)`;
/// an absent parent is a group key of its own.
pub open spec fn in_group(t: TaskView, project_id: Seq<char>, parent_id: Option<Seq<char>>) -> bool {
    t.project_id == project_id && t.parent_id == parent_id
}

/// The `order_index` values of the sibling group, in creation order.
pub open spec fn group_indexes(
    s: Seq<TaskView>,
    project_id: Seq<char>,
    parent_id: Option<Seq<char>>,
) -> Seq<int>
    decreases s.len(),
{
    if s.len() == 0 {
        Seq::empty()
    } else {
        let p = group_indexes(s.drop_last(), project_id, parent_id);
        if in_group(s.last(), project_id, parent_id) {
            p.push(s.last().order_index)
        } else {
            p
        }
    }
}

/// The maximum of a non-empty sequence of integers.
pub open spec fn seq_max(s: Seq<int>) -> int
    recommends
        s.len() > 0,
    decreases s.len(),
{
    if s.len() <= 1 {
        s[0]
    } else {
        let m = seq_max(s.drop_last());
        if s.last() > m {
            s.last()
        } else {
            m
        }
    }
}

/// The order index a newly created sibling receives: one past the group's
/// maximum, or 0 for an empty group.
pub open spec fn next_order_index(
    s: Seq<TaskView>,
    project_id: Seq<char>,
    parent_id: Option<Seq<char>>,
) -> int {
    let g = group_indexes(s, project_id, parent_id);
    if g.len() == 0 {
        0
    } else {
        seq_max(g) + 1
    }
}

/// The referential condition on a new task's parent: absent, or an existing
/// task.
pub open spec fn parent_ok(s: Seq<TaskView>, parent_id: Option<Seq<char>>) -> bool {
    match parent_id {
        Option::Some(p) => has_task(s, p),
        Option::None => true,
    }
}

/// The record with the mutable task fields overwritten (identifiers and
/// `order_index` are immutable).
pub open spec fn task_updated(
    t: TaskView,
    title: Seq<char>,
    description: Option<Seq<char>>,
    status: Seq<char>,
    priority: int,
    start_date: Option<Seq<char>>,
    end_date: Option<Seq<char>>,
    progress: int,
) -> TaskView {
    TaskView { title, description, status, priority, start_date, end_date, progress, ..t }
}

/// The task table after `update_task(id, ...)`.
pub open spec fn tasks_after_update(
    s: Seq<TaskView>,
    id: Seq<char>,
    title: Seq<char>,
    description: Option<Seq<char>>,
    status: Seq<char>,
    priority: int,
    start_date: Option<Seq<char>>,
    end_date: Option<Seq<char>>,
    progress: int,
) -> Seq<TaskView> {
    Seq::new(
        s.len(),
        |i: int|
            if s[i].id == id {
                task_updated(s[i], title, description, status, priority, start_date, end_date, progress)
            } else {
                s[i]
            },
    )
}

/// The task table after `update_task_dates(id, ...)`: only the two date
/// fields change.
pub open spec fn tasks_after_update_dates(
    s: Seq<TaskView>,
    id: Seq<char>,
    start_date: Option<Seq<char>>,
    end_date: Option<Seq<char>>,
) -> Seq<TaskView> {
    Seq::new(
        s.len(),
        |i: int|
            if s[i].id == id {
                TaskView { start_date, end_date, ..s[i] }
            } else {
                s[i]
            },
    )
}

pub proof fn lemma_filter_seq_distinct_by<T>(
    s: Seq<T>,
    keep: spec_fn(T) -> bool,
    idf: spec_fn(T) -> Seq<char>,
)
    requires
        forall|i: int, j: int| 0 <= i < j < s.len() ==> idf(s[i]) != idf(s[j]),
    ensures
        forall|i: int, j: int|
            0 <= i < j < filter_seq(s, keep).len() ==> idf(filter_seq(s, keep)[i]) != idf(
                filter_seq(s, keep)[j],
            ),
    decreases s.len(),
{
    if s.len() > 0 {
        let p = filter_seq(s.drop_last(), keep);
        lemma_filter_seq_distinct_by(s.drop_last(), keep, idf);
        lemma_filter_seq_contains(s.drop_last(), keep);
        if keep(s.last()) {
            let res = filter_seq(s, keep);
            assert forall|i: int, j: int| 0 <= i < j < res.len() implies idf(res[i]) != idf(
                res[j],
            ) by {
                if j == p.len() {
                    assert(p.contains(p[i]));
                    let w = choose|w: int|
                        0 <= w < s.drop_last().len() && s.drop_last()[w] == p[i];
                    assert(idf(s[w]) != idf(s[s.len() - 1]));
                }
            }
        }
    }
}

/// Tasks sorted by `order_index`, ascending.
pub open spec fn sorted_by_order(s: Seq<TaskView>) -> bool {
    forall|i: int, j: int| 0 <= i < j < s.len() ==> s[i].order_index <= s[j].order_index
}

/// Keeps the tasks of one project.
pub open spec fn project_task_keep(project_id: Seq<char>) -> spec_fn(TaskView) -> bool {
    |t: TaskView| t.project_id == project_id
}

/// Keeps every todo but the one keyed by `id`.
pub open spec fn todo_keep(id: Seq<char>) -> spec_fn(DailyTodoView) -> bool {
    |t: DailyTodoView| t.id != id
}

/// The referential condition on a todo's task link: absent, or an existing
/// task.
pub open spec fn task_ref_ok(s: Seq<TaskView>, task_id: Option<Seq<char>>) -> bool {
    match task_id {
        Option::Some(t) => has_task(s, t),
        Option::None => true,
    }
}

/// The record with `completed` flipped.
pub open spec fn todo_flipped(t: DailyTodoView) -> DailyTodoView {
    DailyTodoView { completed: !t.completed, ..t }
}

/// The todo table after `toggle_todo(id)`.
pub open spec fn todos_after_toggle(s: Seq<DailyTodoView>, id: Seq<char>) -> Seq<DailyTodoView> {
    Seq::new(
        s.len(),
        |i: int|
            if s[i].id == id {
                todo_flipped(s[i])
            } else {
                s[i]
            },
    )
}

/// The todo table after `update_todo_memo(id, memo)`.
pub open spec fn todos_after_memo(
    s: Seq<DailyTodoView>,
    id: Seq<char>,
    memo: Option<Seq<char>>,
) -> Seq<DailyTodoView> {
    Seq::new(
        s.len(),
        |i: int|
            if s[i].id == id {
                DailyTodoView { memo, ..s[i] }
            } else {
                s[i]
            },
    )
}

/// Seed of the cascade of `delete_project`: every task owned by the
/// project.
pub open spec fn project_seed(project_id: Seq<char>) -> spec_fn(TaskView) -> bool {
    |t: TaskView| t.project_id == project_id
}

/// Seed of the cascade of `delete_task`: the task itself.
pub open spec fn task_seed(id: Seq<char>) -> spec_fn(TaskView) -> bool {
    |t: TaskView| t.id == id
}

/// Identifiers of the tasks a cascade removes: every task the seed selects
/// and, walking the table in creation order (parents precede the children
/// created under them), every task whose parent was already doomed.
pub open spec fn doomed_ids(s: Seq<TaskView>, seed: spec_fn(TaskView) -> bool) -> Set<Seq<char>>
    decreases s.len(),
{
    if s.len() == 0 {
        Set::empty()
    } else {
        let prev = doomed_ids(s.drop_last(), seed);
        let t = s.last();
        if seed(t) || (t.parent_id matches Option::Some(p) && prev.contains(p)) {
            prev.insert(t.id)
        } else {
            prev
        }
    }
}

/// Keeps the tasks a cascade spares.
pub open spec fn task_keep(doomed: Set<Seq<char>>) -> spec_fn(TaskView) -> bool {
    |t: TaskView| !doomed.contains(t.id)
}

/// Keeps every project but the one keyed by `id`.
pub open spec fn project_keep(id: Seq<char>) -> spec_fn(ProjectView) -> bool {
    |p: ProjectView| p.id != id
}

/// A todo after a cascade: the task link is severed when the task was
/// removed; the record itself, its title and memo included, survives.
pub open spec fn todo_severed(t: DailyTodoView, doomed: Set<Seq<char>>) -> DailyTodoView {
    if t.task_id matches Option::Some(x) && doomed.contains(x) {
        DailyTodoView { task_id: Option::None, ..t }
    } else {
        t
    }
}

/// The todo table after a cascade.
pub open spec fn todos_severed(s: Seq<DailyTodoView>, doomed: Set<Seq<char>>) -> Seq<
    DailyTodoView,
> {
    Seq::new(s.len(), |i: int| todo_severed(s[i], doomed))
}

/// Membership of a character sequence among the views of a string list.
pub open spec fn in_str_vec(s: Seq<String>, x: Seq<char>) -> bool {
    exists|j: int| 0 <= j < s.len() && s[j]@ == x
}

/// The task keyed by `id`, if any.
pub open spec fn task_by_id(s: Seq<TaskView>, id: Seq<char>) -> Option<TaskView> {
    if has_task(s, id) {
        Option::Some(s[choose|j: int| 0 <= j < s.len() && s[j].id == id])
    } else {
        Option::None
    }
}

/// The name of the project keyed by `id`, if any.
pub open spec fn project_name_by_id(s: Seq<ProjectView>, id: Seq<char>) -> Option<Seq<char>> {
    if has_project(s, id) {
        Option::Some(s[choose|j: int| 0 <= j < s.len() && s[j].id == id].name)
    } else {
        Option::None
    }
}

/// A todo enriched with its linked task's title and that task's project's
/// name; both absent when there is no (surviving) link.
pub open spec fn enriched(s: DbView, t: DailyTodoView) -> DailyTodoWithTaskView {
    let task = match t.task_id {
        Option::Some(tid) => task_by_id(s.tasks, tid),
        Option::None => Option::None,
    };
    DailyTodoWithTaskView {
        id: t.id,
        task_id: t.task_id,
        title: t.title,
        date: t.date,
        completed: t.completed,
        memo: t.memo,
        created_at: t.created_at,
        task_title: match task {
            Option::Some(tk) => Option::Some(tk.title),
            Option::None => Option::None,
        },
        project_name: match task {
            Option::Some(tk) => project_name_by_id(s.projects, tk.project_id),
            Option::None => Option::None,
        },
    }
}

/// The date's todos with the given completion state, enriched, in stored
/// (creation) order.
pub open spec fn enriched_matching(
    s: DbView,
    ts: Seq<DailyTodoView>,
    date: Seq<char>,
    completed: bool,
) -> Seq<DailyTodoWithTaskView>
    decreases ts.len(),
{
    if ts.len() == 0 {
        Seq::empty()
    } else {
        let p = enriched_matching(s, ts.drop_last(), date, completed);
        let t = ts.last();
        if t.date == date && t.completed == completed {
            p.push(enriched(s, t))
        } else {
            p
        }
    }
}

/// What `get_todos_by_date` returns: the date's incomplete todos first,
/// then its completed ones, each group in creation order.
pub open spec fn todos_on_date(s: DbView, date: Seq<char>) -> Seq<DailyTodoWithTaskView> {
    enriched_matching(s, s.todos, date, false) + enriched_matching(s, s.todos, date, true)
}

/// The transition `add_task_to_todo(task_id, date)` performs when it
/// succeeds: one new todo, linked to the task and carrying the task's title
/// as it stood at call time.
pub open spec fn todo_added(
    pre: DbView,
    post: DbView,
    t: DailyTodoView,
    task_id: Seq<char>,
    date: Seq<char>,
) -> bool {
    &&& post.projects == pre.projects
    &&& post.tasks == pre.tasks
    &&& post.todos == pre.todos.push(t)
    &&& !has_todo(pre.todos, t.id)
    &&& t.task_id == Option::Some(task_id)
    &&& t.date == date
    &&& t.completed == false
    &&& t.memo is None
    &&& exists|j: int|
        0 <= j < pre.tasks.len() && pre.tasks[j].id == task_id && t.title == pre.tasks[j].title
}

/// Every task the seed selects is doomed.
pub proof fn lemma_seeded_doomed(s: Seq<TaskView>, seed: spec_fn(TaskView) -> bool)
    ensures
        forall|i: int|
            0 <= i < s.len() && seed(#[trigger] s[i]) ==> doomed_ids(s, seed).contains(s[i].id),
    decreases s.len(),
{
    if s.len() > 0 {
        lemma_seeded_doomed(s.drop_last(), seed);
        let prev = doomed_ids(s.drop_last(), seed);
        let d = doomed_ids(s, seed);
        assert forall|i: int| 0 <= i < s.len() && seed(#[trigger] s[i]) implies d.contains(
            s[i].id,
        ) by {
            if i < s.len() - 1 {
                assert(s.drop_last()[i] == s[i]);
                assert(prev.contains(s[i].id));
            }
        }
    }
}

/// A doomed identifier names a task of the table.
pub proof fn lemma_doomed_in_table(s: Seq<TaskView>, seed: spec_fn(TaskView) -> bool)
    ensures
        forall|x: Seq<char>| #[trigger] doomed_ids(s, seed).contains(x) ==> exists|j: int|
            0 <= j < s.len() && s[j].id == x,
    decreases s.len(),
{
    if s.len() > 0 {
        lemma_doomed_in_table(s.drop_last(), seed);
        assert forall|x: Seq<char>| #[trigger] doomed_ids(s, seed).contains(x) implies exists|
            j: int,
        |
            0 <= j < s.len() && s[j].id == x by {
            if doomed_ids(s.drop_last(), seed).contains(x) {
                let j = choose|j: int| 0 <= j < s.drop_last().len() && s.drop_last()[j].id == x;
                assert(s[j].id == x);
            } else {
                assert(s[s.len() - 1].id == x);
            }
        }
    }
}

/// The doomed set is closed under parenthood: a task whose parent is doomed
/// is doomed itself, so the cascade runs through nested parents.
pub proof fn lemma_doomed_closed(s: Seq<TaskView>, seed: spec_fn(TaskView) -> bool)
    requires
        forall|i: int, j: int| 0 <= i < j < s.len() ==> s[i].id != s[j].id,
        parent_earlier(s),
    ensures
        forall|i: int|
            0 <= i < s.len() && (#[trigger] s[i].parent_id) is Some && doomed_ids(
                s,
                seed,
            ).contains(s[i].parent_id->0) ==> doomed_ids(s, seed).contains(s[i].id),
    decreases s.len(),
{
    if s.len() > 0 {
        let prev = doomed_ids(s.drop_last(), seed);
        let d = doomed_ids(s, seed);
        let last = s.last();
        assert forall|i: int|
            0 <= i < s.drop_last().len() && (#[trigger] s.drop_last()[i].parent_id) is Some implies
            exists|j: int| 0 <= j < i && s.drop_last()[j].id == s.drop_last()[i].parent_id->0 by {
            assert(s[i].parent_id is Some);
            let j = choose|j: int| 0 <= j < i && s[j].id == s[i].parent_id->0;
            assert(s.drop_last()[j].id == s.drop_last()[i].parent_id->0);
        }
        lemma_doomed_closed(s.drop_last(), seed);
        lemma_doomed_in_table(s.drop_last(), seed);
        assert forall|i: int|
            0 <= i < s.len() && (#[trigger] s[i].parent_id) is Some && d.contains(
                s[i].parent_id->0,
            ) implies d.contains(s[i].id) by {
            let p = s[i].parent_id->0;
            if i < s.len() - 1 {
                if prev.contains(p) {
                    assert(s.drop_last()[i] == s[i]);
                    assert(prev.contains(s[i].id));
                } else {
                    // p entered the set at the last step, so p is the last
                    // task's id, which stands at a later position than the
                    // parent's, contradicting the creation order.
                    assert(p == last.id);
                    let j = choose|j: int| 0 <= j < i && s[j].id == p;
                    assert(s[j].id == s[s.len() - 1].id);
                }
            } else {
                if prev.contains(p) {
                    assert(d == prev.insert(last.id));
                } else {
                    assert(p == last.id);
                    let j = choose|j: int| 0 <= j < i && s[j].id == p;
                    assert(s[j].id == s[s.len() - 1].id);
                }
            }
        }
    }
}

/// A kept element of the table appears in the filtered table.
pub proof fn lemma_filter_seq_contains_converse<T>(s: Seq<T>, keep: spec_fn(T) -> bool)
    ensures
        forall|x: T| s.contains(x) && keep(x) ==> #[trigger] filter_seq(s, keep).contains(x),
    decreases s.len(),
{
    if s.len() > 0 {
        lemma_filter_seq_contains_converse(s.drop_last(), keep);
        assert forall|x: T| s.contains(x) && keep(x) implies #[trigger] filter_seq(
            s,
            keep,
        ).contains(x) by {
            let p = filter_seq(s.drop_last(), keep);
            let j = choose|j: int| 0 <= j < s.len() && s[j] == x;
            if j < s.len() - 1 {
                assert(s.drop_last()[j] == x);
                assert(s.drop_last().contains(x));
                assert(p.contains(x));
                let b = choose|b: int| 0 <= b < p.len() && p[b] == x;
                assert(filter_seq(s, keep)[b] == x);
            } else {
                assert(x == s.last());
                assert(filter_seq(s, keep)[p.len() as int] == x);
            }
        }
    }
}

/// Filtering keeps the creation order, so a table that lists parents before
/// their children still does when the removed tasks' children go with them.
proof fn lemma_filter_preserves_parent_earlier(s: Seq<TaskView>, keep: spec_fn(TaskView) -> bool)
    requires
        forall|i: int, j: int| 0 <= i < j < s.len() ==> s[i].id != s[j].id,
        parent_earlier(s),
        forall|i: int, j: int|
            0 <= i < s.len() && 0 <= j < s.len() && (#[trigger] s[i].parent_id) is Some
                && s[i].parent_id->0 == (#[trigger] s[j]).id && !keep(s[j]) ==> !keep(s[i]),
    ensures
        parent_earlier(filter_seq(s, keep)),
    decreases s.len(),
{
    if s.len() > 0 {
        assert forall|i: int|
            0 <= i < s.drop_last().len() && (#[trigger] s.drop_last()[i].parent_id) is Some implies
            exists|j: int| 0 <= j < i && s.drop_last()[j].id == s.drop_last()[i].parent_id->0 by {
            assert(s[i].parent_id is Some);
            let j = choose|j: int| 0 <= j < i && s[j].id == s[i].parent_id->0;
            assert(s.drop_last()[j].id == s.drop_last()[i].parent_id->0);
        }
        assert forall|i: int, j: int|
            0 <= i < s.drop_last().len() && 0 <= j < s.drop_last().len() && (#[trigger] s.drop_last()[
                i
            ].parent_id) is Some && s.drop_last()[i].parent_id->0 == (#[trigger] s.drop_last()[j]).id
            && !keep(s.drop_last()[j]) implies !keep(s.drop_last()[i]) by {
            assert(s[i].parent_id is Some && s[i].parent_id->0 == s[j].id && !keep(s[j]));
        }
        lemma_filter_preserves_parent_earlier(s.drop_last(), keep);
        let fp = filter_seq(s.drop_last(), keep);
        if keep(s.last()) {
            let f = filter_seq(s, keep);
            assert forall|a: int| 0 <= a < f.len() && (#[trigger] f[a].parent_id) is Some implies
                exists|b: int| 0 <= b < a && f[b].id == f[a].parent_id->0 by {
                if a < fp.len() {
                    assert(fp[a].parent_id is Some);
                    let b = choose|b: int| 0 <= b < a && fp[b].id == fp[a].parent_id->0;
                    assert(f[b].id == f[a].parent_id->0);
                } else {
                    let p = s.last().parent_id->0;
                    assert(s[s.len() - 1].parent_id is Some);
                    let j = choose|j: int| 0 <= j < s.len() - 1 && s[j].id == p;
                    if !keep(s[j]) {
                        assert(!keep(s[s.len() - 1]));
                    }
                    lemma_filter_seq_contains_converse(s.drop_last(), keep);
                    assert(s.drop_last()[j] == s[j]);
                    assert(s.drop_last().contains(s[j]));
                    assert(fp.contains(s[j]));
                    let b = choose|b: int| 0 <= b < fp.len() && fp[b] == s[j];
                    assert(f[b].id == p);
                }
            }
        }
    }
}

/// A table whose identifiers and parent links agree with a well-ordered one
/// is well-ordered itself.
proof fn lemma_same_links_parent_earlier(s: Seq<TaskView>, t: Seq<TaskView>)
    requires
        parent_earlier(s),
        s.len() == t.len(),
        forall|i: int|
            0 <= i < s.len() ==> (#[trigger] t[i]).id == s[i].id && t[i].parent_id
                == s[i].parent_id,
    ensures
        parent_earlier(t),
{
    assert forall|i: int| 0 <= i < t.len() && (#[trigger] t[i].parent_id) is Some implies exists|
        j: int,
    | 0 <= j < i && t[j].id == t[i].parent_id->0 by {
        assert(s[i].parent_id is Some);
        let j = choose|j: int| 0 <= j < i && s[j].id == s[i].parent_id->0;
        assert(t[j].id == t[i].parent_id->0);
    }
}

/// The store. All operations serialize through exclusive access to this
/// handle; mutating operations either fully apply or leave it unchanged.
pub struct Database {
    projects: Vec<Project>,
    tasks: Vec<Task>,
    todos: Vec<DailyTodo>,
}

impl View for Database {
    type V = DbView;

    closed spec fn view(&self) -> DbView {
        DbView {
            projects: seq_views(self.projects@),
            tasks: seq_views(self.tasks@),
            todos: seq_views(self.todos@),
        }
    }
}

/// The record with the four mutable project fields overwritten.
pub open spec fn project_updated(
    p: ProjectView,
    name: Seq<char>,
    description: Option<Seq<char>>,
    start_date: Option<Seq<char>>,
    end_date: Option<Seq<char>>,
) -> ProjectView {
    ProjectView { name, description, start_date, end_date, ..p }
}

/// The project table after `update_project(id, ...)`: the record keyed by
/// `id` is overwritten, everything else is untouched.
pub open spec fn projects_after_update(
    s: Seq<ProjectView>,
    id: Seq<char>,
    name: Seq<char>,
    description: Option<Seq<char>>,
    start_date: Option<Seq<char>>,
    end_date: Option<Seq<char>>,
) -> Seq<ProjectView> {
    Seq::new(
        s.len(),
        |i: int|
            if s[i].id == id {
                project_updated(s[i], name, description, start_date, end_date)
            } else {
                s[i]
            },
    )
}

impl Database {
    /// Well-formedness: the invariant every operation preserves.
    pub open spec fn wf(&self) -> bool {
        db_wf(self@)
    }

    /// Creates an empty store: the in-memory analogue of opening a handle
    /// and running the idempotent schema setup.
    pub fn new() -> (r: Database)
        ensures
            r.wf(),
            r@.projects =~= Seq::<ProjectView>::empty(),
            r@.tasks =~= Seq::<TaskView>::empty(),
            r@.todos =~= Seq::<DailyTodoView>::empty(),
    {
        Database { projects: Vec::new(), tasks: Vec::new(), todos: Vec::new() }
    }

    /// Index of the project keyed by `id`, if any.
    fn find_project(&self, id: &String) -> (r: Option<usize>)
        ensures
            match r {
                Option::Some(i) => i < self@.projects.len() && self@.projects[i as int].id == id@,
                Option::None => !has_project(self@.projects, id@),
            },
    {
        let mut i: usize = 0;
        while i < self.projects.len()
            invariant
                i <= self@.projects.len(),
                forall|j: int| 0 <= j < i ==> self@.projects[j].id != id@,
            decreases self@.projects.len() - i,
        {
            if self.projects[i].id == *id {
                return Option::Some(i);
            }
            i += 1;
        }
        Option::None
    }

    /// Index of the task keyed by `id`, if any.
    fn find_task(&self, id: &String) -> (r: Option<usize>)
        ensures
            match r {
                Option::Some(i) => i < self@.tasks.len() && self@.tasks[i as int].id == id@,
                Option::None => !has_task(self@.tasks, id@),
            },
    {
        let mut i: usize = 0;
        while i < self.tasks.len()
            invariant
                i <= self@.tasks.len(),
                forall|j: int| 0 <= j < i ==> self@.tasks[j].id != id@,
            decreases self@.tasks.len() - i,
        {
            if self.tasks[i].id == *id {
                return Option::Some(i);
            }
            i += 1;
        }
        Option::None
    }

    /// Index of the todo keyed by `id`, if any.
    fn find_todo(&self, id: &String) -> (r: Option<usize>)
        ensures
            match r {
                Option::Some(i) => i < self@.todos.len() && self@.todos[i as int].id == id@,
                Option::None => !has_todo(self@.todos, id@),
            },
    {
        let mut i: usize = 0;
        while i < self.todos.len()
            invariant
                i <= self@.todos.len(),
                forall|j: int| 0 <= j < i ==> self@.todos[j].id != id@,
            decreases self@.todos.len() - i,
        {
            if self.todos[i].id == *id {
                return Option::Some(i);
            }
            i += 1;
        }
        Option::None
    }

    /// Inserts a project under a caller-supplied identifier and timestamp;
    /// fails exactly when the identifier is already taken.
    pub fn create_project_with(
        &mut self,
        id: String,
        created_at: String,
        name: String,
        description: Option<String>,
        start_date: Option<String>,
        end_date: Option<String>,
    ) -> (r: Result<Project, CommandError>)
        requires
            old(self).wf(),
        ensures
            final(self).wf(),
            (r is Ok) == !has_project(old(self)@.projects, id@),
            r matches Ok(p) ==> {
                &&& p@ == (ProjectView {
                    id: id@,
                    name: name@,
                    description: opt_view(description),
                    start_date: opt_view(start_date),
                    end_date: opt_view(end_date),
                    created_at: created_at@,
                })
                &&& final(self)@.projects == old(self)@.projects.push(p@)
                &&& final(self)@.tasks == old(self)@.tasks
                &&& final(self)@.todos == old(self)@.todos
            },
            r is Err ==> final(self)@ == old(self)@,
    {
        if let Option::Some(i) = self.find_project(&id) {
            assert(has_project(self@.projects, id@));
            return Result::Err(
                CommandError::new(String::from_str("UNIQUE constraint failed: projects.id")),
            );
        }
        let p = Project { id, name, description, start_date, end_date, created_at };
        let rec = p.clone();
        proof {
            assert forall|i: int, j: int|
                0 <= i < j < self@.projects.push(p@).len() implies self@.projects.push(
                p@,
            )[i].id != self@.projects.push(p@)[j].id by {
                if j == self@.projects.len() {
                    assert(self@.projects[i].id != p@.id);
                }
            }
        }
        self.projects.push(p);
        Result::Ok(rec)
    }

    /// Creates a project: fresh identifier, current timestamp, inserted and
    /// returned in full.
    pub fn create_project(
        &mut self,
        name: String,
        description: Option<String>,
        start_date: Option<String>,
        end_date: Option<String>,
    ) -> (r: Result<Project, CommandError>)
        requires
            old(self).wf(),
        ensures
            final(self).wf(),
            r matches Ok(p) ==> {
                &&& !has_project(old(self)@.projects, p@.id)
                &&& p@.name == name@
                &&& p@.description == opt_view(description)
                &&& p@.start_date == opt_view(start_date)
                &&& p@.end_date == opt_view(end_date)
                &&& final(self)@.projects == old(self)@.projects.push(p@)
                &&& final(self)@.tasks == old(self)@.tasks
                &&& final(self)@.todos == old(self)@.todos
            },
            r is Err ==> final(self)@ == old(self)@,
    {
        let id = fresh_id();
        let created_at = now_timestamp();
        self.create_project_with(id, created_at, name, description, start_date, end_date)
    }

    /// All projects, newest first.
    pub fn get_all_projects(&self) -> (r: Result<Vec<Project>, CommandError>)
        ensures
            r is Ok,
            r matches Ok(v) ==> seq_views(v@) == self@.projects.reverse(),
    {
        let n = self.projects.len();
        let mut out: Vec<Project> = Vec::new();
        let mut i: usize = 0;
        while i < n
            invariant
                i <= n,
                n == self@.projects.len(),
                out@.len() == i,
                forall|j: int| 0 <= j < i ==> seq_views(out@)[j] == self@.projects[n - 1 - j],
            decreases n - i,
        {
            let p = self.projects[n - 1 - i].clone();
            out.push(p);
            i += 1;
        }
        assert(seq_views(out@) =~= self@.projects.reverse());
        Result::Ok(out)
    }

    /// Looks a project up by identifier; absence is not an error.
    pub fn get_project(&self, id: &String) -> (r: Result<Option<Project>, CommandError>)
        ensures
            r is Ok,
            r matches Ok(o) ==> {
                &&& (o is Some) == has_project(self@.projects, id@)
                &&& o matches Some(p) ==> p@.id == id@ && self@.projects.contains(p@)
            },
    {
        match self.find_project(id) {
            Option::Some(i) => {
                let p = self.projects[i].clone();
                assert(self@.projects[i as int] == p@);
                assert(self@.projects.contains(p@));
                Result::Ok(Option::Some(p))
            },
            Option::None => Result::Ok(Option::None),
        }
    }

    /// Overwrites the four mutable fields of the project keyed by `id`; a
    /// no-op (not an error) when no such project exists.
    pub fn update_project(
        &mut self,
        id: &String,
        name: String,
        description: Option<String>,
        start_date: Option<String>,
        end_date: Option<String>,
    ) -> (r: Result<(), CommandError>)
        requires
            old(self).wf(),
        ensures
            final(self).wf(),
            r is Ok,
            final(self)@.projects == projects_after_update(
                old(self)@.projects,
                id@,
                name@,
                opt_view(description),
                opt_view(start_date),
                opt_view(end_date),
            ),
            final(self)@.tasks == old(self)@.tasks,
            final(self)@.todos == old(self)@.todos,
            !has_project(old(self)@.projects, id@) ==> final(self)@ == old(self)@,
    {
        let ghost target = projects_after_update(
            old(self)@.projects,
            id@,
            name@,
            opt_view(description),
            opt_view(start_date),
            opt_view(end_date),
        );
        match self.find_project(id) {
            Option::None => {
                assert(final(self)@.projects =~= target);
                Result::Ok(())
            },
            Option::Some(i) => {
                let cur = &self.projects[i];
                let updated = Project {
                    id: cur.id.clone(),
                    name,
                    description,
                    start_date,
                    end_date,
                    created_at: cur.created_at.clone(),
                };
                self.projects.set(i, updated);
                proof {
                    assert(seq_views(self.projects@) =~= old(self)@.projects.update(
                        i as int,
                        updated@,
                    ));
                    assert forall|j: int|
                        0 <= j < old(self)@.projects.len() && j != i implies old(
                        self,
                    )@.projects[j].id != id@ by {
                        if j < i {
                            assert(old(self)@.projects[j].id != old(self)@.projects[i as int].id);
                        } else {
                            assert(old(self)@.projects[i as int].id != old(self)@.projects[j].id);
                        }
                    }
                    assert(final(self)@.projects =~= target);
                }
                Result::Ok(())
            },
        }
    }

    /// Inserts a task under a caller-supplied identifier and timestamp. The
    /// new task's `order_index` is one past the maximum in its sibling group
    /// (0 for an empty group). Fails exactly when the identifier is taken,
    /// the project does not exist, the parent is named but does not exist, or
    /// the next order index would not fit.
    pub fn create_task_with(
        &mut self,
        id: String,
        created_at: String,
        project_id: String,
        parent_id: Option<String>,
        title: String,
        description: Option<String>,
        status: String,
        priority: i32,
        start_date: Option<String>,
        end_date: Option<String>,
    ) -> (r: Result<Task, CommandError>)
        requires
            old(self).wf(),
        ensures
            final(self).wf(),
            (r is Ok) == (!has_task(old(self)@.tasks, id@) && has_project(
                old(self)@.projects,
                project_id@,
            ) && parent_ok(old(self)@.tasks, opt_view(parent_id)) && next_order_index(
                old(self)@.tasks,
                project_id@,
                opt_view(parent_id),
            ) <= i32::MAX as int),
            r matches Ok(t) ==> {
                &&& t@ == (TaskView {
                    id: id@,
                    project_id: project_id@,
                    parent_id: opt_view(parent_id),
                    title: title@,
                    description: opt_view(description),
                    status: status@,
                    priority: priority as int,
                    start_date: opt_view(start_date),
                    end_date: opt_view(end_date),
                    progress: 0,
                    order_index: next_order_index(
                        old(self)@.tasks,
                        project_id@,
                        opt_view(parent_id),
                    ),
                    created_at: created_at@,
                })
                &&& final(self)@.tasks == old(self)@.tasks.push(t@)
                &&& final(self)@.projects == old(self)@.projects
                &&& final(self)@.todos == old(self)@.todos
            },
            r is Err ==> final(self)@ == old(self)@,
    {
        if let Option::Some(i) = self.find_task(&id) {
            assert(has_task(self@.tasks, id@));
            return Result::Err(
                CommandError::new(String::from_str("UNIQUE constraint failed: tasks.id")),
            );
        }
        match self.find_project(&project_id) {
            Option::None => {
                return Result::Err(
                    CommandError::new(String::from_str("FOREIGN KEY constraint failed: tasks.project_id")),
                );
            },
            Option::Some(i) => {
                assert(has_project(self@.projects, project_id@));
            },
        }
        match &parent_id {
            Option::Some(p) => {
                match self.find_task(p) {
                    Option::None => {
                        return Result::Err(
                            CommandError::new(String::from_str("FOREIGN KEY constraint failed: tasks.parent_id")),
                        );
                    },
                    Option::Some(j) => {
                        assert(has_task(self@.tasks, p@));
                    },
                }
            },
            Option::None => {},
        }
        let ghost tv = self@.tasks;
        let ghost pidv = project_id@;
        let ghost parv = opt_view(parent_id);
        let n = self.tasks.len();
        let mut max_so_far: Option<i32> = Option::None;
        let mut i: usize = 0;
        while i < n
            invariant
                i <= n,
                n == tv.len(),
                tv == self@.tasks,
                match max_so_far {
                    Option::Some(m) => group_indexes(tv.take(i as int), pidv, parv).len() > 0
                        && seq_max(group_indexes(tv.take(i as int), pidv, parv)) == m as int,
                    Option::None => group_indexes(tv.take(i as int), pidv, parv).len() == 0,
                },
            decreases n - i,
        {
            let t = &self.tasks[i];
            let in_g = t.project_id == project_id && opt_str_eq(&t.parent_id, &parent_id);
            proof {
                assert(tv.take(i as int + 1).drop_last() =~= tv.take(i as int));
                assert(tv.take(i as int + 1).last() == tv[i as int]);
                assert(in_g == in_group(tv[i as int], pidv, parv));
            }
            if in_g {
                let ghost g = group_indexes(tv.take(i as int), pidv, parv);
                proof {
                    assert(group_indexes(tv.take(i as int + 1), pidv, parv) == g.push(
                        tv[i as int].order_index,
                    ));
                    assert(g.push(tv[i as int].order_index).drop_last() =~= g);
                }
                match max_so_far {
                    Option::None => {
                        max_so_far = Option::Some(t.order_index);
                    },
                    Option::Some(m) => {
                        if t.order_index > m {
                            max_so_far = Option::Some(t.order_index);
                        }
                    },
                }
            }
            i += 1;
        }
        proof {
            assert(tv.take(n as int) =~= tv);
        }
        let next: i32 = match max_so_far {
            Option::None => 0,
            Option::Some(m) => {
                if m == i32::MAX {
                    return Result::Err(
                        CommandError::new(String::from_str("order_index out of range")),
                    );
                }
                m + 1
            },
        };
        assert(next as int == next_order_index(tv, pidv, parv));
        let t = Task {
            id,
            project_id,
            parent_id,
            title,
            description,
            status,
            priority,
            start_date,
            end_date,
            progress: 0,
            order_index: next,
            created_at,
        };
        let rec = t.clone();
        proof {
            assert forall|a: int, b: int|
                0 <= a < b < self@.tasks.push(t@).len() implies self@.tasks.push(t@)[a].id
                != self@.tasks.push(t@)[b].id by {
                if b == self@.tasks.len() {
                    assert(self@.tasks[a].id != t@.id);
                }
            }
            let pushed = self@.tasks.push(t@);
            assert forall|a: int|
                0 <= a < pushed.len() && (#[trigger] pushed[a].parent_id) is Some implies exists|
                b: int,
            | 0 <= b < a && pushed[b].id == pushed[a].parent_id->0 by {
                if a < self@.tasks.len() {
                    assert(self@.tasks[a].parent_id is Some);
                    let b = choose|b: int|
                        0 <= b < a && self@.tasks[b].id == self@.tasks[a].parent_id->0;
                    assert(pushed[b].id == pushed[a].parent_id->0);
                } else {
                    let pv = t@.parent_id->0;
                    assert(has_task(self@.tasks, pv));
                    let b = choose|b: int|
                        0 <= b < self@.tasks.len() && self@.tasks[b].id == pv;
                    assert(pushed[b].id == pushed[a].parent_id->0);
                }
            }
        }
        self.tasks.push(t);
        Result::Ok(rec)
    }

    /// Creates a task: fresh identifier, current timestamp, order index
    /// computed within its sibling group, progress starting at 0.
    pub fn create_task(
        &mut self,
        project_id: String,
        parent_id: Option<String>,
        title: String,
        description: Option<String>,
        status: String,
        priority: i32,
        start_date: Option<String>,
        end_date: Option<String>,
    ) -> (r: Result<Task, CommandError>)
        requires
            old(self).wf(),
        ensures
            final(self).wf(),
            r matches Ok(t) ==> {
                &&& !has_task(old(self)@.tasks, t@.id)
                &&& t@.project_id == project_id@
                &&& t@.parent_id == opt_view(parent_id)
                &&& t@.title == title@
                &&& t@.description == opt_view(description)
                &&& t@.status == status@
                &&& t@.priority == priority as int
                &&& t@.start_date == opt_view(start_date)
                &&& t@.end_date == opt_view(end_date)
                &&& t@.progress == 0
                &&& t@.order_index == next_order_index(
                    old(self)@.tasks,
                    project_id@,
                    opt_view(parent_id),
                )
                &&& final(self)@.tasks == old(self)@.tasks.push(t@)
                &&& final(self)@.projects == old(self)@.projects
                &&& final(self)@.todos == old(self)@.todos
            },
            !has_project(old(self)@.projects, project_id@) ==> r is Err,
            !parent_ok(old(self)@.tasks, opt_view(parent_id)) ==> r is Err,
            r is Err ==> final(self)@ == old(self)@,
    {
        let id = fresh_id();
        let created_at = now_timestamp();
        self.create_task_with(
            id,
            created_at,
            project_id,
            parent_id,
            title,
            description,
            status,
            priority,
            start_date,
            end_date,
        )
    }

    /// Overwrites the mutable fields of the task keyed by `id`; a no-op when
    /// no such task exists. `order_index` and the identifiers never change.
    pub fn update_task(
        &mut self,
        id: &String,
        title: String,
        description: Option<String>,
        status: String,
        priority: i32,
        start_date: Option<String>,
        end_date: Option<String>,
        progress: i32,
    ) -> (r: Result<(), CommandError>)
        requires
            old(self).wf(),
        ensures
            final(self).wf(),
            r is Ok,
            final(self)@.tasks == tasks_after_update(
                old(self)@.tasks,
                id@,
                title@,
                opt_view(description),
                status@,
                priority as int,
                opt_view(start_date),
                opt_view(end_date),
                progress as int,
            ),
            final(self)@.projects == old(self)@.projects,
            final(self)@.todos == old(self)@.todos,
            !has_task(old(self)@.tasks, id@) ==> final(self)@ == old(self)@,
    {
        let ghost target = tasks_after_update(
            old(self)@.tasks,
            id@,
            title@,
            opt_view(description),
            status@,
            priority as int,
            opt_view(start_date),
            opt_view(end_date),
            progress as int,
        );
        match self.find_task(id) {
            Option::None => {
                assert(final(self)@.tasks =~= target);
                Result::Ok(())
            },
            Option::Some(i) => {
                let cur = &self.tasks[i];
                let updated = Task {
                    id: cur.id.clone(),
                    project_id: cur.project_id.clone(),
                    parent_id: clone_opt_str(&cur.parent_id),
                    title,
                    description,
                    status,
                    priority,
                    start_date,
                    end_date,
                    progress,
                    order_index: cur.order_index,
                    created_at: cur.created_at.clone(),
                };
                self.tasks.set(i, updated);
                proof {
                    assert(seq_views(self.tasks@) =~= old(self)@.tasks.update(i as int, updated@));
                    assert forall|j: int|
                        0 <= j < old(self)@.tasks.len() && j != i implies old(self)@.tasks[j].id
                        != id@ by {
                        if j < i {
                            assert(old(self)@.tasks[j].id != old(self)@.tasks[i as int].id);
                        } else {
                            assert(old(self)@.tasks[i as int].id != old(self)@.tasks[j].id);
                        }
                    }
                    assert(final(self)@.tasks =~= target);
                    lemma_same_links_parent_earlier(old(self)@.tasks, target);
                }
                Result::Ok(())
            },
        }
    }

    /// Overwrites only the two date fields of the task keyed by `id`; a
    /// no-op when no such task exists.
    pub fn update_task_dates(
        &mut self,
        id: &String,
        start_date: Option<String>,
        end_date: Option<String>,
    ) -> (r: Result<(), CommandError>)
        requires
            old(self).wf(),
        ensures
            final(self).wf(),
            r is Ok,
            final(self)@.tasks == tasks_after_update_dates(
                old(self)@.tasks,
                id@,
                opt_view(start_date),
                opt_view(end_date),
            ),
            final(self)@.projects == old(self)@.projects,
            final(self)@.todos == old(self)@.todos,
            !has_task(old(self)@.tasks, id@) ==> final(self)@ == old(self)@,
    {
        let ghost target = tasks_after_update_dates(
            old(self)@.tasks,
            id@,
            opt_view(start_date),
            opt_view(end_date),
        );
        match self.find_task(id) {
            Option::None => {
                assert(final(self)@.tasks =~= target);
                Result::Ok(())
            },
            Option::Some(i) => {
                let cur = &self.tasks[i];
                let updated = Task {
                    id: cur.id.clone(),
                    project_id: cur.project_id.clone(),
                    parent_id: clone_opt_str(&cur.parent_id),
                    title: cur.title.clone(),
                    description: clone_opt_str(&cur.description),
                    status: cur.status.clone(),
                    priority: cur.priority,
                    start_date,
                    end_date,
                    progress: cur.progress,
                    order_index: cur.order_index,
                    created_at: cur.created_at.clone(),
                };
                self.tasks.set(i, updated);
                proof {
                    assert(seq_views(self.tasks@) =~= old(self)@.tasks.update(i as int, updated@));
                    assert forall|j: int|
                        0 <= j < old(self)@.tasks.len() && j != i implies old(self)@.tasks[j].id
                        != id@ by {
                        if j < i {
                            assert(old(self)@.tasks[j].id != old(self)@.tasks[i as int].id);
                        } else {
                            assert(old(self)@.tasks[i as int].id != old(self)@.tasks[j].id);
                        }
                    }
                    assert(final(self)@.tasks =~= target);
                    lemma_same_links_parent_earlier(old(self)@.tasks, target);
                }
                Result::Ok(())
            },
        }
    }

    /// All tasks of a project at every depth, as a flat list ordered by
    /// `order_index` ascending. Tasks with equal indexes (siblings of
    /// different parents) may come in either order, as the store's ordering
    /// leaves ties open.
    pub fn get_tasks_by_project(&self, project_id: &String) -> (r: Result<Vec<Task>, CommandError>)
        ensures
            r is Ok,
            r matches Ok(v) ==> {
                &&& seq_views(v@).to_multiset() == filter_seq(
                    self@.tasks,
                    project_task_keep(project_id@),
                ).to_multiset()
                &&& seq_views(v@).len() == filter_seq(
                    self@.tasks,
                    project_task_keep(project_id@),
                ).len()
                &&& sorted_by_order(seq_views(v@))
            },
    {
        let ghost tv = self@.tasks;
        let ghost keep = project_task_keep(project_id@);
        let n = self.tasks.len();
        let mut out: Vec<Task> = Vec::new();
        let mut i: usize = 0;
        while i < n
            invariant
                i <= n,
                n == tv.len(),
                tv == self@.tasks,
                sorted_by_order(seq_views(out@)),
                seq_views(out@).to_multiset() == filter_seq(tv.take(i as int), keep).to_multiset(),
            decreases n - i,
        {
            proof {
                assert(tv.take(i as int + 1).drop_last() =~= tv.take(i as int));
                assert(tv.take(i as int + 1).last() == tv[i as int]);
            }
            let t = &self.tasks[i];
            if t.project_id == *project_id {
                let rec = t.clone();
                let pos = find_insert_pos(&out, rec.order_index);
                let ghost pre = seq_views(out@);
                proof {
                    pre.insert_ensures(pos as int, rec@);
                }
                out.insert(pos, rec);
                proof {
                    assert(seq_views(out@) =~= pre.insert(pos as int, rec@));
                    vstd::seq_lib::to_multiset_insert(pre, pos as int, rec@);
                    assert forall|a: int, b: int|
                        0 <= a < b < seq_views(out@).len() implies seq_views(
                        out@,
                    )[a].order_index <= seq_views(out@)[b].order_index by {
                        let cur = seq_views(out@);
                        if b < pos {
                        } else if b == pos {
                            assert(cur[a] == pre[a]);
                        } else {
                            if a < pos {
                                assert(cur[a] == pre[a]);
                                assert(cur[b] == pre[b - 1]);
                                assert(pre[b - 1].order_index > rec@.order_index);
                            } else if a == pos {
                                assert(cur[b] == pre[b - 1]);
                                assert(pre[b - 1].order_index > rec@.order_index);
                            } else {
                                assert(cur[a] == pre[a - 1]);
                                assert(cur[b] == pre[b - 1]);
                            }
                        }
                    }
                }
            }
            i += 1;
        }
        proof {
            assert(tv.take(n as int) =~= tv);
            assert(seq_views(out@).len() == seq_views(out@).to_multiset().len());
            assert(filter_seq(tv, keep).len() == filter_seq(tv, keep).to_multiset().len());
        }
        Result::Ok(out)
    }

    /// Inserts a todo under a caller-supplied identifier and timestamp;
    /// fails exactly when the identifier is taken or a named task does not
    /// exist.
    pub fn create_daily_todo_with(
        &mut self,
        id: String,
        created_at: String,
        task_id: Option<String>,
        title: String,
        date: String,
        memo: Option<String>,
    ) -> (r: Result<DailyTodo, CommandError>)
        requires
            old(self).wf(),
        ensures
            final(self).wf(),
            (r is Ok) == (!has_todo(old(self)@.todos, id@) && task_ref_ok(
                old(self)@.tasks,
                opt_view(task_id),
            )),
            r matches Ok(t) ==> {
                &&& t@ == (DailyTodoView {
                    id: id@,
                    task_id: opt_view(task_id),
                    title: title@,
                    date: date@,
                    completed: false,
                    memo: opt_view(memo),
                    created_at: created_at@,
                })
                &&& final(self)@.todos == old(self)@.todos.push(t@)
                &&& final(self)@.projects == old(self)@.projects
                &&& final(self)@.tasks == old(self)@.tasks
            },
            r is Err ==> final(self)@ == old(self)@,
    {
        if let Option::Some(i) = self.find_todo(&id) {
            assert(has_todo(self@.todos, id@));
            return Result::Err(
                CommandError::new(String::from_str("UNIQUE constraint failed: daily_todos.id")),
            );
        }
        match &task_id {
            Option::Some(t) => {
                match self.find_task(t) {
                    Option::None => {
                        return Result::Err(
                            CommandError::new(
                                String::from_str("FOREIGN KEY constraint failed: daily_todos.task_id"),
                            ),
                        );
                    },
                    Option::Some(j) => {
                        assert(has_task(self@.tasks, t@));
                    },
                }
            },
            Option::None => {},
        }
        let t = DailyTodo { id, task_id, title, date, completed: false, memo, created_at };
        let rec = t.clone();
        proof {
            assert forall|a: int, b: int|
                0 <= a < b < self@.todos.push(t@).len() implies self@.todos.push(t@)[a].id
                != self@.todos.push(t@)[b].id by {
                if b == self@.todos.len() {
                    assert(self@.todos[a].id != t@.id);
                }
            }
        }
        self.todos.push(t);
        Result::Ok(rec)
    }

    /// Creates a todo: fresh identifier, current timestamp, not completed.
    pub fn create_daily_todo(
        &mut self,
        task_id: Option<String>,
        title: String,
        date: String,
        memo: Option<String>,
    ) -> (r: Result<DailyTodo, CommandError>)
        requires
            old(self).wf(),
        ensures
            final(self).wf(),
            r matches Ok(t) ==> {
                &&& !has_todo(old(self)@.todos, t@.id)
                &&& t@.task_id == opt_view(task_id)
                &&& t@.title == title@
                &&& t@.date == date@
                &&& t@.completed == false
                &&& t@.memo == opt_view(memo)
                &&& final(self)@.todos == old(self)@.todos.push(t@)
                &&& final(self)@.projects == old(self)@.projects
                &&& final(self)@.tasks == old(self)@.tasks
            },
            !task_ref_ok(old(self)@.tasks, opt_view(task_id)) ==> r is Err,
            r is Err ==> final(self)@ == old(self)@,
    {
        let id = fresh_id();
        let created_at = now_timestamp();
        self.create_daily_todo_with(id, created_at, task_id, title, date, memo)
    }

    /// Flips `completed` on the todo keyed by `id` and returns the new
    /// value; absence of the todo is an error, since the caller needs the
    /// resulting state.
    pub fn toggle_todo(&mut self, id: &String) -> (r: Result<bool, CommandError>)
        requires
            old(self).wf(),
        ensures
            final(self).wf(),
            (r is Ok) == has_todo(old(self)@.todos, id@),
            r is Ok ==> {
                &&& final(self)@.todos == todos_after_toggle(old(self)@.todos, id@)
                &&& final(self)@.projects == old(self)@.projects
                &&& final(self)@.tasks == old(self)@.tasks
            },
            r matches Ok(b) ==> forall|j: int|
                0 <= j < old(self)@.todos.len() && old(self)@.todos[j].id == id@ ==> b == !old(
                    self,
                )@.todos[j].completed,
            r is Err ==> final(self)@ == old(self)@,
    {
        match self.find_todo(id) {
            Option::None => Result::Err(
                CommandError::new(String::from_str("Query returned no rows")),
            ),
            Option::Some(i) => {
                assert(has_todo(self@.todos, id@));
                let cur = &self.todos[i];
                let new_value = !cur.completed;
                let updated = DailyTodo {
                    id: cur.id.clone(),
                    task_id: clone_opt_str(&cur.task_id),
                    title: cur.title.clone(),
                    date: cur.date.clone(),
                    completed: new_value,
                    memo: clone_opt_str(&cur.memo),
                    created_at: cur.created_at.clone(),
                };
                self.todos.set(i, updated);
                proof {
                    assert(seq_views(self.todos@) =~= old(self)@.todos.update(i as int, updated@));
                    assert forall|j: int|
                        0 <= j < old(self)@.todos.len() && j != i implies old(self)@.todos[j].id
                        != id@ by {
                        if j < i {
                            assert(old(self)@.todos[j].id != old(self)@.todos[i as int].id);
                        } else {
                            assert(old(self)@.todos[i as int].id != old(self)@.todos[j].id);
                        }
                    }
                    assert(final(self)@.todos =~= todos_after_toggle(old(self)@.todos, id@));
                }
                Result::Ok(new_value)
            },
        }
    }

    /// Overwrites only the memo of the todo keyed by `id`; a no-op when no
    /// such todo exists.
    pub fn update_todo_memo(&mut self, id: &String, memo: Option<String>) -> (r: Result<
        (),
        CommandError,
    >)
        requires
            old(self).wf(),
        ensures
            final(self).wf(),
            r is Ok,
            final(self)@.todos == todos_after_memo(old(self)@.todos, id@, opt_view(memo)),
            final(self)@.projects == old(self)@.projects,
            final(self)@.tasks == old(self)@.tasks,
            !has_todo(old(self)@.todos, id@) ==> final(self)@ == old(self)@,
    {
        let ghost target = todos_after_memo(old(self)@.todos, id@, opt_view(memo));
        match self.find_todo(id) {
            Option::None => {
                assert(final(self)@.todos =~= target);
                Result::Ok(())
            },
            Option::Some(i) => {
                let cur = &self.todos[i];
                let updated = DailyTodo {
                    id: cur.id.clone(),
                    task_id: clone_opt_str(&cur.task_id),
                    title: cur.title.clone(),
                    date: cur.date.clone(),
                    completed: cur.completed,
                    memo,
                    created_at: cur.created_at.clone(),
                };
                self.todos.set(i, updated);
                proof {
                    assert(seq_views(self.todos@) =~= old(self)@.todos.update(i as int, updated@));
                    assert forall|j: int|
                        0 <= j < old(self)@.todos.len() && j != i implies old(self)@.todos[j].id
                        != id@ by {
                        if j < i {
                            assert(old(self)@.todos[j].id != old(self)@.todos[i as int].id);
                        } else {
                            assert(old(self)@.todos[i as int].id != old(self)@.todos[j].id);
                        }
                    }
                    assert(final(self)@.todos =~= target);
                }
                Result::Ok(())
            },
        }
    }

    /// Removes the todo keyed by `id`; nothing references a todo, so there
    /// is no cascade, and deleting an absent todo is a no-op.
    pub fn delete_todo(&mut self, id: &String) -> (r: Result<(), CommandError>)
        requires
            old(self).wf(),
        ensures
            final(self).wf(),
            r is Ok,
            final(self)@.todos == filter_seq(old(self)@.todos, todo_keep(id@)),
            final(self)@.projects == old(self)@.projects,
            final(self)@.tasks == old(self)@.tasks,
    {
        let ghost tv = self@.todos;
        let ghost keep = todo_keep(id@);
        let n = self.todos.len();
        let mut out: Vec<DailyTodo> = Vec::new();
        let mut i: usize = 0;
        while i < n
            invariant
                i <= n,
                n == tv.len(),
                tv == self@.todos,
                seq_views(out@) == filter_seq(tv.take(i as int), keep),
            decreases n - i,
        {
            proof {
                assert(tv.take(i as int + 1).drop_last() =~= tv.take(i as int));
                assert(tv.take(i as int + 1).last() == tv[i as int]);
            }
            let t = &self.todos[i];
            if !(t.id == *id) {
                out.push(t.clone());
            }
            i += 1;
        }
        proof {
            assert(tv.take(n as int) =~= tv);
            lemma_filter_seq_distinct_by(tv, keep, |t: DailyTodoView| t.id);
        }
        self.todos = out;
        Result::Ok(())
    }

    /// Reads the task's current title, then creates a new todo for `date`
    /// carrying that title and linked to the task; fails when the task does
    /// not exist. Repeated calls create distinct todos.
    pub fn add_task_to_todo(&mut self, task_id: &String, date: String) -> (r: Result<
        DailyTodo,
        CommandError,
    >)
        requires
            old(self).wf(),
        ensures
            final(self).wf(),
            !has_task(old(self)@.tasks, task_id@) ==> r is Err,
            r matches Ok(t) ==> todo_added(old(self)@, final(self)@, t@, task_id@, date@),
            r is Err ==> final(self)@ == old(self)@,
    {
        match self.find_task(task_id) {
            Option::None => Result::Err(
                CommandError::new(String::from_str("Query returned no rows")),
            ),
            Option::Some(i) => {
                let title = self.tasks[i].title.clone();
                let linked = Option::Some(task_id.clone());
                let r = self.create_daily_todo(linked, title, date, Option::None);
                match r {
                    Result::Ok(t) => {
                        assert(old(self)@.tasks[i as int].id == task_id@ && t@.title == old(
                            self,
                        )@.tasks[i as int].title);
                        Result::Ok(t)
                    },
                    Result::Err(e) => Result::Err(e),
                }
            },
        }
    }

    /// A todo enriched with its linked task's title and project name.
    fn enrich(&self, t: &DailyTodo) -> (r: DailyTodoWithTask)
        requires
            self.wf(),
        ensures
            r@ == enriched(self@, t@),
    {
        let mut task_title: Option<String> = Option::None;
        let mut project_name: Option<String> = Option::None;
        match &t.task_id {
            Option::Some(tid) => {
                match self.find_task(tid) {
                    Option::Some(j) => {
                        proof {
                            assert(has_task(self@.tasks, tid@));
                            let w = choose|w: int|
                                0 <= w < self@.tasks.len() && self@.tasks[w].id == tid@;
                            let ji = j as int;
                            if w < ji {
                                assert(self@.tasks[w].id != self@.tasks[ji].id);
                            } else if ji < w {
                                assert(self@.tasks[ji].id != self@.tasks[w].id);
                            }
                            assert(task_by_id(self@.tasks, tid@) == Option::Some(
                                self@.tasks[j as int],
                            ));
                        }
                        let tk = &self.tasks[j];
                        task_title = Option::Some(tk.title.clone());
                        match self.find_project(&tk.project_id) {
                            Option::Some(k) => {
                                proof {
                                    assert(has_project(self@.projects, tk.project_id@));
                                    let w = choose|w: int|
                                        0 <= w < self@.projects.len() && self@.projects[w].id
                                            == tk.project_id@;
                                    let ki = k as int;
                                    if w < ki {
                                        assert(self@.projects[w].id != self@.projects[ki].id);
                                    } else if ki < w {
                                        assert(self@.projects[ki].id != self@.projects[w].id);
                                    }
                                }
                                project_name = Option::Some(self.projects[k].name.clone());
                            },
                            Option::None => {},
                        }
                    },
                    Option::None => {},
                }
            },
            Option::None => {},
        }
        DailyTodoWithTask {
            id: t.id.clone(),
            task_id: clone_opt_str(&t.task_id),
            title: t.title.clone(),
            date: t.date.clone(),
            completed: t.completed,
            memo: clone_opt_str(&t.memo),
            created_at: t.created_at.clone(),
            task_title,
            project_name,
        }
    }

    /// The todos assigned to `date`, enriched with task and project names,
    /// incomplete ones first, each group ordered by creation.
    pub fn get_todos_by_date(&self, date: &String) -> (r: Result<
        Vec<DailyTodoWithTask>,
        CommandError,
    >)
        requires
            self.wf(),
        ensures
            r is Ok,
            r matches Ok(v) ==> seq_views(v@) == todos_on_date(self@, date@),
    {
        let ghost todv = self@.todos;
        let n = self.todos.len();
        let mut out: Vec<DailyTodoWithTask> = Vec::new();
        let mut i: usize = 0;
        while i < n
            invariant
                i <= n,
                n == todv.len(),
                todv == self@.todos,
                self.wf(),
                seq_views(out@) == enriched_matching(self@, todv.take(i as int), date@, false),
            decreases n - i,
        {
            proof {
                assert(todv.take(i as int + 1).drop_last() =~= todv.take(i as int));
                assert(todv.take(i as int + 1).last() == todv[i as int]);
            }
            let t = &self.todos[i];
            if t.date == *date && !t.completed {
                let e = self.enrich(t);
                out.push(e);
            }
            i += 1;
        }
        proof {
            assert(todv.take(n as int) =~= todv);
        }
        let ghost first = enriched_matching(self@, todv, date@, false);
        let mut i2: usize = 0;
        proof {
            assert(seq_views(out@) =~= first + enriched_matching(
                self@,
                todv.take(0),
                date@,
                true,
            ));
        }
        while i2 < n
            invariant
                i2 <= n,
                n == todv.len(),
                todv == self@.todos,
                self.wf(),
                first == enriched_matching(self@, todv, date@, false),
                seq_views(out@) == first + enriched_matching(
                    self@,
                    todv.take(i2 as int),
                    date@,
                    true,
                ),
            decreases n - i2,
        {
            proof {
                assert(todv.take(i2 as int + 1).drop_last() =~= todv.take(i2 as int));
                assert(todv.take(i2 as int + 1).last() == todv[i2 as int]);
            }
            let t = &self.todos[i2];
            if t.date == *date && t.completed {
                let e = self.enrich(t);
                out.push(e);
                proof {
                    assert(first + enriched_matching(self@, todv.take(i2 as int + 1), date@, true)
                        =~= (first + enriched_matching(self@, todv.take(i2 as int), date@, true))
                        .push(enriched(self@, todv[i2 as int])));
                }
            }
            i2 += 1;
        }
        proof {
            assert(todv.take(n as int) =~= todv);
        }
        Result::Ok(out)
    }

    /// Removes the tasks doomed by the given cascade seed and severs the
    /// task links of the todos that pointed at them; projects are left
    /// alone.
    fn cascade_delete(&mut self, id: &String, by_project: bool) -> (dset: Ghost<Set<Seq<char>>>)
        requires
            old(self).wf(),
        ensures
            final(self).wf(),
            dset@ == doomed_ids(
                old(self)@.tasks,
                if by_project {
                    project_seed(id@)
                } else {
                    task_seed(id@)
                },
            ),
            final(self)@.tasks == filter_seq(old(self)@.tasks, task_keep(dset@)),
            final(self)@.todos == todos_severed(old(self)@.todos, dset@),
            final(self)@.projects == old(self)@.projects,
    {
        let ghost tv = self@.tasks;
        let ghost seed = if by_project {
            project_seed(id@)
        } else {
            task_seed(id@)
        };
        let n = self.tasks.len();
        let mut doomed: Vec<String> = Vec::new();
        let mut i: usize = 0;
        while i < n
            invariant
                i <= n,
                n == tv.len(),
                tv == self@.tasks,
                seed == (if by_project {
                    project_seed(id@)
                } else {
                    task_seed(id@)
                }),
                forall|x: Seq<char>|
                    #[trigger] doomed_ids(tv.take(i as int), seed).contains(x) ==> in_str_vec(
                        doomed@,
                        x,
                    ),
                forall|x: Seq<char>| #[trigger] in_str_vec(doomed@, x) ==> doomed_ids(
                    tv.take(i as int),
                    seed,
                ).contains(x),
            decreases n - i,
        {
            proof {
                assert(tv.take(i as int + 1).drop_last() =~= tv.take(i as int));
                assert(tv.take(i as int + 1).last() == tv[i as int]);
            }
            let t = &self.tasks[i];
            let mut is_doomed = if by_project {
                t.project_id == *id
            } else {
                t.id == *id
            };
            if !is_doomed {
                match &t.parent_id {
                    Option::Some(p) => {
                        is_doomed = contains_str(&doomed, p);
                    },
                    Option::None => {},
                }
            }
            proof {
                assert(is_doomed == (seed(tv[i as int]) || (tv[i as int].parent_id matches
                    Option::Some(p) && doomed_ids(tv.take(i as int), seed).contains(p))));
            }
            let ghost pre_list = doomed@;
            if is_doomed {
                doomed.push(t.id.clone());
            }
            proof {
                let pre_ids = doomed_ids(tv.take(i as int), seed);
                let post_ids = doomed_ids(tv.take(i as int + 1), seed);
                if is_doomed {
                    assert(post_ids == pre_ids.insert(tv[i as int].id));
                    assert forall|x: Seq<char>| #[trigger] post_ids.contains(x) implies in_str_vec(
                        doomed@,
                        x,
                    ) by {
                        if x == tv[i as int].id {
                            assert(doomed@[pre_list.len() as int]@ == x);
                        } else {
                            assert(pre_ids.contains(x));
                            let j = choose|j: int| 0 <= j < pre_list.len() && pre_list[j]@ == x;
                            assert(doomed@[j]@ == x);
                        }
                    }
                    assert forall|x: Seq<char>| #[trigger] in_str_vec(doomed@, x) implies
                        post_ids.contains(x) by {
                        let j = choose|j: int| 0 <= j < doomed@.len() && doomed@[j]@ == x;
                        if j == pre_list.len() {
                            assert(x == tv[i as int].id);
                        } else {
                            assert(pre_list[j]@ == x);
                            assert(in_str_vec(pre_list, x));
                        }
                    }
                } else {
                    assert(post_ids == pre_ids);
                }
            }
            i += 1;
        }
        proof {
            assert(tv.take(n as int) =~= tv);
        }
        let ghost dset = doomed_ids(tv, seed);
        let mut kept_tasks: Vec<Task> = Vec::new();
        let mut i2: usize = 0;
        while i2 < n
            invariant
                i2 <= n,
                n == tv.len(),
                tv == self@.tasks,
                forall|x: Seq<char>| #[trigger] dset.contains(x) ==> in_str_vec(doomed@, x),
                forall|x: Seq<char>| #[trigger] in_str_vec(doomed@, x) ==> dset.contains(x),
                seq_views(kept_tasks@) == filter_seq(tv.take(i2 as int), task_keep(dset)),
            decreases n - i2,
        {
            proof {
                assert(tv.take(i2 as int + 1).drop_last() =~= tv.take(i2 as int));
                assert(tv.take(i2 as int + 1).last() == tv[i2 as int]);
            }
            let t = &self.tasks[i2];
            if !contains_str(&doomed, &t.id) {
                kept_tasks.push(t.clone());
            }
            i2 += 1;
        }
        proof {
            assert(tv.take(n as int) =~= tv);
        }
        let ghost todv = self@.todos;
        let m = self.todos.len();
        let mut new_todos: Vec<DailyTodo> = Vec::new();
        let mut k: usize = 0;
        while k < m
            invariant
                k <= m,
                m == todv.len(),
                todv == self@.todos,
                forall|x: Seq<char>| #[trigger] dset.contains(x) ==> in_str_vec(doomed@, x),
                forall|x: Seq<char>| #[trigger] in_str_vec(doomed@, x) ==> dset.contains(x),
                seq_views(new_todos@) == todos_severed(todv, dset).take(k as int),
            decreases m - k,
        {
            let t = &self.todos[k];
            let sever = match &t.task_id {
                Option::Some(x) => contains_str(&doomed, x),
                Option::None => false,
            };
            let nt = if sever {
                DailyTodo {
                    id: t.id.clone(),
                    task_id: Option::None,
                    title: t.title.clone(),
                    date: t.date.clone(),
                    completed: t.completed,
                    memo: clone_opt_str(&t.memo),
                    created_at: t.created_at.clone(),
                }
            } else {
                t.clone()
            };
            proof {
                assert(nt@ == todo_severed(todv[k as int], dset));
                assert(todos_severed(todv, dset).take(k as int + 1) =~= todos_severed(
                    todv,
                    dset,
                ).take(k as int).push(todo_severed(todv[k as int], dset)));
            }
            new_todos.push(nt);
            k += 1;
        }
        proof {
            assert(todos_severed(todv, dset).take(m as int) =~= todos_severed(todv, dset));
            lemma_filter_seq_distinct_by(tv, task_keep(dset), |t: TaskView| t.id);
            lemma_doomed_closed(tv, seed);
            assert forall|a: int, b: int|
                0 <= a < tv.len() && 0 <= b < tv.len() && (#[trigger] tv[a].parent_id) is Some
                    && tv[a].parent_id->0 == (#[trigger] tv[b]).id && !(task_keep(dset)(tv[b]))
                implies !(task_keep(dset)(tv[a])) by {
                assert(dset.contains(tv[a].parent_id->0));
                assert(dset.contains(tv[a].id));
            }
            lemma_filter_preserves_parent_earlier(tv, task_keep(dset));
            assert(distinct_todo_ids(todos_severed(todv, dset))) by {
                assert forall|a: int, b: int|
                    0 <= a < b < todos_severed(todv, dset).len() implies todos_severed(
                    todv,
                    dset,
                )[a].id != todos_severed(todv, dset)[b].id by {
                    assert(todos_severed(todv, dset)[a].id == todv[a].id);
                    assert(todos_severed(todv, dset)[b].id == todv[b].id);
                }
            }
        }
        self.tasks = kept_tasks;
        self.todos = new_todos;
        Ghost(dset)
    }

    /// Deletes the project keyed by `id`; the cascade removes every task
    /// under it (transitively through nested parents) and severs the task
    /// links of todos that pointed at a removed task. Deleting an absent
    /// project is a no-op.
    pub fn delete_project(&mut self, id: &String) -> (r: Result<(), CommandError>)
        requires
            old(self).wf(),
        ensures
            final(self).wf(),
            r is Ok,
            final(self)@.projects == filter_seq(old(self)@.projects, project_keep(id@)),
            final(self)@.tasks == filter_seq(
                old(self)@.tasks,
                task_keep(doomed_ids(old(self)@.tasks, project_seed(id@))),
            ),
            final(self)@.todos == todos_severed(
                old(self)@.todos,
                doomed_ids(old(self)@.tasks, project_seed(id@)),
            ),
    {
        let Ghost(dset) = self.cascade_delete(id, true);
        let ghost pv = self@.projects;
        let n = self.projects.len();
        let mut kept: Vec<Project> = Vec::new();
        let mut i: usize = 0;
        while i < n
            invariant
                i <= n,
                n == pv.len(),
                pv == self@.projects,
                seq_views(kept@) == filter_seq(pv.take(i as int), project_keep(id@)),
            decreases n - i,
        {
            proof {
                assert(pv.take(i as int + 1).drop_last() =~= pv.take(i as int));
                assert(pv.take(i as int + 1).last() == pv[i as int]);
            }
            let p = &self.projects[i];
            if !(p.id == *id) {
                kept.push(p.clone());
            }
            i += 1;
        }
        proof {
            assert(pv.take(n as int) =~= pv);
            lemma_filter_seq_distinct_by(pv, project_keep(id@), |p: ProjectView| p.id);
        }
        self.projects = kept;
        Result::Ok(())
    }

    /// Deletes the task keyed by `id`; the cascade removes its descendant
    /// tasks and severs the task links of todos that pointed at a removed
    /// task. Surviving siblings keep their `order_index` values: gaps are
    /// permitted. Deleting an absent task is a no-op.
    pub fn delete_task(&mut self, id: &String) -> (r: Result<(), CommandError>)
        requires
            old(self).wf(),
        ensures
            final(self).wf(),
            r is Ok,
            final(self)@.projects == old(self)@.projects,
            final(self)@.tasks == filter_seq(
                old(self)@.tasks,
                task_keep(doomed_ids(old(self)@.tasks, task_seed(id@))),
            ),
            final(self)@.todos == todos_severed(
                old(self)@.todos,
                doomed_ids(old(self)@.tasks, task_seed(id@)),
            ),
    {
        let Ghost(dset) = self.cascade_delete(id, false);
        Result::Ok(())
    }
}

/// Membership test on a list of identifiers.
fn contains_str(v: &Vec<String>, s: &String) -> (r: bool)
    ensures
        r == in_str_vec(v@, s@),
{
    let mut i: usize = 0;
    while i < v.len()
        invariant
            i <= v@.len(),
            forall|j: int| 0 <= j < i ==> v@[j]@ != s@,
        decreases v@.len() - i,
    {
        if v[i] == *s {
            assert(v@[i as int]@ == s@);
            return true;
        }
        i += 1;
    }
    false
}

/// Position in a list sorted by `order_index` at which a task carrying `key`
/// is inserted: after every element whose index is not above `key`.
fn find_insert_pos(v: &Vec<Task>, key: i32) -> (p: usize)
    ensures
        p <= v@.len(),
        forall|q: int| 0 <= q < p ==> seq_views(v@)[q].order_index <= key as int,
        p < v@.len() ==> seq_views(v@)[p as int].order_index > key as int,
{
    let mut i: usize = 0;
    while i < v.len()
        invariant
            i <= v@.len(),
            forall|q: int| 0 <= q < i ==> seq_views(v@)[q].order_index <= key as int,
        decreases v@.len() - i,
    {
        if v[i].order_index > key {
            return i;
        }
        i += 1;
    }
    i
}

} // verus!
