//! Entity records held by the storage engine, their mathematical views, and
//! small helpers shared by the operations.
use vstd::prelude::*;

verus! {

/// A project: the root grouping for tasks.
#[derive(Debug, PartialEq)]
pub struct Project {
    pub id: String,
    pub name: String,
    pub description: Option<String>,
    pub start_date: Option<String>,
    pub end_date: Option<String>,
    pub created_at: String,
}

/// A task inside a project; `parent_id` links it under another task of the
/// same store, and `order_index` orders it among its siblings.
#[derive(Debug, PartialEq)]
pub struct Task {
    pub id: String,
    pub project_id: String,
    pub parent_id: Option<String>,
    pub title: String,
    pub description: Option<String>,
    pub status: String,
    pub priority: i32,
    pub start_date: Option<String>,
    pub end_date: Option<String>,
    pub progress: i32,
    pub order_index: i32,
    pub created_at: String,
}

/// A daily todo entry; `task_id` is a weak reference that is severed (set to
/// `None`) when the referenced task is deleted.
#[derive(Debug, PartialEq)]
pub struct DailyTodo {
    pub id: String,
    pub task_id: Option<String>,
    pub title: String,
    pub date: String,
    pub completed: bool,
    pub memo: Option<String>,
    pub created_at: String,
}

/// A daily todo enriched with the linked task's title and that task's
/// project's name; a query-time projection, never stored.
#[derive(Debug, PartialEq)]
pub struct DailyTodoWithTask {
    pub id: String,
    pub task_id: Option<String>,
    pub title: String,
    pub date: String,
    pub completed: bool,
    pub memo: Option<String>,
    pub created_at: String,
    pub task_title: Option<String>,
    pub project_name: Option<String>,
}

/// The single error type of the storage engine.
#[derive(Debug, PartialEq)]
pub struct CommandError {
    pub message: String,
}

/// Mathematical view of a `Project`.
pub struct ProjectView {
    pub id: Seq<char>,
    pub name: Seq<char>,
    pub description: Option<Seq<char>>,
    pub start_date: Option<Seq<char>>,
    pub end_date: Option<Seq<char>>,
    pub created_at: Seq<char>,
}

/// Mathematical view of a `Task`.
pub struct TaskView {
    pub id: Seq<char>,
    pub project_id: Seq<char>,
    pub parent_id: Option<Seq<char>>,
    pub title: Seq<char>,
    pub description: Option<Seq<char>>,
    pub status: Seq<char>,
    pub priority: int,
    pub start_date: Option<Seq<char>>,
    pub end_date: Option<Seq<char>>,
    pub progress: int,
    pub order_index: int,
    pub created_at: Seq<char>,
}

/// Mathematical view of a `DailyTodo`.
pub struct DailyTodoView {
    pub id: Seq<char>,
    pub task_id: Option<Seq<char>>,
    pub title: Seq<char>,
    pub date: Seq<char>,
    pub completed: bool,
    pub memo: Option<Seq<char>>,
    pub created_at: Seq<char>,
}

/// Mathematical view of a `DailyTodoWithTask`.
pub struct DailyTodoWithTaskView {
    pub id: Seq<char>,
    pub task_id: Option<Seq<char>>,
    pub title: Seq<char>,
    pub date: Seq<char>,
    pub completed: bool,
    pub memo: Option<Seq<char>>,
    pub created_at: Seq<char>,
    pub task_title: Option<Seq<char>>,
    pub project_name: Option<Seq<char>>,
}

/// View of an optional string as an optional character sequence.
pub open spec fn opt_view(o: Option<String>) -> Option<Seq<char>> {
    match o {
        Option::Some(s) => Option::Some(s@),
        Option::None => Option::None,
    }
}

impl View for Project {
    type V = ProjectView;

    open spec fn view(&self) -> ProjectView {
        ProjectView {
            id: self.id@,
            name: self.name@,
            description: opt_view(self.description),
            start_date: opt_view(self.start_date),
            end_date: opt_view(self.end_date),
            created_at: self.created_at@,
        }
    }
}

impl View for Task {
    type V = TaskView;

    open spec fn view(&self) -> TaskView {
        TaskView {
            id: self.id@,
            project_id: self.project_id@,
            parent_id: opt_view(self.parent_id),
            title: self.title@,
            description: opt_view(self.description),
            status: self.status@,
            priority: self.priority as int,
            start_date: opt_view(self.start_date),
            end_date: opt_view(self.end_date),
            progress: self.progress as int,
            order_index: self.order_index as int,
            created_at: self.created_at@,
        }
    }
}

impl View for DailyTodo {
    type V = DailyTodoView;

    open spec fn view(&self) -> DailyTodoView {
        DailyTodoView {
            id: self.id@,
            task_id: opt_view(self.task_id),
            title: self.title@,
            date: self.date@,
            completed: self.completed,
            memo: opt_view(self.memo),
            created_at: self.created_at@,
        }
    }
}

impl View for DailyTodoWithTask {
    type V = DailyTodoWithTaskView;

    open spec fn view(&self) -> DailyTodoWithTaskView {
        DailyTodoWithTaskView {
            id: self.id@,
            task_id: opt_view(self.task_id),
            title: self.title@,
            date: self.date@,
            completed: self.completed,
            memo: opt_view(self.memo),
            created_at: self.created_at@,
            task_title: opt_view(self.task_title),
            project_name: opt_view(self.project_name),
        }
    }
}

/// The views of a sequence of records, element by element.
pub open spec fn seq_views<T: View>(s: Seq<T>) -> Seq<T::V> {
    Seq::new(s.len(), |i: int| s[i]@)
}

pub broadcast proof fn lemma_seq_views_push<T: View>(s: Seq<T>, x: T)
    ensures
        (#[trigger] seq_views(s.push(x))) == seq_views(s).push(x@),
{
    assert(seq_views(s.push(x)) =~= seq_views(s).push(x@));
}

/// Copies an optional string.
pub fn clone_opt_str(o: &Option<String>) -> (r: Option<String>)
    ensures
        opt_view(r) == opt_view(*o),
{
    match o {
        Option::Some(s) => Option::Some(s.clone()),
        Option::None => Option::None,
    }
}

/// Compares two optional strings by contents.
pub fn opt_str_eq(a: &Option<String>, b: &Option<String>) -> (r: bool)
    ensures
        r == (opt_view(*a) == opt_view(*b)),
{
    match a {
        Option::Some(x) => match b {
            Option::Some(y) => *x == *y,
            Option::None => false,
        },
        Option::None => match b {
            Option::Some(_) => false,
            Option::None => true,
        },
    }
}

impl Clone for Project {
    fn clone(&self) -> (r: Self)
        ensures
            r@ == self@,
    {
        Project {
            id: self.id.clone(),
            name: self.name.clone(),
            description: clone_opt_str(&self.description),
            start_date: clone_opt_str(&self.start_date),
            end_date: clone_opt_str(&self.end_date),
            created_at: self.created_at.clone(),
        }
    }
}

impl Clone for Task {
    fn clone(&self) -> (r: Self)
        ensures
            r@ == self@,
    {
        Task {
            id: self.id.clone(),
            project_id: self.project_id.clone(),
            parent_id: clone_opt_str(&self.parent_id),
            title: self.title.clone(),
            description: clone_opt_str(&self.description),
            status: self.status.clone(),
            priority: self.priority,
            start_date: clone_opt_str(&self.start_date),
            end_date: clone_opt_str(&self.end_date),
            progress: self.progress,
            order_index: self.order_index,
            created_at: self.created_at.clone(),
        }
    }
}

impl Clone for DailyTodo {
    fn clone(&self) -> (r: Self)
        ensures
            r@ == self@,
    {
        DailyTodo {
            id: self.id.clone(),
            task_id: clone_opt_str(&self.task_id),
            title: self.title.clone(),
            date: self.date.clone(),
            completed: self.completed,
            memo: clone_opt_str(&self.memo),
            created_at: self.created_at.clone(),
        }
    }
}

impl CommandError {
    /// Builds an error carrying a human-readable message.
    pub fn new(message: String) -> (r: CommandError)
        ensures
            r.message@ == message@,
    {
        CommandError { message }
    }
}

} // verus!
