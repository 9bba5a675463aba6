use todo_wbs::model::DailyTodo;
use todo_wbs::model::Project;
use todo_wbs::model::Task;
use todo_wbs::store::Database;

fn proj(db: &mut Database, id: &str, name: &str, at: &str) -> Project {
    db.create_project_with(
        id.to_string(),
        at.to_string(),
        name.to_string(),
        None,
        None,
        None,
    )
    .unwrap()
}

fn task(db: &mut Database, id: &str, project: &str, parent: Option<&str>, title: &str) -> Task {
    db.create_task_with(
        id.to_string(),
        "2024-01-01 00:00:00".to_string(),
        project.to_string(),
        parent.map(|s| s.to_string()),
        title.to_string(),
        None,
        "pending".to_string(),
        0,
        None,
        None,
    )
    .unwrap()
}

fn todo(
    db: &mut Database,
    id: &str,
    task_id: Option<&str>,
    title: &str,
    date: &str,
    memo: Option<&str>,
    at: &str,
) -> DailyTodo {
    db.create_daily_todo_with(
        id.to_string(),
        at.to_string(),
        task_id.map(|s| s.to_string()),
        title.to_string(),
        date.to_string(),
        memo.map(|s| s.to_string()),
    )
    .unwrap()
}

#[test]
fn create_and_get_project() {
    let mut db = Database::new();
    let p = proj(&mut db, "p1", "Alpha", "2024-01-01 08:00:00");
    assert_eq!(p.id, "p1");
    assert_eq!(p.name, "Alpha");
    assert_eq!(p.created_at, "2024-01-01 08:00:00");
    let got = db.get_project(&"p1".to_string()).unwrap().unwrap();
    assert_eq!(got, p);
    assert!(db.get_project(&"nope".to_string()).unwrap().is_none());
}

#[test]
fn projects_listed_newest_first() {
    let mut db = Database::new();
    let a = proj(&mut db, "p1", "First", "2024-01-01 08:00:00");
    let b = proj(&mut db, "p2", "Second", "2024-01-01 09:00:00");
    let all = db.get_all_projects().unwrap();
    assert_eq!(all, vec![b, a]);
}

#[test]
fn duplicate_project_id_is_error() {
    let mut db = Database::new();
    proj(&mut db, "p1", "Alpha", "2024-01-01 08:00:00");
    let r = db.create_project_with(
        "p1".to_string(),
        "2024-01-01 09:00:00".to_string(),
        "Beta".to_string(),
        None,
        None,
        None,
    );
    assert!(r.is_err());
    assert_eq!(db.get_all_projects().unwrap().len(), 1);
}

#[test]
fn update_project_overwrites_fields() {
    let mut db = Database::new();
    proj(&mut db, "p1", "Alpha", "2024-01-01 08:00:00");
    db.update_project(
        &"p1".to_string(),
        "Renamed".to_string(),
        Some("desc".to_string()),
        Some("2024-02-01".to_string()),
        None,
    )
    .unwrap();
    let got = db.get_project(&"p1".to_string()).unwrap().unwrap();
    assert_eq!(got.name, "Renamed");
    assert_eq!(got.description, Some("desc".to_string()));
    assert_eq!(got.start_date, Some("2024-02-01".to_string()));
    assert_eq!(got.end_date, None);
    assert_eq!(got.created_at, "2024-01-01 08:00:00");
}

#[test]
fn update_missing_project_leaves_store_unchanged() {
    let mut db = Database::new();
    proj(&mut db, "p1", "Alpha", "2024-01-01 08:00:00");
    task(&mut db, "t1", "p1", None, "Root");
    let before_projects = db.get_all_projects().unwrap();
    let before_tasks = db.get_tasks_by_project(&"p1".to_string()).unwrap();
    db.update_project(
        &"ghost".to_string(),
        "Nothing".to_string(),
        None,
        None,
        None,
    )
    .unwrap();
    assert_eq!(db.get_all_projects().unwrap(), before_projects);
    assert_eq!(db.get_tasks_by_project(&"p1".to_string()).unwrap(), before_tasks);
}

#[test]
fn update_missing_task_leaves_store_unchanged() {
    let mut db = Database::new();
    proj(&mut db, "p1", "Alpha", "2024-01-01 08:00:00");
    task(&mut db, "t1", "p1", None, "Root");
    let before = db.get_tasks_by_project(&"p1".to_string()).unwrap();
    db.update_task(
        &"ghost".to_string(),
        "Nothing".to_string(),
        None,
        "done".to_string(),
        9,
        None,
        None,
        50,
    )
    .unwrap();
    db.update_task_dates(&"ghost".to_string(), Some("2024-03-01".to_string()), None)
        .unwrap();
    assert_eq!(db.get_tasks_by_project(&"p1".to_string()).unwrap(), before);
}

#[test]
fn sibling_order_indexes_are_dense_per_group() {
    let mut db = Database::new();
    proj(&mut db, "p1", "Alpha", "2024-01-01 08:00:00");
    proj(&mut db, "p2", "Beta", "2024-01-01 08:30:00");
    let a = task(&mut db, "a", "p1", None, "A");
    let b = task(&mut db, "b", "p1", None, "B");
    // interleave: children of `a`, and a task of another project
    let ca = task(&mut db, "ca", "p1", Some("a"), "child of A");
    let other = task(&mut db, "x", "p2", None, "other project");
    let c = task(&mut db, "c", "p1", None, "C");
    let cb = task(&mut db, "cb", "p1", Some("a"), "second child of A");
    assert_eq!(a.order_index, 0);
    assert_eq!(b.order_index, 1);
    assert_eq!(c.order_index, 2);
    assert_eq!(ca.order_index, 0);
    assert_eq!(cb.order_index, 1);
    assert_eq!(other.order_index, 0);
}

#[test]
fn tasks_listed_flat_sorted_by_order_index() {
    let mut db = Database::new();
    proj(&mut db, "p1", "Alpha", "2024-01-01 08:00:00");
    task(&mut db, "a", "p1", None, "A");
    task(&mut db, "b", "p1", None, "B");
    task(&mut db, "ca", "p1", Some("a"), "child of A");
    task(&mut db, "c", "p1", None, "C");
    let listed = db.get_tasks_by_project(&"p1".to_string()).unwrap();
    assert_eq!(listed.len(), 4);
    for w in listed.windows(2) {
        assert!(w[0].order_index <= w[1].order_index);
    }
    let ids: Vec<&str> = listed.iter().map(|t| t.id.as_str()).collect();
    assert!(ids.contains(&"ca"));
}

#[test]
fn create_task_without_project_is_error() {
    let mut db = Database::new();
    let r = db.create_task_with(
        "t1".to_string(),
        "2024-01-01 00:00:00".to_string(),
        "ghost".to_string(),
        None,
        "Orphan".to_string(),
        None,
        "pending".to_string(),
        0,
        None,
        None,
    );
    assert!(r.is_err());
}

#[test]
fn create_task_with_missing_parent_is_error() {
    let mut db = Database::new();
    proj(&mut db, "p1", "Alpha", "2024-01-01 08:00:00");
    let r = db.create_task_with(
        "t1".to_string(),
        "2024-01-01 00:00:00".to_string(),
        "p1".to_string(),
        Some("ghost".to_string()),
        "Orphan".to_string(),
        None,
        "pending".to_string(),
        0,
        None,
        None,
    );
    assert!(r.is_err());
}

#[test]
fn delete_project_cascades_and_severs_todo_links() {
    let mut db = Database::new();
    proj(&mut db, "p1", "Alpha", "2024-01-01 08:00:00");
    proj(&mut db, "p2", "Beta", "2024-01-01 08:30:00");
    task(&mut db, "t1", "p1", None, "Root");
    task(&mut db, "t2", "p1", Some("t1"), "Child");
    task(&mut db, "t3", "p1", Some("t2"), "Grandchild");
    task(&mut db, "u1", "p2", None, "Unrelated");
    todo(
        &mut db,
        "d1",
        Some("t3"),
        "Grandchild",
        "2024-01-02",
        Some("keep me"),
        "2024-01-02 08:00:00",
    );
    db.delete_project(&"p1".to_string()).unwrap();
    assert!(db.get_project(&"p1".to_string()).unwrap().is_none());
    assert!(db.get_tasks_by_project(&"p1".to_string()).unwrap().is_empty());
    // the other project's task survives
    assert_eq!(db.get_tasks_by_project(&"p2".to_string()).unwrap().len(), 1);
    // the todo row survives, task-less, with title and memo intact
    let day = db.get_todos_by_date(&"2024-01-02".to_string()).unwrap();
    assert_eq!(day.len(), 1);
    assert_eq!(day[0].id, "d1");
    assert_eq!(day[0].task_id, None);
    assert_eq!(day[0].title, "Grandchild");
    assert_eq!(day[0].memo, Some("keep me".to_string()));
    assert_eq!(day[0].task_title, None);
    assert_eq!(day[0].project_name, None);
}

#[test]
fn delete_task_cascades_to_descendants_and_keeps_gaps() {
    let mut db = Database::new();
    proj(&mut db, "p1", "Alpha", "2024-01-01 08:00:00");
    task(&mut db, "a", "p1", None, "A");
    task(&mut db, "b", "p1", None, "B");
    task(&mut db, "c", "p1", None, "C");
    task(&mut db, "ba", "p1", Some("b"), "child of B");
    db.delete_task(&"b".to_string()).unwrap();
    let left = db.get_tasks_by_project(&"p1".to_string()).unwrap();
    let ids: Vec<&str> = left.iter().map(|t| t.id.as_str()).collect();
    assert_eq!(ids, vec!["a", "c"]);
    // surviving siblings keep their indexes; the next creation continues
    // past the maximum, leaving the gap in place
    assert_eq!(left[0].order_index, 0);
    assert_eq!(left[1].order_index, 2);
    let d = task(&mut db, "d", "p1", None, "D");
    assert_eq!(d.order_index, 3);
}

#[test]
fn toggle_todo_is_an_involution() {
    let mut db = Database::new();
    todo(&mut db, "d1", None, "Solo", "2024-01-02", None, "2024-01-02 08:00:00");
    let first = db.toggle_todo(&"d1".to_string()).unwrap();
    assert_eq!(first, true);
    let day = db.get_todos_by_date(&"2024-01-02".to_string()).unwrap();
    assert_eq!(day[0].completed, true);
    let second = db.toggle_todo(&"d1".to_string()).unwrap();
    assert_eq!(second, false);
    let day = db.get_todos_by_date(&"2024-01-02".to_string()).unwrap();
    assert_eq!(day[0].completed, false);
}

#[test]
fn toggle_missing_todo_is_error() {
    let mut db = Database::new();
    assert!(db.toggle_todo(&"ghost".to_string()).is_err());
}

#[test]
fn todos_by_date_incomplete_first_then_by_creation() {
    let mut db = Database::new();
    // created in time order: B(08:00), A(09:00), C(10:00); B completed
    todo(&mut db, "b", None, "B", "2024-01-01", None, "2024-01-01 08:00:00");
    todo(&mut db, "a", None, "A", "2024-01-01", None, "2024-01-01 09:00:00");
    todo(&mut db, "c", None, "C", "2024-01-01", None, "2024-01-01 10:00:00");
    todo(&mut db, "z", None, "other day", "2024-01-02", None, "2024-01-01 11:00:00");
    db.toggle_todo(&"b".to_string()).unwrap();
    let day = db.get_todos_by_date(&"2024-01-01".to_string()).unwrap();
    let ids: Vec<&str> = day.iter().map(|t| t.id.as_str()).collect();
    assert_eq!(ids, vec!["a", "c", "b"]);
}

#[test]
fn todos_by_date_enriches_with_task_and_project() {
    let mut db = Database::new();
    proj(&mut db, "p1", "Alpha", "2024-01-01 08:00:00");
    task(&mut db, "t1", "p1", None, "Write spec");
    todo(
        &mut db,
        "d1",
        Some("t1"),
        "Write spec",
        "2024-01-02",
        None,
        "2024-01-02 08:00:00",
    );
    let day = db.get_todos_by_date(&"2024-01-02".to_string()).unwrap();
    assert_eq!(day[0].task_title, Some("Write spec".to_string()));
    assert_eq!(day[0].project_name, Some("Alpha".to_string()));
}

#[test]
fn update_todo_memo_only_touches_memo() {
    let mut db = Database::new();
    todo(&mut db, "d1", None, "Solo", "2024-01-02", None, "2024-01-02 08:00:00");
    db.update_todo_memo(&"d1".to_string(), Some("note".to_string()))
        .unwrap();
    let day = db.get_todos_by_date(&"2024-01-02".to_string()).unwrap();
    assert_eq!(day[0].memo, Some("note".to_string()));
    assert_eq!(day[0].title, "Solo");
    db.update_todo_memo(&"ghost".to_string(), Some("lost".to_string()))
        .unwrap();
    let day = db.get_todos_by_date(&"2024-01-02".to_string()).unwrap();
    assert_eq!(day.len(), 1);
    assert_eq!(day[0].memo, Some("note".to_string()));
}

#[test]
fn delete_todo_removes_only_that_row() {
    let mut db = Database::new();
    todo(&mut db, "d1", None, "One", "2024-01-02", None, "2024-01-02 08:00:00");
    todo(&mut db, "d2", None, "Two", "2024-01-02", None, "2024-01-02 09:00:00");
    db.delete_todo(&"d1".to_string()).unwrap();
    let day = db.get_todos_by_date(&"2024-01-02".to_string()).unwrap();
    assert_eq!(day.len(), 1);
    assert_eq!(day[0].id, "d2");
    // deleting an absent todo is a no-op
    db.delete_todo(&"ghost".to_string()).unwrap();
    assert_eq!(db.get_todos_by_date(&"2024-01-02".to_string()).unwrap().len(), 1);
}

#[test]
fn add_task_to_todo_twice_creates_distinct_records() {
    let mut db = Database::new();
    proj(&mut db, "p1", "Alpha", "2024-01-01 08:00:00");
    task(&mut db, "t1", "p1", None, "Write spec");
    let first = db
        .add_task_to_todo(&"t1".to_string(), "2024-01-02".to_string())
        .unwrap();
    let second = db
        .add_task_to_todo(&"t1".to_string(), "2024-01-02".to_string())
        .unwrap();
    assert_ne!(first.id, second.id);
    assert_eq!(first.title, "Write spec");
    assert_eq!(second.title, "Write spec");
    assert_eq!(first.task_id, Some("t1".to_string()));
    assert_eq!(db.get_todos_by_date(&"2024-01-02".to_string()).unwrap().len(), 2);
}

#[test]
fn add_task_to_todo_for_missing_task_is_error() {
    let mut db = Database::new();
    assert!(db
        .add_task_to_todo(&"ghost".to_string(), "2024-01-02".to_string())
        .is_err());
    assert!(db.get_todos_by_date(&"2024-01-02".to_string()).unwrap().is_empty());
}

#[test]
fn generated_identifiers_are_fresh_uuids() {
    let mut db = Database::new();
    let a = db
        .create_project("Alpha".to_string(), None, None, None)
        .unwrap();
    let b = db
        .create_project("Beta".to_string(), None, None, None)
        .unwrap();
    assert_eq!(a.id.chars().count(), 36);
    assert_eq!(b.id.chars().count(), 36);
    assert_ne!(a.id, b.id);
}

#[test]
fn create_daily_todo_with_missing_task_is_error() {
    let mut db = Database::new();
    let r = db.create_daily_todo_with(
        "d1".to_string(),
        "2024-01-02 08:00:00".to_string(),
        Some("ghost".to_string()),
        "Orphan".to_string(),
        "2024-01-02".to_string(),
        None,
    );
    assert!(r.is_err());
}
