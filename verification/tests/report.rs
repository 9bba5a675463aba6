use todo_wbs::report::generate_daily_report;
use todo_wbs::store::Database;

#[test]
fn report_with_no_todos_and_no_memo_shows_placeholders() {
    let db = Database::new();
    let text = generate_daily_report(&db, &"2024-01-01".to_string(), &"".to_string()).unwrap();
    assert_eq!(
        text,
        "# 日報 - 2024-01-01\n\n## 完了したタスク\nなし\n\n## 未完了のタスク\nなし\n"
    );
}

#[test]
fn report_renders_sections_memos_and_caller_memo() {
    let mut db = Database::new();
    db.create_project_with(
        "p1".to_string(),
        "2024-01-01 08:00:00".to_string(),
        "Alpha".to_string(),
        None,
        None,
        None,
    )
    .unwrap();
    db.create_task_with(
        "t1".to_string(),
        "2024-01-01 08:10:00".to_string(),
        "p1".to_string(),
        None,
        "Write spec".to_string(),
        None,
        "pending".to_string(),
        0,
        None,
        None,
    )
    .unwrap();
    db.create_daily_todo_with(
        "d1".to_string(),
        "2024-01-02 08:00:00".to_string(),
        Some("t1".to_string()),
        "Write spec".to_string(),
        "2024-01-02".to_string(),
        Some("done early".to_string()),
    )
    .unwrap();
    db.toggle_todo(&"d1".to_string()).unwrap();
    db.create_daily_todo_with(
        "d2".to_string(),
        "2024-01-02 09:00:00".to_string(),
        None,
        "Review PR".to_string(),
        "2024-01-02".to_string(),
        None,
    )
    .unwrap();
    let text =
        generate_daily_report(&db, &"2024-01-02".to_string(), &"Focus day".to_string()).unwrap();
    assert_eq!(
        text,
        "# 日報 - 2024-01-02\n\n\
         ## 完了したタスク\n\
         - [x] Alpha: Write spec\n\
         \x20 - done early\n\
         \n## 未完了のタスク\n\
         - [ ] Review PR\n\
         \n## メモ\nFocus day\n"
    );
}

#[test]
fn report_skips_memo_line_for_incomplete_and_empty_memos() {
    let mut db = Database::new();
    db.create_daily_todo_with(
        "d1".to_string(),
        "2024-01-02 08:00:00".to_string(),
        None,
        "Done, empty memo".to_string(),
        "2024-01-02".to_string(),
        Some("".to_string()),
    )
    .unwrap();
    db.toggle_todo(&"d1".to_string()).unwrap();
    db.create_daily_todo_with(
        "d2".to_string(),
        "2024-01-02 09:00:00".to_string(),
        None,
        "Open, with memo".to_string(),
        "2024-01-02".to_string(),
        Some("hidden".to_string()),
    )
    .unwrap();
    let text = generate_daily_report(&db, &"2024-01-02".to_string(), &"".to_string()).unwrap();
    assert_eq!(
        text,
        "# 日報 - 2024-01-02\n\n\
         ## 完了したタスク\n\
         - [x] Done, empty memo\n\
         \n## 未完了のタスク\n\
         - [ ] Open, with memo\n"
    );
}
