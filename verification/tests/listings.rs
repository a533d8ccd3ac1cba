use mytodo::database::Database;
use mytodo::instant::{day_bounds, is_due_within, MAX_INSTANT, MIN_INSTANT};
use mytodo::model::{TaskFilter, TaskOrder};
use mytodo::models::{CreateTaskRequest, Task, TaskPriority};

fn add(db: &mut Database, title: &str, due_date: Option<i64>, priority: TaskPriority, now: i64) -> i64 {
    db.create_task(
        CreateTaskRequest {
            title: title.to_string(),
            description: None,
            due_date,
            priority,
            tags: Some(vec![title.to_string()]),
        },
        now,
    )
    .unwrap()
    .id
    .unwrap()
}

fn titles(tasks: &[Task]) -> Vec<&str> {
    tasks.iter().map(|t| t.title.as_str()).collect()
}

#[test]
fn all_tasks_come_by_position_then_latest_creation_then_id() {
    let mut db = Database::new().unwrap();
    add(&mut db, "first", None, TaskPriority::Low, 100);
    add(&mut db, "second", None, TaskPriority::Low, 200);
    add(&mut db, "third", None, TaskPriority::Low, 200);
    add(&mut db, "fourth", None, TaskPriority::Low, 50);
    db.update_tasks_sort_order(vec![(1, 2), (2, 2), (3, 2), (4, 1)]).unwrap();
    let all = db.get_all_tasks().unwrap();
    assert_eq!(titles(&all), vec!["fourth", "second", "third", "first"]);
    assert_eq!(all[1].tags, vec!["second".to_string()]);
}

#[test]
fn overdue_holds_open_tasks_due_before_now() {
    let now = 1_700_000_000;
    let mut db = Database::new().unwrap();
    add(&mut db, "late", Some(now - 3600), TaskPriority::Low, 1);
    let done = add(&mut db, "done", Some(now - 3600), TaskPriority::Low, 1);
    add(&mut db, "later", Some(now - 7200), TaskPriority::Low, 1);
    add(&mut db, "now", Some(now), TaskPriority::Low, 1);
    add(&mut db, "never", None, TaskPriority::Low, 1);
    add(&mut db, "just", Some(now - 1), TaskPriority::Low, 1);
    db.toggle_task_completion(done).unwrap();
    let overdue = db.get_overdue_tasks(now).unwrap();
    assert_eq!(titles(&overdue), vec!["later", "late", "just"]);
    assert_eq!(overdue[0].tags, vec!["later".to_string()]);
}

#[test]
fn upcoming_holds_open_tasks_due_within_the_window() {
    let now = 1_700_000_000;
    let mut db = Database::new().unwrap();
    add(&mut db, "soon", Some(now + 15 * 60), TaskPriority::Low, 1);
    add(&mut db, "far", Some(now + 45 * 60), TaskPriority::Low, 1);
    add(&mut db, "past", Some(now - 5 * 60), TaskPriority::Low, 1);
    add(&mut db, "edge", Some(now + 30 * 60), TaskPriority::Low, 1);
    add(&mut db, "beyond", Some(now + 30 * 60 + 1), TaskPriority::Low, 1);
    add(&mut db, "now", Some(now), TaskPriority::Low, 1);
    add(&mut db, "next", Some(now + 1), TaskPriority::Low, 1);
    let done = add(&mut db, "done", Some(now + 60), TaskPriority::Low, 1);
    db.toggle_task_completion(done).unwrap();
    let upcoming = db.get_upcoming_tasks(now, 30).unwrap();
    assert_eq!(titles(&upcoming), vec!["next", "soon", "edge"]);
    assert_eq!(db.get_upcoming_tasks(now, 0).unwrap().len(), 0);
    assert_eq!(db.get_upcoming_tasks(now, -10).unwrap().len(), 0);
    assert_eq!(titles(&db.get_upcoming_tasks(now, i32::MAX).unwrap()).len(), 5);
}

#[test]
fn window_test_does_not_overflow() {
    assert!(is_due_within(i64::MAX - 1, 1, i64::MAX));
    assert!(!is_due_within(i64::MAX, i32::MAX, i64::MAX));
    assert!(!is_due_within(i64::MIN, i32::MAX, i64::MAX));
    assert!(is_due_within(i64::MIN, 1, i64::MIN + 60));
    assert!(!is_due_within(i64::MIN, 1, i64::MIN + 61));
    assert!(!is_due_within(0, i32::MIN, 1));
    assert!(is_due_within(0, 2, 120));
    assert!(!is_due_within(0, 2, 121));
}

#[test]
fn today_holds_the_tasks_due_on_the_day_of_now() {
    let now = 1_700_000_000;
    assert_eq!(day_bounds(now), (1_699_920_000, 1_700_006_399));
    let mut db = Database::new().unwrap();
    add(&mut db, "start", Some(1_699_920_000), TaskPriority::Low, 1);
    add(&mut db, "end", Some(1_700_006_399), TaskPriority::Low, 1);
    add(&mut db, "before", Some(1_699_919_999), TaskPriority::High, 1);
    add(&mut db, "after", Some(1_700_006_400), TaskPriority::High, 1);
    add(&mut db, "never", None, TaskPriority::High, 1);
    add(&mut db, "high late", Some(1_700_000_500), TaskPriority::High, 1);
    add(&mut db, "high early", Some(1_700_000_100), TaskPriority::High, 1);
    let done = add(&mut db, "medium done", Some(1_700_000_000), TaskPriority::Medium, 1);
    add(&mut db, "high early twin", Some(1_700_000_100), TaskPriority::High, 1);
    db.toggle_task_completion(done).unwrap();
    let today = db.get_today_tasks(now).unwrap();
    assert_eq!(
        titles(&today),
        vec!["high early", "high early twin", "high late", "medium done", "start", "end"]
    );
}

#[test]
fn days_before_the_epoch_start_at_the_earlier_midnight() {
    assert_eq!(day_bounds(-1), (-86_400, -1));
    assert_eq!(day_bounds(-86_400), (-86_400, -1));
    assert_eq!(day_bounds(-86_401), (-172_800, -86_401));
    assert_eq!(day_bounds(0), (0, 86_399));
    assert_eq!(day_bounds(86_399), (0, 86_399));
}

#[test]
fn the_calendar_span_is_the_span_of_instants() {
    assert_eq!(day_bounds(MIN_INSTANT), (MIN_INSTANT, MIN_INSTANT + 86_399));
    assert_eq!(day_bounds(MAX_INSTANT), (MAX_INSTANT - 86_399, MAX_INSTANT));
    assert!(chrono::DateTime::from_timestamp(MIN_INSTANT, 0).is_some());
    assert!(chrono::DateTime::from_timestamp(MAX_INSTANT, 0).is_some());
    assert!(chrono::DateTime::from_timestamp(MIN_INSTANT - 1, 0).is_none());
    assert!(chrono::DateTime::from_timestamp(MAX_INSTANT + 1, 0).is_none());
    assert_eq!(chrono::DateTime::<chrono::Utc>::MIN_UTC.timestamp(), MIN_INSTANT);
    assert_eq!(chrono::DateTime::<chrono::Utc>::MAX_UTC.timestamp(), MAX_INSTANT);
}

#[test]
fn completed_tasks_come_latest_creation_first() {
    let mut db = Database::new().unwrap();
    let a = add(&mut db, "a", None, TaskPriority::Low, 10);
    add(&mut db, "b", None, TaskPriority::Low, 20);
    let c = add(&mut db, "c", None, TaskPriority::Low, 30);
    let d = add(&mut db, "d", None, TaskPriority::Low, 30);
    db.toggle_task_completion(a).unwrap();
    db.toggle_task_completion(c).unwrap();
    db.toggle_task_completion(d).unwrap();
    assert_eq!(titles(&db.get_completed_tasks().unwrap()), vec!["c", "d", "a"]);
}

#[test]
fn select_combines_any_filter_with_any_order() {
    let mut db = Database::new().unwrap();
    add(&mut db, "none", None, TaskPriority::Low, 10);
    add(&mut db, "late", Some(900), TaskPriority::High, 20);
    add(&mut db, "early", Some(100), TaskPriority::Medium, 30);
    let by_due = db.select(TaskFilter::All, TaskOrder::ByDueDate);
    assert_eq!(titles(&by_due), vec!["none", "early", "late"]);
    let by_priority = db.select(TaskFilter::All, TaskOrder::ByPriority);
    assert_eq!(titles(&by_priority), vec!["late", "early", "none"]);
    let between = db.select(TaskFilter::DueBetween { first: 100, last: 899 }, TaskOrder::ByCreation);
    assert_eq!(titles(&between), vec!["early"]);
    assert_eq!(db.select(TaskFilter::Completed, TaskOrder::BySortOrder).len(), 0);
}
