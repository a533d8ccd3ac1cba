use mytodo::database::schema::has_sort_order_column;
use mytodo::database::{Database, Snapshot};
use mytodo::error::DbError;
use mytodo::models::{AppSettings, Tag, TaskPriority, TaskRow, TaskTag};

fn row(id: i64, created_at: i64, sort_order: i64) -> TaskRow {
    TaskRow {
        id,
        title: format!("task {}", id),
        description: String::new(),
        due_date: None,
        priority: TaskPriority::Medium,
        is_completed: false,
        created_at,
        sort_order,
    }
}

fn legacy() -> Snapshot {
    Snapshot {
        tasks: vec![row(1, 300, 0), row(2, 100, 0), row(5, 200, 0), row(4, 200, 0)],
        tags: vec![Tag {
            id: Some(1),
            name: "x".to_string(),
            color: "#000000".to_string(),
            created_at: 1,
        }],
        task_tags: vec![TaskTag { task_id: 2, tag_name: "x".to_string() }],
        settings: None,
        has_sort_order: false,
        last_task_id: 5,
        last_tag_id: 1,
    }
}

#[test]
fn new_store_is_empty_and_initialized() {
    let db = Database::new().unwrap();
    assert_eq!(
        db.snapshot(),
        Snapshot {
            tasks: Vec::new(),
            tags: Vec::new(),
            task_tags: Vec::new(),
            settings: Some(AppSettings::default()),
            has_sort_order: true,
            last_task_id: 0,
            last_tag_id: 0,
        }
    );
}

#[test]
fn migration_ranks_tasks_by_creation_time() {
    let db = Database::restore(legacy()).unwrap();
    let after = db.snapshot();
    assert!(after.has_sort_order);
    assert_eq!(after.settings, Some(AppSettings::default()));
    let positions: Vec<(i64, i64)> = after.tasks.iter().map(|t| (t.id, t.sort_order)).collect();
    assert_eq!(positions, vec![(1, 4), (2, 1), (5, 3), (4, 2)]);
    assert_eq!(after.tags, legacy().tags);
    assert_eq!(after.task_tags, legacy().task_tags);
    let titles: Vec<String> = db.get_all_tasks().unwrap().into_iter().map(|t| t.title).collect();
    assert_eq!(titles, vec!["task 2", "task 4", "task 5", "task 1"]);
}

#[test]
fn initializing_twice_changes_nothing_more() {
    let mut db = Database::restore(legacy()).unwrap();
    let once = db.snapshot();
    db.init_tables();
    assert_eq!(db.snapshot(), once);
    db.migrate_add_sort_order();
    assert_eq!(db.snapshot(), once);
    let again = Database::restore(once.clone()).unwrap();
    assert_eq!(again.snapshot(), once);
}

#[test]
fn migrated_store_keeps_its_positions_and_settings() {
    let mut stored = legacy();
    stored.has_sort_order = true;
    stored.tasks[0].sort_order = 17;
    let mut settings = AppSettings::default();
    settings.theme = "dark".to_string();
    stored.settings = Some(settings);
    let db = Database::restore(stored.clone()).unwrap();
    assert_eq!(db.snapshot(), stored);
}

#[test]
fn broken_snapshots_are_refused() {
    let mut twins = legacy();
    twins.tasks[1].id = 1;
    assert!(!twins.is_well_formed());
    assert!(matches!(Database::restore(twins), Err(DbError::StorageUnavailable)));

    let mut ahead = legacy();
    ahead.last_task_id = 4;
    assert!(matches!(Database::restore(ahead), Err(DbError::StorageUnavailable)));

    let mut crowded = legacy();
    crowded.tasks = vec![row(-1, 1, 0), row(-2, 1, 0), row(1, 1, 0)];
    crowded.task_tags = Vec::new();
    crowded.last_task_id = 2;
    assert!(matches!(Database::restore(crowded), Err(DbError::StorageUnavailable)));

    let mut orphan = legacy();
    orphan.task_tags.push(TaskTag { task_id: 3, tag_name: "x".to_string() });
    assert!(matches!(Database::restore(orphan), Err(DbError::StorageUnavailable)));

    let mut unnamed = legacy();
    unnamed.task_tags.push(TaskTag { task_id: 1, tag_name: "y".to_string() });
    assert!(matches!(Database::restore(unnamed), Err(DbError::StorageUnavailable)));

    let mut doubled = legacy();
    doubled.task_tags.push(TaskTag { task_id: 2, tag_name: "x".to_string() });
    assert!(matches!(Database::restore(doubled), Err(DbError::StorageUnavailable)));

    let mut same_name = legacy();
    same_name.tags.push(Tag {
        id: Some(2),
        name: "x".to_string(),
        color: "#111111".to_string(),
        created_at: 1,
    });
    same_name.last_tag_id = 2;
    assert!(matches!(Database::restore(same_name), Err(DbError::StorageUnavailable)));

    let mut no_id = legacy();
    no_id.tags[0].id = None;
    assert!(matches!(Database::restore(no_id), Err(DbError::StorageUnavailable)));

    let mut negative = legacy();
    negative.tasks = Vec::new();
    negative.task_tags = Vec::new();
    negative.last_task_id = -1;
    assert!(matches!(Database::restore(negative), Err(DbError::StorageUnavailable)));

    assert!(legacy().is_well_formed());
}

#[test]
fn snapshot_of_a_working_store_can_be_restored() {
    let mut db = Database::restore(legacy()).unwrap();
    db.set_task_tags(1, &vec!["y".to_string(), "x".to_string()], 9).unwrap();
    db.toggle_task_completion(4).unwrap();
    let held = db.snapshot();
    assert!(held.is_well_formed());
    let back = Database::restore(held.clone()).unwrap();
    assert_eq!(back.snapshot(), held);
    assert_eq!(back.get_all_tasks(), db.get_all_tasks());
}

fn refusal() -> rusqlite::Error {
    let connection = rusqlite::Connection::open_in_memory().unwrap();
    connection.execute("INSERT INTO nowhere VALUES (1)", []).unwrap_err()
}

#[test]
fn opening_follows_what_reading_the_file_gave() {
    let db = Database::open(Ok(legacy())).unwrap();
    assert_eq!(db.snapshot(), Database::restore(legacy()).unwrap().snapshot());
    assert!(matches!(Database::open(Err(refusal())), Err(DbError::StorageUnavailable)));
    let mut broken = legacy();
    broken.last_tag_id = 0;
    assert!(matches!(Database::open(Ok(broken)), Err(DbError::StorageUnavailable)));
}

#[test]
fn a_change_that_the_file_refuses_is_taken_back() {
    let mut db = Database::restore(legacy()).unwrap();
    let before = db.duplicate();
    let held = before.snapshot();
    db.delete_task(2).unwrap();
    db.toggle_task_completion(1).unwrap();
    assert_ne!(db.snapshot(), held);
    assert_eq!(db.confirm_write(before, Err(refusal())), Err(DbError::StorageUnavailable));
    assert_eq!(db.snapshot(), held);
}

#[test]
fn a_change_that_the_file_takes_is_kept() {
    let mut db = Database::restore(legacy()).unwrap();
    let before = db.duplicate();
    db.delete_task(2).unwrap();
    let changed = db.snapshot();
    assert_eq!(db.confirm_write(before, Ok(())), Ok(()));
    assert_eq!(db.snapshot(), changed);
    assert_eq!(db.duplicate().snapshot(), changed);
}

#[test]
fn the_column_is_found_by_its_name() {
    let columns = |names: &[&str]| names.iter().map(|n| n.to_string()).collect::<Vec<String>>();
    assert!(has_sort_order_column(&columns(&["id", "title", "sort_order"])));
    assert!(has_sort_order_column(&columns(&["sort_order"])));
    assert!(!has_sort_order_column(&columns(&["id", "title", "created_at"])));
    assert!(!has_sort_order_column(&columns(&["id", "Sort_Order", "sort_orders"])));
    assert!(!has_sort_order_column(&columns(&[])));
}
