use mytodo::database::Database;
use mytodo::error::DbError;
use mytodo::models::{CreateTaskRequest, Task, TaskPriority, UpdateTaskRequest};

fn request(title: &str, due_date: Option<i64>, priority: TaskPriority, tags: &[&str]) -> CreateTaskRequest {
    CreateTaskRequest {
        title: title.to_string(),
        description: None,
        due_date,
        priority,
        tags: if tags.is_empty() { None } else { Some(tags.iter().map(|t| t.to_string()).collect()) },
    }
}

fn no_change(id: i64) -> UpdateTaskRequest {
    UpdateTaskRequest {
        id,
        title: None,
        description: None,
        due_date: None,
        priority: None,
        is_completed: None,
        tags: None,
    }
}

#[test]
fn created_task_is_found_equal_in_every_field() {
    let mut db = Database::new().unwrap();
    let made = db
        .create_task(
            CreateTaskRequest {
                title: "Write report".to_string(),
                description: Some("quarterly".to_string()),
                due_date: Some(1_700_003_600),
                priority: TaskPriority::High,
                tags: Some(vec!["work".to_string(), "urgent".to_string()]),
            },
            1_700_000_000,
        )
        .unwrap();
    assert_eq!(
        made,
        Task {
            id: Some(1),
            title: "Write report".to_string(),
            description: "quarterly".to_string(),
            due_date: Some(1_700_003_600),
            priority: TaskPriority::High,
            is_completed: false,
            created_at: 1_700_000_000,
            tags: vec!["work".to_string(), "urgent".to_string()],
            sort_order: 1,
        }
    );
    assert_eq!(db.get_task_by_id(1), Ok(made));
}

#[test]
fn absent_description_and_tags_are_empty() {
    let mut db = Database::new().unwrap();
    let made = db.create_task(request("Plain", None, TaskPriority::Low, &[]), 5).unwrap();
    assert_eq!(made.description, "");
    assert_eq!(made.tags, Vec::<String>::new());
    assert_eq!(made.due_date, None);
    assert_eq!(db.get_all_tags().unwrap().len(), 0);
}

#[test]
fn first_task_stands_at_one_and_next_after_the_greatest() {
    let mut db = Database::new().unwrap();
    let a = db.create_task(request("a", None, TaskPriority::Medium, &[]), 10).unwrap();
    let b = db.create_task(request("b", None, TaskPriority::Medium, &[]), 11).unwrap();
    assert_eq!(a.sort_order, 1);
    assert_eq!(b.sort_order, 2);
    db.update_tasks_sort_order(vec![(1, 40), (2, 7)]).unwrap();
    let c = db.create_task(request("c", None, TaskPriority::Medium, &[]), 12).unwrap();
    assert_eq!(c.sort_order, 41);
    assert_eq!(c.id, Some(3));
}

#[test]
fn next_position_follows_a_negative_greatest_position() {
    let mut db = Database::new().unwrap();
    db.create_task(request("a", None, TaskPriority::Medium, &[]), 10).unwrap();
    db.update_tasks_sort_order(vec![(1, -5)]).unwrap();
    let b = db.create_task(request("b", None, TaskPriority::Medium, &[]), 11).unwrap();
    assert_eq!(b.sort_order, -4);
}

#[test]
fn ids_are_not_reused_after_delete_or_clear() {
    let mut db = Database::new().unwrap();
    db.create_task(request("a", None, TaskPriority::Medium, &[]), 10).unwrap();
    db.create_task(request("b", None, TaskPriority::Medium, &[]), 10).unwrap();
    db.delete_task(2).unwrap();
    let c = db.create_task(request("c", None, TaskPriority::Medium, &[]), 10).unwrap();
    assert_eq!(c.id, Some(3));
    db.clear_all_tasks().unwrap();
    let d = db.create_task(request("d", None, TaskPriority::Medium, &[]), 10).unwrap();
    assert_eq!(d.id, Some(4));
    assert_eq!(d.sort_order, 1);
}

#[test]
fn deleted_task_is_not_found() {
    let mut db = Database::new().unwrap();
    db.create_task(request("a", None, TaskPriority::Medium, &["x"]), 10).unwrap();
    assert_eq!(db.delete_task(1), Ok(()));
    assert_eq!(db.get_task_by_id(1), Err(DbError::NotFound));
}

#[test]
fn deleting_an_absent_task_changes_nothing() {
    let mut db = Database::new().unwrap();
    db.create_task(request("a", None, TaskPriority::Medium, &["x"]), 10).unwrap();
    let before = db.snapshot();
    assert_eq!(db.delete_task(99), Ok(()));
    assert_eq!(db.snapshot(), before);
}

#[test]
fn deleting_a_task_deletes_its_associations() {
    let mut db = Database::new().unwrap();
    db.create_task(request("a", None, TaskPriority::Medium, &["x", "y"]), 10).unwrap();
    db.create_task(request("b", None, TaskPriority::Medium, &["y"]), 10).unwrap();
    db.delete_task(1).unwrap();
    let left = db.snapshot();
    assert_eq!(left.task_tags.len(), 1);
    assert_eq!(left.task_tags[0].task_id, 2);
    assert_eq!(left.task_tags[0].tag_name, "y");
    assert_eq!(db.get_task_tags(1), Ok(Vec::<String>::new()));
    assert_eq!(db.get_task_tags(2), Ok(vec!["y".to_string()]));
    assert_eq!(db.get_all_tags().unwrap().len(), 2);
    assert!(left.is_well_formed());
}

#[test]
fn toggling_twice_restores_the_flag() {
    let mut db = Database::new().unwrap();
    db.create_task(request("a", Some(50), TaskPriority::High, &["x"]), 10).unwrap();
    let before = db.snapshot();
    let once = db.toggle_task_completion(1).unwrap();
    assert!(once.is_completed);
    assert_eq!(once.tags, vec!["x".to_string()]);
    assert_eq!(db.get_task_by_id(1), Ok(once));
    let twice = db.toggle_task_completion(1).unwrap();
    assert!(!twice.is_completed);
    assert_eq!(db.snapshot(), before);
}

#[test]
fn toggling_an_absent_task_fails() {
    let mut db = Database::new().unwrap();
    assert_eq!(db.toggle_task_completion(1), Err(DbError::NotFound));
}

#[test]
fn tag_named_twice_is_refused_and_nothing_is_stored() {
    let mut db = Database::new().unwrap();
    let before = db.snapshot();
    let r = db.create_task(request("a", None, TaskPriority::Medium, &["x", "y", "x"]), 10);
    assert_eq!(r, Err(DbError::InvalidRequest));
    assert_eq!(db.snapshot(), before);
}

#[test]
fn exhausted_task_counter_refuses_creation() {
    let mut full = Database::new().unwrap().snapshot();
    full.last_task_id = i64::MAX;
    let mut db = Database::restore(full).unwrap();
    let r = db.create_task(request("a", None, TaskPriority::Medium, &[]), 10);
    assert_eq!(r, Err(DbError::StorageUnavailable));
    assert_eq!(db.get_all_tasks().unwrap().len(), 0);
}

#[test]
fn exhausted_positions_refuse_creation() {
    let mut db = Database::new().unwrap();
    db.create_task(request("a", None, TaskPriority::Medium, &[]), 10).unwrap();
    db.update_tasks_sort_order(vec![(1, i64::MAX)]).unwrap();
    let r = db.create_task(request("b", None, TaskPriority::Medium, &[]), 10);
    assert_eq!(r, Err(DbError::StorageUnavailable));
    assert_eq!(db.get_all_tasks().unwrap().len(), 1);
}

#[test]
fn exhausted_tag_counter_refuses_new_tags_only() {
    let mut db = Database::new().unwrap();
    db.create_task(request("a", None, TaskPriority::Medium, &["x"]), 10).unwrap();
    let mut full = db.snapshot();
    full.last_tag_id = i64::MAX;
    let mut db = Database::restore(full).unwrap();
    let r = db.create_task(request("b", None, TaskPriority::Medium, &["x", "new"]), 10);
    assert_eq!(r, Err(DbError::StorageUnavailable));
    let ok = db.create_task(request("b", None, TaskPriority::Medium, &["x"]), 10).unwrap();
    assert_eq!(ok.tags, vec!["x".to_string()]);
}

#[test]
fn update_replaces_the_fields_it_holds() {
    let mut db = Database::new().unwrap();
    db.create_task(
        CreateTaskRequest {
            title: "old".to_string(),
            description: Some("keep".to_string()),
            due_date: Some(100),
            priority: TaskPriority::Low,
            tags: Some(vec!["x".to_string()]),
        },
        10,
    )
    .unwrap();
    db.update_tasks_sort_order(vec![(1, 9)]).unwrap();
    let changed = db
        .update_task(
            UpdateTaskRequest {
                id: 1,
                title: Some("new".to_string()),
                description: None,
                due_date: None,
                priority: Some(TaskPriority::High),
                is_completed: Some(true),
                tags: None,
            },
            20,
        )
        .unwrap();
    assert_eq!(
        changed,
        Task {
            id: Some(1),
            title: "new".to_string(),
            description: "keep".to_string(),
            due_date: Some(100),
            priority: TaskPriority::High,
            is_completed: true,
            created_at: 10,
            tags: vec!["x".to_string()],
            sort_order: 9,
        }
    );
    assert_eq!(db.get_task_by_id(1), Ok(changed));
}

#[test]
fn update_with_tags_replaces_the_associations() {
    let mut db = Database::new().unwrap();
    db.create_task(request("a", None, TaskPriority::Low, &["x", "y"]), 10).unwrap();
    let mut change = no_change(1);
    change.tags = Some(vec!["z".to_string(), "x".to_string()]);
    let changed = db.update_task(change, 20).unwrap();
    assert_eq!(changed.tags, vec!["z".to_string(), "x".to_string()]);
    assert_eq!(db.get_task_tags(1), Ok(vec!["z".to_string(), "x".to_string()]));
    let names: Vec<String> = db.get_all_tags().unwrap().into_iter().map(|t| t.name).collect();
    assert_eq!(names, vec!["x".to_string(), "y".to_string(), "z".to_string()]);
}

#[test]
fn update_with_an_empty_tag_list_keeps_the_tags() {
    let mut db = Database::new().unwrap();
    db.create_task(request("a", None, TaskPriority::Low, &["x", "y"]), 10).unwrap();
    let mut change = no_change(1);
    change.tags = Some(Vec::new());
    let changed = db.update_task(change, 20).unwrap();
    assert_eq!(changed.tags, vec!["x".to_string(), "y".to_string()]);
    assert_eq!(db.get_task_tags(1), Ok(vec!["x".to_string(), "y".to_string()]));
}

#[test]
fn update_cannot_take_a_due_date_away() {
    let mut db = Database::new().unwrap();
    db.create_task(request("a", Some(77), TaskPriority::Low, &[]), 10).unwrap();
    let changed = db.update_task(no_change(1), 20).unwrap();
    assert_eq!(changed.due_date, Some(77));
    let mut change = no_change(1);
    change.due_date = Some(78);
    assert_eq!(db.update_task(change, 20).unwrap().due_date, Some(78));
}

#[test]
fn update_of_an_absent_task_fails() {
    let mut db = Database::new().unwrap();
    assert_eq!(db.update_task(no_change(4), 20), Err(DbError::NotFound));
}

#[test]
fn update_with_a_tag_named_twice_is_refused_whole() {
    let mut db = Database::new().unwrap();
    db.create_task(request("a", None, TaskPriority::Low, &["x"]), 10).unwrap();
    let before = db.snapshot();
    let mut change = no_change(1);
    change.title = Some("b".to_string());
    change.tags = Some(vec!["y".to_string(), "y".to_string()]);
    assert_eq!(db.update_task(change, 20), Err(DbError::InvalidRequest));
    assert_eq!(db.snapshot(), before);
}

#[test]
fn set_task_tags_replaces_and_creates_tags() {
    let mut db = Database::new().unwrap();
    db.create_task(request("a", None, TaskPriority::Low, &["x"]), 10).unwrap();
    assert_eq!(db.set_task_tags(1, &vec!["y".to_string()], 30), Ok(()));
    assert_eq!(db.get_task_tags(1), Ok(vec!["y".to_string()]));
    let tags = db.get_all_tags().unwrap();
    assert_eq!(tags.len(), 2);
    assert_eq!(tags[1].name, "y");
    assert_eq!(tags[1].color, "#3b82f6");
    assert_eq!(tags[1].created_at, 30);
    assert_eq!(tags[1].id, Some(2));
    assert_eq!(db.set_task_tags(1, &Vec::new(), 31), Ok(()));
    assert_eq!(db.get_task_tags(1), Ok(Vec::<String>::new()));
    assert_eq!(db.set_task_tags(9, &vec!["y".to_string()], 30), Err(DbError::NotFound));
    assert_eq!(
        db.set_task_tags(1, &vec!["y".to_string(), "y".to_string()], 30),
        Err(DbError::InvalidRequest)
    );
}

#[test]
fn reorder_applies_in_order_and_passes_over_absent_tasks() {
    let mut db = Database::new().unwrap();
    db.create_task(request("a", None, TaskPriority::Low, &[]), 10).unwrap();
    db.create_task(request("b", None, TaskPriority::Low, &[]), 10).unwrap();
    assert_eq!(db.update_tasks_sort_order(vec![(1, 5), (7, 1), (2, 5), (1, 3)]), Ok(()));
    assert_eq!(db.get_task_by_id(1).unwrap().sort_order, 3);
    assert_eq!(db.get_task_by_id(2).unwrap().sort_order, 5);
    assert_eq!(db.get_all_tasks().unwrap().len(), 2);
}

#[test]
fn clear_deletes_tasks_and_associations_only() {
    let mut db = Database::new().unwrap();
    db.create_task(request("a", None, TaskPriority::Low, &["x"]), 10).unwrap();
    assert_eq!(db.clear_all_tasks(), Ok(()));
    let left = db.snapshot();
    assert_eq!(left.tasks.len(), 0);
    assert_eq!(left.task_tags.len(), 0);
    assert_eq!(left.tags.len(), 1);
    assert!(left.settings.is_some());
}

#[test]
fn export_clear_import_brings_the_tasks_back_as_new_ones() {
    let mut db = Database::new().unwrap();
    db.create_task(request("a", Some(500), TaskPriority::High, &["x", "y"]), 10).unwrap();
    db.create_task(request("b", None, TaskPriority::Low, &[]), 11).unwrap();
    db.create_task(request("c", Some(700), TaskPriority::Medium, &["y"]), 12).unwrap();
    db.toggle_task_completion(2).unwrap();
    let exported = db.export_tasks_to_json().unwrap();
    assert_eq!(exported.len(), 3);
    db.clear_all_tasks().unwrap();
    assert_eq!(db.import_tasks_from_json(Ok(exported.clone()), 99), Ok(3));
    let back = db.get_all_tasks().unwrap();
    assert_eq!(back.len(), 3);
    for (new, old) in back.iter().zip(exported.iter()) {
        assert_eq!(new.title, old.title);
        assert_eq!(new.description, old.description);
        assert_eq!(new.tags, old.tags);
        assert_eq!(new.due_date, old.due_date);
        assert_eq!(new.priority, old.priority);
        assert_eq!(new.created_at, 99);
        assert!(!new.is_completed);
    }
    let ids: Vec<Option<i64>> = back.iter().map(|t| t.id).collect();
    assert_eq!(ids, vec![Some(4), Some(5), Some(6)]);
    let positions: Vec<i64> = back.iter().map(|t| t.sort_order).collect();
    assert_eq!(positions, vec![1, 2, 3]);
}

#[test]
fn importing_an_export_doubles_the_tasks() {
    let mut db = Database::new().unwrap();
    db.create_task(request("a", Some(500), TaskPriority::High, &["x"]), 10).unwrap();
    db.create_task(request("b", None, TaskPriority::Low, &[]), 11).unwrap();
    let exported = db.export_tasks_to_json().unwrap();
    assert_eq!(db.import_tasks_from_json(Ok(exported), 50), Ok(2));
    assert_eq!(db.get_all_tasks().unwrap().len(), 4);
}

#[test]
fn import_passes_over_records_that_cannot_be_created() {
    let mut db = Database::new().unwrap();
    let good = Task {
        id: Some(77),
        title: "good".to_string(),
        description: "d".to_string(),
        due_date: None,
        priority: TaskPriority::Low,
        is_completed: true,
        created_at: 1,
        tags: vec!["x".to_string()],
        sort_order: 500,
    };
    let mut bad = good.clone();
    bad.title = "bad".to_string();
    bad.tags = vec!["x".to_string(), "x".to_string()];
    let mut last = good.clone();
    last.title = "last".to_string();
    assert_eq!(db.import_tasks_from_json(Ok(vec![good, bad, last]), 9), Ok(2));
    let all = db.get_all_tasks().unwrap();
    let titles: Vec<&str> = all.iter().map(|t| t.title.as_str()).collect();
    assert_eq!(titles, vec!["good", "last"]);
    assert_eq!(all[0].id, Some(1));
    assert_eq!(all[0].sort_order, 1);
    assert_eq!(all[0].created_at, 9);
    assert!(!all[0].is_completed);
    assert_eq!(db.import_tasks_from_json(Ok(Vec::new()), 9), Ok(0));
}

#[test]
fn priorities_are_read_from_numbers_with_medium_for_the_rest() {
    assert_eq!(TaskPriority::from(0), TaskPriority::Low);
    assert_eq!(TaskPriority::from(1), TaskPriority::Medium);
    assert_eq!(TaskPriority::from(2), TaskPriority::High);
    assert_eq!(TaskPriority::from(3), TaskPriority::Medium);
    assert_eq!(TaskPriority::from(-1), TaskPriority::Medium);
    assert_eq!(TaskPriority::from(i32::MAX), TaskPriority::Medium);
    let low: i32 = TaskPriority::Low.into();
    let medium: i32 = TaskPriority::Medium.into();
    let high: i32 = TaskPriority::High.into();
    assert_eq!((low, medium, high), (0, 1, 2));
    assert_eq!(TaskPriority::High.as_level(), 2);
}

#[test]
fn text_that_cannot_be_decoded_is_a_serialization_error() {
    let mut db = Database::new().unwrap();
    db.create_task(request("a", None, TaskPriority::Low, &["x"]), 10).unwrap();
    let before = db.snapshot();
    let undecoded = serde_json::from_str::<Vec<i64>>("[1, 2").map(|_| Vec::<Task>::new());
    assert!(undecoded.is_err());
    assert_eq!(db.import_tasks_from_json(undecoded, 20), Err(DbError::SerializationError));
    assert_eq!(db.snapshot(), before);
}
