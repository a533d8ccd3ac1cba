use mytodo::database::Database;
use mytodo::error::DbError;
use mytodo::models::{CreateTagRequest, CreateTaskRequest, Tag, TaskPriority, UpdateTagRequest};
use mytodo::text::{all_distinct, holds_text, same_text, sorts_before};

fn tag(db: &mut Database, name: &str, color: &str, now: i64) -> Result<Tag, DbError> {
    db.create_tag(CreateTagRequest { name: name.to_string(), color: color.to_string() }, now)
}

fn task_with(db: &mut Database, tags: &[&str]) -> i64 {
    db.create_task(
        CreateTaskRequest {
            title: "t".to_string(),
            description: None,
            due_date: None,
            priority: TaskPriority::Medium,
            tags: Some(tags.iter().map(|t| t.to_string()).collect()),
        },
        5,
    )
    .unwrap()
    .id
    .unwrap()
}

#[test]
fn created_tag_is_stored_under_the_next_id() {
    let mut db = Database::new().unwrap();
    let made = tag(&mut db, "work", "#ff0000", 42).unwrap();
    assert_eq!(
        made,
        Tag { id: Some(1), name: "work".to_string(), color: "#ff0000".to_string(), created_at: 42 }
    );
    assert_eq!(db.get_all_tags(), Ok(vec![made]));
    assert_eq!(tag(&mut db, "home", "#00ff00", 43).unwrap().id, Some(2));
}

#[test]
fn second_tag_of_the_same_name_conflicts() {
    let mut db = Database::new().unwrap();
    tag(&mut db, "work", "#ff0000", 42).unwrap();
    assert_eq!(tag(&mut db, "work", "#00ff00", 43), Err(DbError::Conflict));
    assert_eq!(db.get_all_tags().unwrap().len(), 1);
    assert_eq!(db.get_all_tags().unwrap()[0].color, "#ff0000");
    assert!(tag(&mut db, "Work", "#00ff00", 43).is_ok());
}

#[test]
fn tag_named_by_a_task_conflicts_with_a_later_creation() {
    let mut db = Database::new().unwrap();
    task_with(&mut db, &["work"]);
    assert_eq!(tag(&mut db, "work", "#00ff00", 43), Err(DbError::Conflict));
}

#[test]
fn exhausted_tag_counter_refuses_a_tag() {
    let mut full = Database::new().unwrap().snapshot();
    full.last_tag_id = i64::MAX;
    let mut db = Database::restore(full).unwrap();
    assert_eq!(tag(&mut db, "work", "#00ff00", 43), Err(DbError::StorageUnavailable));
}

#[test]
fn tags_are_listed_by_the_bytes_of_their_names() {
    let mut db = Database::new().unwrap();
    for name in ["b", "a", "B", "ab", "", "é", "z", "a b"] {
        tag(&mut db, name, "#000000", 1).unwrap();
    }
    let names: Vec<String> = db.get_all_tags().unwrap().into_iter().map(|t| t.name).collect();
    assert_eq!(names, vec!["", "B", "a", "a b", "ab", "b", "z", "é"]);
}

#[test]
fn tasks_bring_their_tags_into_being() {
    let mut db = Database::new().unwrap();
    tag(&mut db, "known", "#123456", 1).unwrap();
    task_with(&mut db, &["new", "known", "newer"]);
    let tags = db.get_all_tags().unwrap();
    assert_eq!(
        tags,
        vec![
            Tag { id: Some(1), name: "known".to_string(), color: "#123456".to_string(), created_at: 1 },
            Tag { id: Some(2), name: "new".to_string(), color: "#3b82f6".to_string(), created_at: 5 },
            Tag { id: Some(3), name: "newer".to_string(), color: "#3b82f6".to_string(), created_at: 5 },
        ]
    );
}

#[test]
fn update_without_fields_is_refused() {
    let mut db = Database::new().unwrap();
    tag(&mut db, "work", "#ff0000", 42).unwrap();
    let r = db.update_tag(UpdateTagRequest { id: 1, name: None, color: None });
    assert_eq!(r, Err(DbError::InvalidRequest));
    let r = db.update_tag(UpdateTagRequest { id: 9, name: None, color: None });
    assert_eq!(r, Err(DbError::InvalidRequest));
}

#[test]
fn update_of_an_absent_tag_fails() {
    let mut db = Database::new().unwrap();
    tag(&mut db, "work", "#ff0000", 42).unwrap();
    let r = db.update_tag(UpdateTagRequest { id: 2, name: Some("work".to_string()), color: None });
    assert_eq!(r, Err(DbError::NotFound));
}

#[test]
fn update_patches_what_the_request_holds() {
    let mut db = Database::new().unwrap();
    tag(&mut db, "work", "#ff0000", 42).unwrap();
    let r = db.update_tag(UpdateTagRequest { id: 1, name: None, color: Some("#0000ff".to_string()) });
    assert_eq!(
        r,
        Ok(Tag { id: Some(1), name: "work".to_string(), color: "#0000ff".to_string(), created_at: 42 })
    );
    let r = db.update_tag(UpdateTagRequest { id: 1, name: Some("job".to_string()), color: None });
    assert_eq!(
        r,
        Ok(Tag { id: Some(1), name: "job".to_string(), color: "#0000ff".to_string(), created_at: 42 })
    );
    assert_eq!(db.get_all_tags().unwrap()[0].name, "job");
}

#[test]
fn a_tag_cannot_take_the_name_of_another() {
    let mut db = Database::new().unwrap();
    tag(&mut db, "work", "#ff0000", 42).unwrap();
    tag(&mut db, "home", "#ff0000", 42).unwrap();
    let r = db.update_tag(UpdateTagRequest { id: 2, name: Some("work".to_string()), color: None });
    assert_eq!(r, Err(DbError::Conflict));
    let r = db.update_tag(UpdateTagRequest {
        id: 2,
        name: Some("home".to_string()),
        color: Some("#111111".to_string()),
    });
    assert_eq!(r.unwrap().color, "#111111");
}

#[test]
fn a_tag_in_use_keeps_its_name() {
    let mut db = Database::new().unwrap();
    task_with(&mut db, &["work"]);
    let before = db.snapshot();
    let r = db.update_tag(UpdateTagRequest { id: 1, name: Some("job".to_string()), color: None });
    assert_eq!(r, Err(DbError::Conflict));
    assert_eq!(db.snapshot(), before);
    let r = db.update_tag(UpdateTagRequest {
        id: 1,
        name: Some("work".to_string()),
        color: Some("#222222".to_string()),
    });
    assert_eq!(r.unwrap().color, "#222222");
}

#[test]
fn deleting_a_tag_takes_it_off_every_task() {
    let mut db = Database::new().unwrap();
    let a = task_with(&mut db, &["x", "y"]);
    let b = task_with(&mut db, &["y", "z"]);
    assert_eq!(db.delete_tag(2), Ok(()));
    assert_eq!(db.get_task_tags(a), Ok(vec!["x".to_string()]));
    assert_eq!(db.get_task_tags(b), Ok(vec!["z".to_string()]));
    let names: Vec<String> = db.get_all_tags().unwrap().into_iter().map(|t| t.name).collect();
    assert_eq!(names, vec!["x".to_string(), "z".to_string()]);
    assert_eq!(db.delete_tag(2), Ok(()));
    assert!(db.snapshot().is_well_formed());
    assert_eq!(tag(&mut db, "y", "#000000", 1).unwrap().id, Some(4));
}

#[test]
fn texts_compare_by_characters_and_bytes() {
    assert!(same_text("abc", "abc"));
    assert!(!same_text("abc", "abd"));
    assert!(!same_text("abc", "ab"));
    assert!(same_text("", ""));
    assert!(same_text("日本", "日本"));
    assert!(sorts_before("", "a"));
    assert!(!sorts_before("a", ""));
    assert!(!sorts_before("a", "a"));
    assert!(sorts_before("a", "ab"));
    assert!(sorts_before("ab", "b"));
    assert!(sorts_before("Z", "a"));
    assert!(sorts_before("z", "é"));
    assert!(!sorts_before("é", "z"));
    let list = vec!["a".to_string(), "b".to_string()];
    assert!(holds_text(&list, "b"));
    assert!(!holds_text(&list, "c"));
    assert!(all_distinct(&list));
    assert!(!all_distinct(&vec!["a".to_string(), "b".to_string(), "a".to_string()]));
    assert!(all_distinct(&Vec::new()));
}
