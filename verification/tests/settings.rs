use mytodo::commands::{handle_close_request, update_tasks_sort_order};
use mytodo::database::Database;
use mytodo::error::DbError;
use mytodo::models::{
    AppSettings, CloseBehavior, CreateTaskRequest, StartupBehavior, TaskOrderItem, TaskPriority,
    UpdateSettingsRequest, UpdateTaskSortOrderRequest,
};

fn nothing() -> UpdateSettingsRequest {
    UpdateSettingsRequest {
        close_behavior: None,
        notifications_enabled: None,
        notification_time_before: None,
        startup_behavior: None,
        theme: None,
    }
}

#[test]
fn initial_settings_are_the_defaults() {
    let db = Database::new().unwrap();
    let defaults = AppSettings {
        close_behavior: CloseBehavior::Ask,
        notifications_enabled: true,
        notification_time_before: 15,
        startup_behavior: StartupBehavior::Normal,
        theme: "auto".to_string(),
    };
    assert_eq!(AppSettings::default(), defaults);
    assert_eq!(db.get_app_settings(), Ok(defaults));
}

#[test]
fn changing_the_theme_leaves_the_rest() {
    let mut db = Database::new().unwrap();
    let mut first = nothing();
    first.close_behavior = Some(CloseBehavior::Minimize);
    first.notifications_enabled = Some(false);
    first.notification_time_before = Some(45);
    first.startup_behavior = Some(StartupBehavior::Minimized);
    db.update_app_settings(first).unwrap();
    let mut second = nothing();
    second.theme = Some("dark".to_string());
    let expected = AppSettings {
        close_behavior: CloseBehavior::Minimize,
        notifications_enabled: false,
        notification_time_before: 45,
        startup_behavior: StartupBehavior::Minimized,
        theme: "dark".to_string(),
    };
    assert_eq!(db.update_app_settings(second), Ok(expected.clone()));
    assert_eq!(db.get_app_settings(), Ok(expected.clone()));
    assert_eq!(db.update_app_settings(nothing()), Ok(expected));
}

#[test]
fn settings_fall_back_to_defaults_and_are_stored_on_change() {
    let mut bare = Database::new().unwrap().snapshot();
    bare.settings = None;
    assert!(bare.is_well_formed());
    let mut db = Database::restore(bare).unwrap();
    assert_eq!(db.get_app_settings(), Ok(AppSettings::default()));
    let mut change = nothing();
    change.notification_time_before = Some(-3);
    let stored = db.update_app_settings(change).unwrap();
    assert_eq!(stored.notification_time_before, -3);
    assert_eq!(stored.theme, "auto");
    assert_eq!(db.snapshot().settings, Some(stored));
}

#[test]
fn behaviours_are_stored_as_words() {
    assert_eq!(CloseBehavior::Exit.as_str(), "exit");
    assert_eq!(CloseBehavior::Minimize.as_str(), "minimize");
    assert_eq!(CloseBehavior::Ask.as_str(), "ask");
    assert_eq!(CloseBehavior::from_code("exit"), CloseBehavior::Exit);
    assert_eq!(CloseBehavior::from_code("minimize"), CloseBehavior::Minimize);
    assert_eq!(CloseBehavior::from_code("ask"), CloseBehavior::Ask);
    assert_eq!(CloseBehavior::from_code("Exit"), CloseBehavior::Ask);
    assert_eq!(CloseBehavior::from_code(""), CloseBehavior::Ask);
    assert_eq!(StartupBehavior::Normal.as_str(), "normal");
    assert_eq!(StartupBehavior::Minimized.as_str(), "minimized");
    assert_eq!(StartupBehavior::from_code("minimized"), StartupBehavior::Minimized);
    assert_eq!(StartupBehavior::from_code("normal"), StartupBehavior::Normal);
    assert_eq!(StartupBehavior::from_code("tray"), StartupBehavior::Normal);
}

#[test]
fn close_request_gives_the_word_of_the_behaviour_in_force() {
    let mut db = Database::new().unwrap();
    assert_eq!(handle_close_request(&db), Ok("ask".to_string()));
    let mut change = nothing();
    change.close_behavior = Some(CloseBehavior::Exit);
    db.update_app_settings(change).unwrap();
    assert_eq!(handle_close_request(&db), Ok("exit".to_string()));
    let mut change = nothing();
    change.close_behavior = Some(CloseBehavior::Minimize);
    db.update_app_settings(change).unwrap();
    assert_eq!(handle_close_request(&db), Ok("minimize".to_string()));
}

#[test]
fn reorder_request_is_applied_item_by_item() {
    let mut db = Database::new().unwrap();
    for title in ["a", "b"] {
        db.create_task(
            CreateTaskRequest {
                title: title.to_string(),
                description: None,
                due_date: None,
                priority: TaskPriority::Low,
                tags: None,
            },
            1,
        )
        .unwrap();
    }
    let request = UpdateTaskSortOrderRequest {
        task_orders: vec![
            TaskOrderItem { id: 2, sort_order: 1 },
            TaskOrderItem { id: 1, sort_order: 2 },
        ],
    };
    assert_eq!(request.assignments(), vec![(2, 1), (1, 2)]);
    assert_eq!(update_tasks_sort_order(&mut db, request), Ok(()));
    let all = db.get_all_tasks().unwrap();
    assert_eq!(all[0].title, "b");
    assert_eq!(all[1].title, "a");
}

#[test]
fn every_failure_has_its_own_message() {
    assert_eq!(DbError::NotFound.message(), "not found");
    assert_eq!(DbError::InvalidRequest.message(), "invalid request");
    assert_eq!(DbError::Conflict.message(), "conflict");
    assert_eq!(DbError::StorageUnavailable.message(), "storage unavailable");
    assert_eq!(DbError::SerializationError.message(), "serialization error");
}
