//! The records that the store keeps and hands out, the requests that
//! change them, and the mathematical view of each.
//!
//! Instants are whole seconds since the Unix epoch, in UTC.

use crate::text::same_text;
use vstd::prelude::*;
use vstd::std_specs::convert::FromSpecImpl;

verus! {

/// How urgent a task is. Stored and exchanged as 0, 1 or 2.
#[derive(Clone, Copy, Debug, PartialEq, Eq, Structural)]
pub enum TaskPriority {
    Low,
    Medium,
    High,
}

impl TaskPriority {
    /// The number that stands for this priority: 0, 1 or 2.
    pub open spec fn level(self) -> int {
        match self {
            TaskPriority::Low => 0,
            TaskPriority::Medium => 1,
            TaskPriority::High => 2,
        }
    }

    /// The priority that a stored number stands for. Numbers other than
    /// 0, 1 and 2 are read as `Medium`.
    pub open spec fn of_level(value: int) -> TaskPriority {
        if value == 0 {
            TaskPriority::Low
        } else if value == 2 {
            TaskPriority::High
        } else {
            TaskPriority::Medium
        }
    }
}

impl From<i32> for TaskPriority {
    fn from(value: i32) -> (r: TaskPriority) {
        match value {
            0 => TaskPriority::Low,
            1 => TaskPriority::Medium,
            2 => TaskPriority::High,
            _ => TaskPriority::Medium,
        }
    }
}

impl FromSpecImpl<i32> for TaskPriority {
    open spec fn obeys_from_spec() -> bool {
        true
    }

    open spec fn from_spec(value: i32) -> TaskPriority {
        TaskPriority::of_level(value as int)
    }
}

impl From<TaskPriority> for i32 {
    fn from(value: TaskPriority) -> (r: i32) {
        match value {
            TaskPriority::Low => 0,
            TaskPriority::Medium => 1,
            TaskPriority::High => 2,
        }
    }
}

impl FromSpecImpl<TaskPriority> for i32 {
    open spec fn obeys_from_spec() -> bool {
        true
    }

    open spec fn from_spec(value: TaskPriority) -> i32 {
        value.level() as i32
    }
}

/// A task as callers see it: the stored row together with the names of
/// the tags attached to it.
#[derive(Clone, Debug, PartialEq, Eq)]
pub struct Task {
    /// Assigned by the store; absent before the task is stored.
    pub id: Option<i64>,
    pub title: String,
    pub description: String,
    pub due_date: Option<i64>,
    pub priority: TaskPriority,
    pub is_completed: bool,
    pub created_at: i64,
    pub tags: Vec<String>,
    pub sort_order: i64,
}

/// The mathematical value of a [`Task`].
pub struct TaskView {
    pub id: Option<i64>,
    pub title: Seq<char>,
    pub description: Seq<char>,
    pub due_date: Option<i64>,
    pub priority: TaskPriority,
    pub is_completed: bool,
    pub created_at: i64,
    pub tags: Seq<Seq<char>>,
    pub sort_order: i64,
}

impl View for Task {
    type V = TaskView;

    open spec fn view(&self) -> TaskView {
        TaskView {
            id: self.id,
            title: self.title@,
            description: self.description@,
            due_date: self.due_date,
            priority: self.priority,
            is_completed: self.is_completed,
            created_at: self.created_at,
            tags: self.tags.deep_view(),
            sort_order: self.sort_order,
        }
    }
}

impl DeepView for Task {
    type V = TaskView;

    open spec fn deep_view(&self) -> TaskView {
        self@
    }
}

/// One row of the task table: a task without its tags.
#[derive(Clone, Debug, PartialEq, Eq)]
pub struct TaskRow {
    pub id: i64,
    pub title: String,
    pub description: String,
    pub due_date: Option<i64>,
    pub priority: TaskPriority,
    pub is_completed: bool,
    pub created_at: i64,
    pub sort_order: i64,
}

/// The mathematical value of a [`TaskRow`].
pub struct TaskRowView {
    pub id: i64,
    pub title: Seq<char>,
    pub description: Seq<char>,
    pub due_date: Option<i64>,
    pub priority: TaskPriority,
    pub is_completed: bool,
    pub created_at: i64,
    pub sort_order: i64,
}

impl TaskRowView {
    /// The task that this row and the given tag names make up.
    pub open spec fn with_tags(self, tags: Seq<Seq<char>>) -> TaskView {
        TaskView {
            id: Some(self.id),
            title: self.title,
            description: self.description,
            due_date: self.due_date,
            priority: self.priority,
            is_completed: self.is_completed,
            created_at: self.created_at,
            tags,
            sort_order: self.sort_order,
        }
    }
}

impl View for TaskRow {
    type V = TaskRowView;

    open spec fn view(&self) -> TaskRowView {
        TaskRowView {
            id: self.id,
            title: self.title@,
            description: self.description@,
            due_date: self.due_date,
            priority: self.priority,
            is_completed: self.is_completed,
            created_at: self.created_at,
            sort_order: self.sort_order,
        }
    }
}

impl DeepView for TaskRow {
    type V = TaskRowView;

    open spec fn deep_view(&self) -> TaskRowView {
        self@
    }
}

/// One row of the association table: the named tag is attached to the task.
#[derive(Clone, Debug, PartialEq, Eq)]
pub struct TaskTag {
    pub task_id: i64,
    pub tag_name: String,
}

/// The mathematical value of a [`TaskTag`].
pub struct TaskTagView {
    pub task_id: i64,
    pub tag_name: Seq<char>,
}

impl View for TaskTag {
    type V = TaskTagView;

    open spec fn view(&self) -> TaskTagView {
        TaskTagView { task_id: self.task_id, tag_name: self.tag_name@ }
    }
}

impl DeepView for TaskTag {
    type V = TaskTagView;

    open spec fn deep_view(&self) -> TaskTagView {
        self@
    }
}

/// A named, coloured label.
#[derive(Clone, Debug, PartialEq, Eq)]
pub struct Tag {
    /// Assigned by the store; absent before the tag is stored.
    pub id: Option<i64>,
    pub name: String,
    pub color: String,
    pub created_at: i64,
}

/// The mathematical value of a [`Tag`].
pub struct TagView {
    pub id: Option<i64>,
    pub name: Seq<char>,
    pub color: Seq<char>,
    pub created_at: i64,
}

impl View for Tag {
    type V = TagView;

    open spec fn view(&self) -> TagView {
        TagView { id: self.id, name: self.name@, color: self.color@, created_at: self.created_at }
    }
}

impl DeepView for Tag {
    type V = TagView;

    open spec fn deep_view(&self) -> TagView {
        self@
    }
}

/// What a new task is made from.
#[derive(Clone, Debug, PartialEq, Eq)]
pub struct CreateTaskRequest {
    pub title: String,
    pub description: Option<String>,
    pub due_date: Option<i64>,
    pub priority: TaskPriority,
    pub tags: Option<Vec<String>>,
}

/// The mathematical value of a [`CreateTaskRequest`].
pub struct CreateTaskRequestView {
    pub title: Seq<char>,
    pub description: Option<Seq<char>>,
    pub due_date: Option<i64>,
    pub priority: TaskPriority,
    pub tags: Option<Seq<Seq<char>>>,
}

impl View for CreateTaskRequest {
    type V = CreateTaskRequestView;

    open spec fn view(&self) -> CreateTaskRequestView {
        CreateTaskRequestView {
            title: self.title@,
            description: self.description.deep_view(),
            due_date: self.due_date,
            priority: self.priority,
            tags: self.tags.deep_view(),
        }
    }
}

/// A partial change to a task: each field that is present replaces the
/// stored one.
#[derive(Clone, Debug, PartialEq, Eq)]
pub struct UpdateTaskRequest {
    pub id: i64,
    pub title: Option<String>,
    pub description: Option<String>,
    pub due_date: Option<i64>,
    pub priority: Option<TaskPriority>,
    pub is_completed: Option<bool>,
    pub tags: Option<Vec<String>>,
}

/// The mathematical value of an [`UpdateTaskRequest`].
pub struct UpdateTaskRequestView {
    pub id: i64,
    pub title: Option<Seq<char>>,
    pub description: Option<Seq<char>>,
    pub due_date: Option<i64>,
    pub priority: Option<TaskPriority>,
    pub is_completed: Option<bool>,
    pub tags: Option<Seq<Seq<char>>>,
}

impl View for UpdateTaskRequest {
    type V = UpdateTaskRequestView;

    open spec fn view(&self) -> UpdateTaskRequestView {
        UpdateTaskRequestView {
            id: self.id,
            title: self.title.deep_view(),
            description: self.description.deep_view(),
            due_date: self.due_date,
            priority: self.priority,
            is_completed: self.is_completed,
            tags: self.tags.deep_view(),
        }
    }
}

/// One assignment of a display position to a task.
#[derive(Clone, Copy, Debug, PartialEq, Eq, Structural)]
pub struct TaskOrderItem {
    pub id: i64,
    pub sort_order: i64,
}

/// A batch of display positions, applied in the order given.
#[derive(Clone, Debug, PartialEq, Eq)]
pub struct UpdateTaskSortOrderRequest {
    pub task_orders: Vec<TaskOrderItem>,
}

/// What a new tag is made from.
#[derive(Clone, Debug, PartialEq, Eq)]
pub struct CreateTagRequest {
    pub name: String,
    pub color: String,
}

/// A partial change to a tag.
#[derive(Clone, Debug, PartialEq, Eq)]
pub struct UpdateTagRequest {
    pub id: i64,
    pub name: Option<String>,
    pub color: Option<String>,
}

/// What happens when the main window is asked to close. Stored and
/// exchanged as `exit`, `minimize` or `ask`.
#[derive(Clone, Copy, Debug, PartialEq, Eq, Structural)]
pub enum CloseBehavior {
    Exit,
    Minimize,
    Ask,
}

impl CloseBehavior {
    /// The word that stands for this behaviour.
    pub open spec fn code(self) -> Seq<char> {
        match self {
            CloseBehavior::Exit => "exit"@,
            CloseBehavior::Minimize => "minimize"@,
            CloseBehavior::Ask => "ask"@,
        }
    }

    /// The behaviour that a stored word stands for. Words other than
    /// `exit` and `minimize` are read as `Ask`.
    pub open spec fn of_code(code: Seq<char>) -> CloseBehavior {
        if code == "exit"@ {
            CloseBehavior::Exit
        } else if code == "minimize"@ {
            CloseBehavior::Minimize
        } else {
            CloseBehavior::Ask
        }
    }

    /// The word that stands for this behaviour.
    pub fn as_str(&self) -> (r: &'static str)
        ensures
            r@ == self.code(),
    {
        match self {
            CloseBehavior::Exit => "exit",
            CloseBehavior::Minimize => "minimize",
            CloseBehavior::Ask => "ask",
        }
    }

    /// The behaviour that a stored word stands for.
    pub fn from_code(code: &str) -> (r: CloseBehavior)
        ensures
            r == CloseBehavior::of_code(code@),
    {
        if same_text(code, "exit") {
            CloseBehavior::Exit
        } else if same_text(code, "minimize") {
            CloseBehavior::Minimize
        } else {
            CloseBehavior::Ask
        }
    }

    /// Reading back the word of a behaviour gives that behaviour.
    pub proof fn law_code_round_trip(self)
        ensures
            CloseBehavior::of_code(self.code()) == self,
    {
        reveal_strlit("exit");
        reveal_strlit("minimize");
        reveal_strlit("ask");
        assert("exit"@.len() == 4);
        assert("minimize"@.len() == 8);
        assert("ask"@.len() == 3);
    }
}

/// How the application starts. Stored and exchanged as `normal` or
/// `minimized`.
#[derive(Clone, Copy, Debug, PartialEq, Eq, Structural)]
pub enum StartupBehavior {
    Normal,
    Minimized,
}

impl StartupBehavior {
    /// The word that stands for this behaviour.
    pub open spec fn code(self) -> Seq<char> {
        match self {
            StartupBehavior::Normal => "normal"@,
            StartupBehavior::Minimized => "minimized"@,
        }
    }

    /// The behaviour that a stored word stands for. Words other than
    /// `minimized` are read as `Normal`.
    pub open spec fn of_code(code: Seq<char>) -> StartupBehavior {
        if code == "minimized"@ {
            StartupBehavior::Minimized
        } else {
            StartupBehavior::Normal
        }
    }

    /// The word that stands for this behaviour.
    pub fn as_str(&self) -> (r: &'static str)
        ensures
            r@ == self.code(),
    {
        match self {
            StartupBehavior::Normal => "normal",
            StartupBehavior::Minimized => "minimized",
        }
    }

    /// The behaviour that a stored word stands for.
    pub fn from_code(code: &str) -> (r: StartupBehavior)
        ensures
            r == StartupBehavior::of_code(code@),
    {
        if same_text(code, "minimized") {
            StartupBehavior::Minimized
        } else {
            StartupBehavior::Normal
        }
    }

    /// Reading back the word of a behaviour gives that behaviour.
    pub proof fn law_code_round_trip(self)
        ensures
            StartupBehavior::of_code(self.code()) == self,
    {
        reveal_strlit("normal");
        reveal_strlit("minimized");
        assert("normal"@.len() == 6);
        assert("minimized"@.len() == 9);
    }
}

/// The application's settings: one record for the whole store.
#[derive(Clone, Debug, PartialEq, Eq)]
pub struct AppSettings {
    pub close_behavior: CloseBehavior,
    pub notifications_enabled: bool,
    /// Minutes before a due date at which to remind.
    pub notification_time_before: i32,
    pub startup_behavior: StartupBehavior,
    pub theme: String,
}

/// The mathematical value of [`AppSettings`].
pub struct AppSettingsView {
    pub close_behavior: CloseBehavior,
    pub notifications_enabled: bool,
    pub notification_time_before: i32,
    pub startup_behavior: StartupBehavior,
    pub theme: Seq<char>,
}

impl View for AppSettings {
    type V = AppSettingsView;

    open spec fn view(&self) -> AppSettingsView {
        AppSettingsView {
            close_behavior: self.close_behavior,
            notifications_enabled: self.notifications_enabled,
            notification_time_before: self.notification_time_before,
            startup_behavior: self.startup_behavior,
            theme: self.theme@,
        }
    }
}

impl DeepView for AppSettings {
    type V = AppSettingsView;

    open spec fn deep_view(&self) -> AppSettingsView {
        self@
    }
}

impl AppSettingsView {
    /// The settings of a store that has never been configured.
    pub open spec fn initial() -> AppSettingsView {
        AppSettingsView {
            close_behavior: CloseBehavior::Ask,
            notifications_enabled: true,
            notification_time_before: 15,
            startup_behavior: StartupBehavior::Normal,
            theme: "auto"@,
        }
    }
}

impl Default for AppSettings {
    fn default() -> (r: AppSettings)
        ensures
            r@ == AppSettingsView::initial(),
    {
        AppSettings {
            close_behavior: CloseBehavior::Ask,
            notifications_enabled: true,
            notification_time_before: 15,
            startup_behavior: StartupBehavior::Normal,
            theme: "auto".to_owned(),
        }
    }
}

/// A partial change to the settings.
#[derive(Clone, Debug, PartialEq, Eq)]
pub struct UpdateSettingsRequest {
    pub close_behavior: Option<CloseBehavior>,
    pub notifications_enabled: Option<bool>,
    pub notification_time_before: Option<i32>,
    pub startup_behavior: Option<StartupBehavior>,
    pub theme: Option<String>,
}

} // verus!
