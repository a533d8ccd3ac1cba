//! The mathematical model of the store: the three tables, the settings
//! record and the two id counters, with every operation written as a
//! function from one state to the next.

use crate::error::DbError;
use crate::instant::due_within;
use crate::models::{
    AppSettingsView, CreateTaskRequestView, TagView, TaskPriority, TaskRowView,
    TaskTagView, TaskView, UpdateTaskRequestView,
};
use crate::text::text_before;
use vstd::prelude::*;

verus! {

/// The colour of a tag that comes into being because a task names it.
pub open spec fn default_tag_color() -> Seq<char> {
    "#3b82f6"@
}

/// The associations of task `id`.
pub open spec fn of_task(id: i64) -> spec_fn(TaskTagView) -> bool {
    |l: TaskTagView| l.task_id == id
}

/// The associations of every task but `id`.
pub open spec fn not_of_task(id: i64) -> spec_fn(TaskTagView) -> bool {
    |l: TaskTagView| l.task_id != id
}

/// The associations that name any tag but `name`.
pub open spec fn not_naming(name: Seq<char>) -> spec_fn(TaskTagView) -> bool {
    |l: TaskTagView| l.tag_name != name
}

/// The tag name of an association.
pub open spec fn name_of_link() -> spec_fn(TaskTagView) -> Seq<char> {
    |l: TaskTagView| l.tag_name
}

/// The association of task `id` with the tag `name`.
pub open spec fn link_to(id: i64) -> spec_fn(Seq<char>) -> TaskTagView {
    |name: Seq<char>| TaskTagView { task_id: id, tag_name: name }
}

/// The tags that come into being for `names` at `now`: each with the
/// default colour, numbered on from `last_id`.
pub open spec fn numbered_tags(names: Seq<Seq<char>>, last_id: i64, now: i64) -> Seq<TagView> {
    Seq::new(
        names.len(),
        |k: int|
            TagView {
                id: Some((last_id + 1 + k) as i64),
                name: names[k],
                color: default_tag_color(),
                created_at: now,
            },
    )
}

/// The tag list of a request: an absent list is an empty one.
pub open spec fn requested_tags(tags: Option<Seq<Seq<char>>>) -> Seq<Seq<char>> {
    match tags {
        Some(names) => names,
        None => Seq::empty(),
    }
}

/// The greatest display position among the rows, or 0 where there is none.
pub open spec fn max_sort_order(tasks: Seq<TaskRowView>) -> int
    decreases tasks.len(),
{
    if tasks.len() == 0 {
        0
    } else if tasks.len() == 1 {
        tasks[0].sort_order as int
    } else {
        let rest = max_sort_order(tasks.drop_last());
        if tasks.last().sort_order > rest {
            tasks.last().sort_order as int
        } else {
            rest
        }
    }
}

/// The display position that the last assignment for `id` among `orders`
/// gives, if there is one. An assignment is a task id and a position.
pub open spec fn last_assignment(orders: Seq<(i64, i64)>, id: i64) -> Option<i64>
    decreases orders.len(),
{
    if orders.len() == 0 {
        None
    } else if orders.last().0 == id {
        Some(orders.last().1)
    } else {
        last_assignment(orders.drop_last(), id)
    }
}

/// The row at the display position that the assignments give it: that of
/// the last assignment that names it, or its own where none does.
pub open spec fn reordered_row(row: TaskRowView, orders: Seq<(i64, i64)>) -> TaskRowView {
    match last_assignment(orders, row.id) {
        Some(position) => TaskRowView { sort_order: position, ..row },
        None => row,
    }
}

/// Row `a` was created no later than row `b`; rows created in the same
/// second go by their ids.
pub open spec fn created_no_later(a: TaskRowView, b: TaskRowView) -> bool {
    a.created_at < b.created_at || (a.created_at == b.created_at && a.id <= b.id)
}

/// The rows created no later than `row`.
pub open spec fn no_later_than(row: TaskRowView) -> spec_fn(TaskRowView) -> bool {
    |other: TaskRowView| created_no_later(other, row)
}

/// The rank of `row` among `tasks` by creation time, counting from 1.
pub open spec fn creation_rank(tasks: Seq<TaskRowView>, row: TaskRowView) -> int {
    tasks.filter(no_later_than(row)).len() as int
}

/// The row at the display position that is its rank among `tasks` by
/// creation time.
pub open spec fn ranked_row(tasks: Seq<TaskRowView>, row: TaskRowView) -> TaskRowView {
    TaskRowView { sort_order: creation_rank(tasks, row) as i64, ..row }
}

/// The place of a due date in ascending order: a task without one comes
/// before every task with one.
pub open spec fn due_key(due: Option<i64>) -> int {
    match due {
        Some(t) => t as int,
        None => i64::MIN - 1,
    }
}

/// Which tasks a listing holds.
#[derive(Clone, Copy, Debug, PartialEq, Eq, Structural)]
pub enum TaskFilter {
    /// Every task.
    All,
    /// The tasks due from `first` to `last`, both included.
    DueBetween { first: i64, last: i64 },
    /// The completed tasks.
    Completed,
    /// The open tasks that were due before `now`.
    Overdue { now: i64 },
    /// The open tasks due after `now` and at most `minutes_ahead` minutes
    /// after it.
    Upcoming { now: i64, minutes_ahead: i32 },
}

impl TaskFilter {
    /// The listing holds the task of this row.
    pub open spec fn admits(self, row: TaskRowView) -> bool {
        match self {
            TaskFilter::All => true,
            TaskFilter::DueBetween { first, last } => row.due_date matches Some(due) && first <= due
                <= last,
            TaskFilter::Completed => row.is_completed,
            TaskFilter::Overdue { now } => !row.is_completed && (row.due_date matches Some(due)
                && due < now),
            TaskFilter::Upcoming { now, minutes_ahead } => !row.is_completed && (
            row.due_date matches Some(due) && due_within(now, minutes_ahead, due)),
        }
    }
}

/// In which order a listing holds its tasks. Tasks that the stated keys
/// do not tell apart go by ascending id.
#[derive(Clone, Copy, Debug, PartialEq, Eq, Structural)]
pub enum TaskOrder {
    /// Ascending display position, then latest creation first.
    BySortOrder,
    /// Highest priority first, then ascending due date.
    ByPriority,
    /// Latest creation first.
    ByCreation,
    /// Ascending due date.
    ByDueDate,
}

impl TaskOrder {
    /// Row `a` stands before row `b` in this order.
    pub open spec fn places_before(self, a: TaskRowView, b: TaskRowView) -> bool {
        match self {
            TaskOrder::BySortOrder => a.sort_order < b.sort_order || (a.sort_order == b.sort_order
                && (a.created_at > b.created_at || (a.created_at == b.created_at && a.id < b.id))),
            TaskOrder::ByPriority => a.priority.level() > b.priority.level() || (a.priority
                == b.priority && (due_key(a.due_date) < due_key(b.due_date) || (a.due_date
                == b.due_date && a.id < b.id))),
            TaskOrder::ByCreation => a.created_at > b.created_at || (a.created_at == b.created_at
                && a.id < b.id),
            TaskOrder::ByDueDate => due_key(a.due_date) < due_key(b.due_date) || (a.due_date
                == b.due_date && a.id < b.id),
        }
    }
}

/// The row that a partial change leaves: each field that the request
/// holds replaces the stored one; id, creation time and display position
/// stay.
pub open spec fn merged_row(row: TaskRowView, req: UpdateTaskRequestView) -> TaskRowView {
    TaskRowView {
        id: row.id,
        title: match req.title {
            Some(t) => t,
            None => row.title,
        },
        description: match req.description {
            Some(d) => d,
            None => row.description,
        },
        due_date: match req.due_date {
            Some(d) => Some(d),
            None => row.due_date,
        },
        priority: match req.priority {
            Some(p) => p,
            None => row.priority,
        },
        is_completed: match req.is_completed {
            Some(c) => c,
            None => row.is_completed,
        },
        created_at: row.created_at,
        sort_order: row.sort_order,
    }
}

/// The row with its completion flag flipped.
pub open spec fn toggled_row(row: TaskRowView) -> TaskRowView {
    TaskRowView { is_completed: !row.is_completed, ..row }
}

/// The tag that a partial change leaves.
pub open spec fn patched_tag(
    tag: TagView,
    name: Option<Seq<char>>,
    color: Option<Seq<char>>,
) -> TagView {
    TagView {
        id: tag.id,
        name: match name {
            Some(n) => n,
            None => tag.name,
        },
        color: match color {
            Some(c) => c,
            None => tag.color,
        },
        created_at: tag.created_at,
    }
}

/// The settings that a partial change leaves.
pub open spec fn merged_settings(
    current: AppSettingsView,
    close_behavior: Option<crate::models::CloseBehavior>,
    notifications_enabled: Option<bool>,
    notification_time_before: Option<i32>,
    startup_behavior: Option<crate::models::StartupBehavior>,
    theme: Option<Seq<char>>,
) -> AppSettingsView {
    AppSettingsView {
        close_behavior: match close_behavior {
            Some(v) => v,
            None => current.close_behavior,
        },
        notifications_enabled: match notifications_enabled {
            Some(v) => v,
            None => current.notifications_enabled,
        },
        notification_time_before: match notification_time_before {
            Some(v) => v,
            None => current.notification_time_before,
        },
        startup_behavior: match startup_behavior {
            Some(v) => v,
            None => current.startup_behavior,
        },
        theme: match theme {
            Some(v) => v,
            None => current.theme,
        },
    }
}

/// The request that brings an exchanged task record into a store: title,
/// description, due date, priority and tags are taken over; id,
/// completion, creation time and display position are not.
pub open spec fn import_request(record: TaskView) -> CreateTaskRequestView {
    CreateTaskRequestView {
        title: record.title,
        description: Some(record.description),
        due_date: record.due_date,
        priority: record.priority,
        tags: Some(record.tags),
    }
}

/// The state of a store.
pub struct DatabaseView {
    /// The task table.
    pub tasks: Seq<TaskRowView>,
    /// The tag table.
    pub tags: Seq<TagView>,
    /// The association table.
    pub task_tags: Seq<TaskTagView>,
    /// The settings record, if there is one.
    pub settings: Option<AppSettingsView>,
    /// Whether the task table has its display-position column.
    pub has_sort_order: bool,
    /// The greatest task id handed out so far.
    pub last_task_id: i64,
    /// The greatest tag id handed out so far.
    pub last_tag_id: i64,
}

impl DatabaseView {
    /// A store that holds nothing and has never been initialized.
    pub open spec fn empty() -> DatabaseView {
        DatabaseView {
            tasks: Seq::empty(),
            tags: Seq::empty(),
            task_tags: Seq::empty(),
            settings: None,
            has_sort_order: false,
            last_task_id: 0,
            last_tag_id: 0,
        }
    }

    /// A task with this id is stored.
    pub open spec fn has_task(self, id: i64) -> bool {
        exists|i: int| 0 <= i < self.tasks.len() && (#[trigger] self.tasks[i]).id == id
    }

    /// Where the task with this id stands in the task table.
    pub open spec fn task_position(self, id: i64) -> int {
        choose|i: int| 0 <= i < self.tasks.len() && (#[trigger] self.tasks[i]).id == id
    }

    /// The row of the task with this id.
    pub open spec fn task_row(self, id: i64) -> TaskRowView {
        self.tasks[self.task_position(id)]
    }

    /// The names of the tags attached to the task, in the order in which
    /// they were attached.
    pub open spec fn tag_names_of(self, id: i64) -> Seq<Seq<char>> {
        self.task_tags.filter(of_task(id)).map_values(name_of_link())
    }

    /// The task with this id as callers see it.
    pub open spec fn task(self, id: i64) -> TaskView {
        self.task_row(id).with_tags(self.tag_names_of(id))
    }

    /// A tag with this id is stored.
    pub open spec fn has_tag(self, id: i64) -> bool {
        exists|i: int| 0 <= i < self.tags.len() && (#[trigger] self.tags[i]).id == Some(id)
    }

    /// Where the tag with this id stands in the tag table.
    pub open spec fn tag_position(self, id: i64) -> int {
        choose|i: int| 0 <= i < self.tags.len() && (#[trigger] self.tags[i]).id == Some(id)
    }

    /// The tag with this id.
    pub open spec fn tag(self, id: i64) -> TagView {
        self.tags[self.tag_position(id)]
    }

    /// A tag with this name is stored.
    pub open spec fn has_tag_name(self, name: Seq<char>) -> bool {
        exists|i: int| 0 <= i < self.tags.len() && (#[trigger] self.tags[i]).name == name
    }

    /// Some task carries the tag with this name.
    pub open spec fn tag_in_use(self, name: Seq<char>) -> bool {
        exists|i: int|
            0 <= i < self.task_tags.len() && (#[trigger] self.task_tags[i]).tag_name == name
    }

    /// The rules that every state of a store keeps:
    /// task ids are unique and none exceeds the task counter, which also
    /// bounds the number of tasks; the same holds of tags, whose names are
    /// unique as well; no association occurs twice, and each one joins a
    /// stored task to a stored tag.
    pub open spec fn wf(self) -> bool {
        &&& forall|i: int, j: int|
            0 <= i < j < self.tasks.len() ==> (#[trigger] self.tasks[i]).id != (
            #[trigger] self.tasks[j]).id
        &&& forall|i: int|
            0 <= i < self.tasks.len() ==> (#[trigger] self.tasks[i]).id <= self.last_task_id
        &&& self.tasks.len() <= self.last_task_id
        &&& forall|i: int, j: int|
            0 <= i < j < self.tags.len() ==> (#[trigger] self.tags[i]).id != (
            #[trigger] self.tags[j]).id && self.tags[i].name != self.tags[j].name
        &&& forall|i: int|
            0 <= i < self.tags.len() ==> ((#[trigger] self.tags[i]).id matches Some(id) && id
                <= self.last_tag_id)
        &&& self.tags.len() <= self.last_tag_id
        &&& self.task_tags.no_duplicates()
        &&& forall|i: int|
            0 <= i < self.task_tags.len() ==> self.has_task((#[trigger] self.task_tags[i]).task_id)
                && self.has_tag_name(self.task_tags[i].tag_name)
    }

    /// The names that no stored tag bears.
    pub open spec fn lacks_tag(self) -> spec_fn(Seq<char>) -> bool {
        |name: Seq<char>| !self.has_tag_name(name)
    }

    /// Of the given names, those that no stored tag bears.
    pub open spec fn missing_tag_names(self, names: Seq<Seq<char>>) -> Seq<Seq<char>> {
        names.filter(self.lacks_tag())
    }

    /// The tag counter can number every tag that `names` would add.
    pub open spec fn can_number_tags(self, names: Seq<Seq<char>>) -> bool {
        self.last_tag_id + self.missing_tag_names(names).len() <= i64::MAX
    }

    /// The tags that come into being when `names` are attached at `now`:
    /// one for each name that no stored tag bears, in the order of
    /// `names`, numbered on from the tag counter.
    pub open spec fn implied_tags(self, names: Seq<Seq<char>>, now: i64) -> Seq<TagView> {
        numbered_tags(self.missing_tag_names(names), self.last_tag_id, now)
    }

    /// The state after the associations of task `id` have been replaced by
    /// `names`, and the tags that `names` imply have been added.
    pub open spec fn with_task_tags(
        self,
        id: i64,
        names: Seq<Seq<char>>,
        now: i64,
    ) -> DatabaseView {
        DatabaseView {
            tags: self.tags + self.implied_tags(names, now),
            last_tag_id: (self.last_tag_id + self.missing_tag_names(names).len()) as i64,
            task_tags: self.task_tags.filter(not_of_task(id)) + names.map_values(link_to(id)),
            ..self
        }
    }

    /// Why the associations of task `id` cannot be replaced by `names`.
    pub open spec fn set_task_tags_error(self, id: i64, names: Seq<Seq<char>>) -> Option<DbError> {
        if !self.has_task(id) {
            Some(DbError::NotFound)
        } else if !names.no_duplicates() {
            Some(DbError::InvalidRequest)
        } else if !self.can_number_tags(names) {
            Some(DbError::StorageUnavailable)
        } else {
            None
        }
    }

    /// Why a task cannot be created from the request.
    pub open spec fn create_task_error(self, req: CreateTaskRequestView) -> Option<DbError> {
        let names = requested_tags(req.tags);
        if !names.no_duplicates() {
            Some(DbError::InvalidRequest)
        } else if self.last_task_id == i64::MAX || max_sort_order(self.tasks) >= i64::MAX
            || !self.can_number_tags(names) {
            Some(DbError::StorageUnavailable)
        } else {
            None
        }
    }

    /// The row of the task that the request creates at `now`: the next id,
    /// the display position after the greatest one, not completed.
    pub open spec fn new_task_row(self, req: CreateTaskRequestView, now: i64) -> TaskRowView {
        TaskRowView {
            id: (self.last_task_id + 1) as i64,
            title: req.title,
            description: match req.description {
                Some(d) => d,
                None => Seq::empty(),
            },
            due_date: req.due_date,
            priority: req.priority,
            is_completed: false,
            created_at: now,
            sort_order: (max_sort_order(self.tasks) + 1) as i64,
        }
    }

    /// The state after `row` has been added to the task table and the
    /// task counter has moved on to its id.
    pub open spec fn with_row(self, row: TaskRowView) -> DatabaseView {
        DatabaseView { tasks: self.tasks.push(row), last_task_id: row.id, ..self }
    }

    /// The state after the row at position `at` has been replaced by `row`.
    pub open spec fn with_row_at(self, at: int, row: TaskRowView) -> DatabaseView {
        DatabaseView { tasks: self.tasks.update(at, row), ..self }
    }

    /// The state after the request has created its task at `now`.
    pub open spec fn create_task_state(self, req: CreateTaskRequestView, now: i64) -> DatabaseView {
        let row = self.new_task_row(req, now);
        self.with_row(row).with_task_tags(row.id, requested_tags(req.tags), now)
    }

    /// The state after one attempt to create a task: unchanged where the
    /// request is refused.
    pub open spec fn after_create(self, req: CreateTaskRequestView, now: i64) -> DatabaseView {
        if self.create_task_error(req) is None {
            self.create_task_state(req, now)
        } else {
            self
        }
    }

    /// Why the partial change cannot be applied.
    pub open spec fn update_task_error(self, req: UpdateTaskRequestView) -> Option<DbError> {
        let names = requested_tags(req.tags);
        if !self.has_task(req.id) {
            Some(DbError::NotFound)
        } else if !names.no_duplicates() {
            Some(DbError::InvalidRequest)
        } else if !self.can_number_tags(names) {
            Some(DbError::StorageUnavailable)
        } else {
            None
        }
    }

    /// The state after the partial change at `now`. A tag list that is
    /// absent or empty leaves the task's associations as they are.
    pub open spec fn update_task_state(self, req: UpdateTaskRequestView, now: i64) -> DatabaseView {
        let stored = self.with_row_at(
            self.task_position(req.id),
            merged_row(self.task_row(req.id), req),
        );
        let names = requested_tags(req.tags);
        if names.len() > 0 {
            stored.with_task_tags(req.id, names, now)
        } else {
            stored
        }
    }

    /// The state after the task with this id, if there is one, has been
    /// deleted together with its associations.
    pub open spec fn delete_task_state(self, id: i64) -> DatabaseView {
        if self.has_task(id) {
            DatabaseView {
                tasks: self.tasks.remove(self.task_position(id)),
                task_tags: self.task_tags.filter(not_of_task(id)),
                ..self
            }
        } else {
            self
        }
    }

    /// The state after the completion flag of the task has been flipped.
    pub open spec fn toggle_state(self, id: i64) -> DatabaseView {
        self.with_row_at(self.task_position(id), toggled_row(self.task_row(id)))
    }

    /// The state after the assignments have been applied in order: each
    /// task takes the display position of the last assignment that names
    /// it; an assignment that names no stored task changes nothing.
    pub open spec fn reorder_state(self, orders: Seq<(i64, i64)>) -> DatabaseView {
        DatabaseView {
            tasks: Seq::new(self.tasks.len(), |i: int| reordered_row(self.tasks[i], orders)),
            ..self
        }
    }

    /// The state after every task and every association has been deleted.
    /// Tags, settings and the counters stay.
    pub open spec fn clear_state(self) -> DatabaseView {
        DatabaseView { tasks: Seq::empty(), task_tags: Seq::empty(), ..self }
    }

    /// The state after the records have been brought in one by one at
    /// `now`; a record whose task cannot be created is passed over.
    pub open spec fn import_state(self, records: Seq<TaskView>, now: i64) -> DatabaseView
        decreases records.len(),
    {
        if records.len() == 0 {
            self
        } else {
            self.import_state(records.drop_last(), now).after_create(
                import_request(records.last()),
                now,
            )
        }
    }

    /// How many of the records are brought in.
    pub open spec fn import_count(self, records: Seq<TaskView>, now: i64) -> nat
        decreases records.len(),
    {
        if records.len() == 0 {
            0
        } else {
            let before = self.import_state(records.drop_last(), now);
            let counted = self.import_count(records.drop_last(), now);
            if before.create_task_error(import_request(records.last())) is None {
                counted + 1
            } else {
                counted
            }
        }
    }

    /// Why a tag with this name cannot be created.
    pub open spec fn create_tag_error(self, name: Seq<char>) -> Option<DbError> {
        if self.has_tag_name(name) {
            Some(DbError::Conflict)
        } else if self.last_tag_id == i64::MAX {
            Some(DbError::StorageUnavailable)
        } else {
            None
        }
    }

    /// The tag that is created from a name and a colour at `now`.
    pub open spec fn new_tag(self, name: Seq<char>, color: Seq<char>, now: i64) -> TagView {
        TagView { id: Some((self.last_tag_id + 1) as i64), name, color, created_at: now }
    }

    /// The state after the tag has been created.
    pub open spec fn create_tag_state(
        self,
        name: Seq<char>,
        color: Seq<char>,
        now: i64,
    ) -> DatabaseView {
        DatabaseView {
            tags: self.tags.push(self.new_tag(name, color, now)),
            last_tag_id: (self.last_tag_id + 1) as i64,
            ..self
        }
    }

    /// Why the partial change to a tag cannot be applied. A tag cannot
    /// take the name of another tag, nor change its name while a task
    /// carries it.
    pub open spec fn update_tag_error(
        self,
        id: i64,
        name: Option<Seq<char>>,
        color: Option<Seq<char>>,
    ) -> Option<DbError> {
        if name is None && color is None {
            Some(DbError::InvalidRequest)
        } else if !self.has_tag(id) {
            Some(DbError::NotFound)
        } else if name matches Some(n) && n != self.tag(id).name && (self.has_tag_name(n)
            || self.tag_in_use(self.tag(id).name)) {
            Some(DbError::Conflict)
        } else {
            None
        }
    }

    /// The state after the tag at position `at` has been replaced by `tag`.
    pub open spec fn with_tag_at(self, at: int, tag: TagView) -> DatabaseView {
        DatabaseView { tags: self.tags.update(at, tag), ..self }
    }

    /// The state after the partial change to a tag.
    pub open spec fn update_tag_state(
        self,
        id: i64,
        name: Option<Seq<char>>,
        color: Option<Seq<char>>,
    ) -> DatabaseView {
        self.with_tag_at(self.tag_position(id), patched_tag(self.tag(id), name, color))
    }

    /// The state after the tag with this id, if there is one, has been
    /// deleted together with the associations that name it.
    pub open spec fn delete_tag_state(self, id: i64) -> DatabaseView {
        if self.has_tag(id) {
            DatabaseView {
                tags: self.tags.remove(self.tag_position(id)),
                task_tags: self.task_tags.filter(not_naming(self.tag(id).name)),
                ..self
            }
        } else {
            self
        }
    }

    /// The settings in force: those stored, or the initial ones where
    /// none are stored.
    pub open spec fn current_settings(self) -> AppSettingsView {
        match self.settings {
            Some(s) => s,
            None => AppSettingsView::initial(),
        }
    }

    /// The state after `settings` have been stored.
    pub open spec fn with_settings(self, settings: AppSettingsView) -> DatabaseView {
        DatabaseView { settings: Some(settings), ..self }
    }

    /// The state after the display-position column has been added, if it
    /// was missing: each task then stands at its rank by creation time.
    pub open spec fn migrated(self) -> DatabaseView {
        if self.has_sort_order {
            self
        } else {
            DatabaseView {
                tasks: Seq::new(self.tasks.len(), |i: int| ranked_row(self.tasks, self.tasks[i])),
                has_sort_order: true,
                ..self
            }
        }
    }

    /// The state after initialization: the initial settings are stored
    /// where none were, and the display-position column is there.
    pub open spec fn initialized(self) -> DatabaseView {
        self.with_settings(self.current_settings()).migrated()
    }

    /// `result` is the listing of the tasks that `filter` admits, in the
    /// order `order`: it holds each of them once, as callers see it, and
    /// no other.
    pub open spec fn lists(
        self,
        result: Seq<TaskView>,
        filter: TaskFilter,
        order: TaskOrder,
    ) -> bool {
        &&& forall|k: int|
            0 <= k < result.len() ==> {
                &&& (#[trigger] result[k]).id matches Some(id)
                &&& self.has_task(id)
                &&& filter.admits(self.task_row(id))
                &&& result[k] == self.task(id)
            }
        &&& forall|id: i64|
            #[trigger] self.has_task(id) && filter.admits(self.task_row(id)) ==> exists|k: int|
                0 <= k < result.len() && (#[trigger] result[k]).id == Some(id)
        &&& forall|j: int, k: int|
            0 <= j < k < result.len() ==> order.places_before(
                self.task_row((#[trigger] result[j]).id->0),
                self.task_row((#[trigger] result[k]).id->0),
            )
    }

    /// `result` is the listing of all tags by ascending name.
    pub open spec fn lists_tags(self, result: Seq<TagView>) -> bool {
        &&& forall|k: int| 0 <= k < result.len() ==> self.tags.contains(#[trigger] result[k])
        &&& forall|i: int| 0 <= i < self.tags.len() ==> result.contains(#[trigger] self.tags[i])
        &&& forall|j: int, k: int|
            0 <= j < k < result.len() ==> text_before(
                (#[trigger] result[j]).name,
                (#[trigger] result[k]).name,
            )
    }
}

} // verus!
