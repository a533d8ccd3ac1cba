//! The store: the task, tag and association tables, the settings record
//! and the id counters, held in memory. Every operation is proved to do
//! to the store what the model says.

use crate::lookup::{lemma_tag_at, lemma_task_at};
use crate::model::DatabaseView;
use crate::models::{AppSettings, Tag, TaskRow, TaskTag};
use crate::rows::{find_tag, find_tag_named, find_task, names_tag};
use vstd::prelude::*;

mod listing;
pub mod schema;
mod settings;
mod storage;
mod tags;
mod tasks;

verus! {

/// A task store.
#[derive(Debug)]
pub struct Database {
    tasks: Vec<TaskRow>,
    tags: Vec<Tag>,
    task_tags: Vec<TaskTag>,
    settings: Option<AppSettings>,
    has_sort_order: bool,
    last_task_id: i64,
    last_tag_id: i64,
}

impl View for Database {
    type V = DatabaseView;

    closed spec fn view(&self) -> DatabaseView {
        DatabaseView {
            tasks: self.tasks.deep_view(),
            tags: self.tags.deep_view(),
            task_tags: self.task_tags.deep_view(),
            settings: self.settings.deep_view(),
            has_sort_order: self.has_sort_order,
            last_task_id: self.last_task_id,
            last_tag_id: self.last_tag_id,
        }
    }
}

/// Everything a store holds, as plain rows: what is read from storage
/// and written to it.
#[derive(Clone, Debug, PartialEq, Eq)]
pub struct Snapshot {
    /// The task table.
    pub tasks: Vec<TaskRow>,
    /// The tag table.
    pub tags: Vec<Tag>,
    /// The association table.
    pub task_tags: Vec<TaskTag>,
    /// The settings record, if there is one.
    pub settings: Option<AppSettings>,
    /// Whether the task table has its display-position column. Where it
    /// has not, the display positions of the rows mean nothing.
    pub has_sort_order: bool,
    /// The greatest task id handed out so far.
    pub last_task_id: i64,
    /// The greatest tag id handed out so far.
    pub last_tag_id: i64,
}

impl View for Snapshot {
    type V = DatabaseView;

    open spec fn view(&self) -> DatabaseView {
        DatabaseView {
            tasks: self.tasks.deep_view(),
            tags: self.tags.deep_view(),
            task_tags: self.task_tags.deep_view(),
            settings: self.settings.deep_view(),
            has_sort_order: self.has_sort_order,
            last_task_id: self.last_task_id,
            last_tag_id: self.last_tag_id,
        }
    }
}

impl Database {
    /// The store keeps the rules of [`DatabaseView::wf`].
    pub open spec fn wf(&self) -> bool {
        self@.wf()
    }

    /// Where the task with this id stands in the task table, if it is
    /// stored.
    fn task_index(&self, id: i64) -> (r: Option<usize>)
        requires
            self.wf(),
        ensures
            match r {
                Some(at) => self@.has_task(id) && at == self@.task_position(id) && at
                    < self.tasks.len() && self.tasks@[at as int]@ == self@.task_row(id),
                None => !self@.has_task(id),
            },
    {
        let found = find_task(&self.tasks, id);
        proof {
            match found {
                Some(at) => {
                    lemma_task_at(self@, at as int);
                },
                None => {
                    assert forall|j: int| 0 <= j < self@.tasks.len() implies (
                    #[trigger] self@.tasks[j]).id != id by {
                        assert(self@.tasks[j] == self.tasks@[j]@);
                    }
                },
            }
        }
        found
    }

    /// Where the tag with this id stands in the tag table, if it is
    /// stored.
    fn tag_index(&self, id: i64) -> (r: Option<usize>)
        requires
            self.wf(),
        ensures
            match r {
                Some(at) => self@.has_tag(id) && at == self@.tag_position(id) && at
                    < self.tags.len() && self.tags@[at as int]@ == self@.tag(id),
                None => !self@.has_tag(id),
            },
    {
        let found = find_tag(&self.tags, id);
        proof {
            match found {
                Some(at) => {
                    assert(self@.tags[at as int] == self.tags@[at as int]@);
                    lemma_tag_at(self@, at as int);
                },
                None => {
                    assert forall|j: int| 0 <= j < self@.tags.len() implies (
                    #[trigger] self@.tags[j]).id != Some(id) by {
                        assert(self@.tags[j] == self.tags@[j]@);
                    }
                },
            }
        }
        found
    }

    /// Whether a tag with this name is stored.
    fn has_tag_named(&self, name: &str) -> (r: bool)
        ensures
            r == self@.has_tag_name(name@),
    {
        match find_tag_named(&self.tags, name) {
            Some(at) => {
                assert(self@.tags[at as int].name == name@);
                true
            },
            None => {
                assert forall|j: int| 0 <= j < self@.tags.len() implies (
                #[trigger] self@.tags[j]).name != name@ by {
                    assert(self@.tags[j] == self.tags@[j]@);
                }
                false
            },
        }
    }

    /// Whether some task carries the tag with this name.
    fn is_tag_in_use(&self, name: &str) -> (r: bool)
        ensures
            r == self@.tag_in_use(name@),
    {
        let used = names_tag(&self.task_tags, name);
        proof {
            if used {
                let i = choose|i: int|
                    0 <= i < self.task_tags.len() && (#[trigger] self.task_tags@[i]).tag_name@
                        == name@;
                assert(self@.task_tags[i].tag_name == name@);
            } else {
                assert forall|j: int| 0 <= j < self@.task_tags.len() implies (
                #[trigger] self@.task_tags[j]).tag_name != name@ by {
                    assert(self@.task_tags[j] == self.task_tags@[j]@);
                }
            }
        }
        used
    }
}

} // verus!
