//! Making a store, from nothing or from what storage holds, and bringing
//! it up to date.

use super::{Database, Snapshot};
use crate::error::DbError;
use crate::invariants::{lemma_migrated, lemma_with_settings};
use crate::model::{ranked_row, DatabaseView};
use crate::models::{AppSettings, Tag, TaskRow, TaskTag};
use crate::rows::{
    copy_link, copy_row, copy_settings, copy_tag, creation_rank_in, find_tag_named, find_task,
};
use crate::text::{holds_text, same_text};
use vstd::prelude::*;

verus! {

/// Whether a task table with these columns has its display-position
/// column, `sort_order`.
pub fn has_sort_order_column(columns: &Vec<String>) -> (r: bool)
    ensures
        r == columns.deep_view().contains("sort_order"@),
{
    holds_text(columns, "sort_order")
}

/// Whether no two rows have the same id and none has an id above `last`.
fn task_ids_in_order(tasks: &Vec<TaskRow>, last: i64) -> (r: bool)
    ensures
        r == ((forall|i: int, j: int|
            0 <= i < j < tasks.len() ==> (#[trigger] tasks@[i]).id != (#[trigger] tasks@[j]).id)
            && (forall|i: int| 0 <= i < tasks.len() ==> (#[trigger] tasks@[i]).id <= last)),
{
    let mut i: usize = 0;
    while i < tasks.len()
        invariant
            i <= tasks.len(),
            forall|a: int, b: int|
                0 <= a < b < i ==> (#[trigger] tasks@[a]).id != (#[trigger] tasks@[b]).id,
            forall|a: int| 0 <= a < i ==> (#[trigger] tasks@[a]).id <= last,
        decreases tasks.len() - i,
    {
        if tasks[i].id > last {
            return false;
        }
        let mut j: usize = 0;
        while j < i
            invariant
                i < tasks.len(),
                j <= i,
                forall|a: int| 0 <= a < j ==> (#[trigger] tasks@[a]).id != tasks@[i as int].id,
            decreases i - j,
        {
            if tasks[j].id == tasks[i].id {
                return false;
            }
            j = j + 1;
        }
        i = i + 1;
    }
    true
}

/// Whether every tag has an id, none above `last`, and no two tags have
/// the same id or the same name.
fn tags_in_order(tags: &Vec<Tag>, last: i64) -> (r: bool)
    ensures
        r == ((forall|i: int, j: int|
            0 <= i < j < tags.len() ==> (#[trigger] tags@[i]).id != (#[trigger] tags@[j]).id
                && tags@[i].name@ != tags@[j].name@) && (forall|i: int|
            0 <= i < tags.len() ==> ((#[trigger] tags@[i]).id matches Some(id) && id <= last))),
{
    let mut i: usize = 0;
    while i < tags.len()
        invariant
            i <= tags.len(),
            forall|a: int, b: int|
                0 <= a < b < i ==> (#[trigger] tags@[a]).id != (#[trigger] tags@[b]).id
                    && tags@[a].name@ != tags@[b].name@,
            forall|a: int| 0 <= a < i ==> ((#[trigger] tags@[a]).id matches Some(id) && id <= last),
        decreases tags.len() - i,
    {
        let id = match tags[i].id {
            Some(id) => id,
            None => {
                return false;
            },
        };
        if id > last {
            return false;
        }
        let mut j: usize = 0;
        while j < i
            invariant
                i < tags.len(),
                j <= i,
                tags@[i as int].id == Some(id),
                forall|a: int| 0 <= a < i ==> (#[trigger] tags@[a]).id is Some,
                forall|a: int|
                    0 <= a < j ==> (#[trigger] tags@[a]).id != tags@[i as int].id && tags@[a].name@
                        != tags@[i as int].name@,
            decreases i - j,
        {
            let same_id = match tags[j].id {
                Some(other) => other == id,
                None => false,
            };
            if same_id || same_text(tags[j].name.as_str(), tags[i].name.as_str()) {
                return false;
            }
            j = j + 1;
        }
        i = i + 1;
    }
    true
}

/// Whether no association occurs twice.
fn links_distinct(links: &Vec<TaskTag>) -> (r: bool)
    ensures
        r == links.deep_view().no_duplicates(),
{
    let mut i: usize = 0;
    while i < links.len()
        invariant
            i <= links.len(),
            forall|a: int, b: int|
                0 <= a < b < i ==> (#[trigger] links@[a])@ != (#[trigger] links@[b])@,
        decreases links.len() - i,
    {
        let mut j: usize = 0;
        while j < i
            invariant
                i < links.len(),
                j <= i,
                forall|a: int| 0 <= a < j ==> (#[trigger] links@[a])@ != links@[i as int]@,
            decreases i - j,
        {
            if links[j].task_id == links[i].task_id && same_text(
                links[j].tag_name.as_str(),
                links[i].tag_name.as_str(),
            ) {
                assert(links.deep_view()[j as int] == links.deep_view()[i as int]);
                return false;
            }
            j = j + 1;
        }
        i = i + 1;
    }
    let ghost rows = links.deep_view();
    assert forall|a: int, b: int|
        0 <= a < rows.len() && 0 <= b < rows.len() && a != b implies rows[a] != rows[b] by {
        assert(rows[a] == links@[a]@);
        assert(rows[b] == links@[b]@);
        if a < b {
            assert(links@[a]@ != links@[b]@);
        } else {
            assert(links@[b]@ != links@[a]@);
        }
    }
    true
}

impl Snapshot {
    /// Whether each association joins a task of the snapshot to a tag of
    /// the snapshot.
    fn links_resolve(&self) -> (r: bool)
        ensures
            r == (forall|i: int|
                0 <= i < self@.task_tags.len() ==> self@.has_task(
                    (#[trigger] self@.task_tags[i]).task_id,
                ) && self@.has_tag_name(self@.task_tags[i].tag_name)),
    {
        let mut i: usize = 0;
        while i < self.task_tags.len()
            invariant
                i <= self.task_tags.len(),
                forall|a: int|
                    0 <= a < i ==> self@.has_task((#[trigger] self@.task_tags[a]).task_id)
                        && self@.has_tag_name(self@.task_tags[a].tag_name),
            decreases self.task_tags.len() - i,
        {
            let link = &self.task_tags[i];
            assert(self@.task_tags[i as int] == link@);
            match find_task(&self.tasks, link.task_id) {
                Some(at) => {
                    assert(self@.tasks[at as int].id == link.task_id);
                },
                None => {
                    assert forall|j: int| 0 <= j < self@.tasks.len() implies (
                    #[trigger] self@.tasks[j]).id != link.task_id by {
                        assert(self@.tasks[j] == self.tasks@[j]@);
                    }
                    assert(!self@.has_task(self@.task_tags[i as int].task_id));
                    return false;
                },
            }
            match find_tag_named(&self.tags, link.tag_name.as_str()) {
                Some(at) => {
                    assert(self@.tags[at as int].name == link.tag_name@);
                },
                None => {
                    assert forall|j: int| 0 <= j < self@.tags.len() implies (
                    #[trigger] self@.tags[j]).name != link.tag_name@ by {
                        assert(self@.tags[j] == self.tags@[j]@);
                    }
                    assert(!self@.has_tag_name(self@.task_tags[i as int].tag_name));
                    return false;
                },
            }
            i = i + 1;
        }
        true
    }

    /// Whether the snapshot keeps the rules of a store.
    pub fn is_well_formed(&self) -> (r: bool)
        ensures
            r == self@.wf(),
    {
        let ghost db = self@;
        proof {
            assert forall|i: int| 0 <= i < self.tasks.len() implies db.tasks[i]
                == (#[trigger] self.tasks@[i])@ by {}
            assert forall|i: int| 0 <= i < self.tags.len() implies db.tags[i]
                == (#[trigger] self.tags@[i])@ by {}
        }
        if self.last_task_id < 0 || self.last_tag_id < 0 {
            return false;
        }
        if self.tasks.len() as u64 > self.last_task_id as u64 || self.tags.len() as u64
            > self.last_tag_id as u64 {
            return false;
        }
        if !task_ids_in_order(&self.tasks, self.last_task_id) {
            proof {
                if db.wf() {
                    assert forall|i: int, j: int| 0 <= i < j < self.tasks.len() implies (
                    #[trigger] self.tasks@[i]).id != (#[trigger] self.tasks@[j]).id by {
                        assert(db.tasks[i].id != db.tasks[j].id);
                    }
                    assert forall|i: int| 0 <= i < self.tasks.len() implies (
                    #[trigger] self.tasks@[i]).id <= self.last_task_id by {
                        assert(db.tasks[i].id <= db.last_task_id);
                    }
                }
            }
            return false;
        }
        if !tags_in_order(&self.tags, self.last_tag_id) {
            proof {
                if db.wf() {
                    assert forall|i: int, j: int| 0 <= i < j < self.tags.len() implies (
                    #[trigger] self.tags@[i]).id != (#[trigger] self.tags@[j]).id
                        && self.tags@[i].name@ != self.tags@[j].name@ by {
                        assert(db.tags[i].id != db.tags[j].id && db.tags[i].name
                            != db.tags[j].name);
                    }
                    assert forall|i: int| 0 <= i < self.tags.len() implies ((
                    #[trigger] self.tags@[i]).id matches Some(id) && id <= self.last_tag_id) by {
                        assert(db.tags[i].id is Some);
                    }
                }
            }
            return false;
        }
        if !links_distinct(&self.task_tags) {
            return false;
        }
        if !self.links_resolve() {
            return false;
        }
        proof {
            assert forall|i: int, j: int| 0 <= i < j < db.tasks.len() implies (
            #[trigger] db.tasks[i]).id != (#[trigger] db.tasks[j]).id by {
                assert(self.tasks@[i].id != self.tasks@[j].id);
            }
            assert forall|i: int| 0 <= i < db.tasks.len() implies (#[trigger] db.tasks[i]).id
                <= db.last_task_id by {
                assert(self.tasks@[i].id <= self.last_task_id);
            }
            assert forall|i: int, j: int| 0 <= i < j < db.tags.len() implies (
            #[trigger] db.tags[i]).id != (#[trigger] db.tags[j]).id && db.tags[i].name
                != db.tags[j].name by {
                assert(self.tags@[i].id != self.tags@[j].id);
            }
            assert forall|i: int| 0 <= i < db.tags.len() implies ((
            #[trigger] db.tags[i]).id matches Some(id) && id <= db.last_tag_id) by {
                assert(self.tags@[i].id is Some);
            }
        }
        true
    }
}

impl Database {
    /// A new store, initialized: it holds no task and no tag, and the
    /// initial settings.
    pub fn new() -> (r: Result<Database, DbError>)
        ensures
            r matches Ok(db) && db.wf() && db@ == DatabaseView::empty().initialized(),
    {
        let mut db = Database {
            tasks: Vec::new(),
            tags: Vec::new(),
            task_tags: Vec::new(),
            settings: None,
            has_sort_order: false,
            last_task_id: 0,
            last_tag_id: 0,
        };
        proof {
            let made = DatabaseView::empty();
            assert(db@.tasks =~= made.tasks);
            assert(db@.tags =~= made.tags);
            assert(db@.task_tags =~= made.task_tags);
        }
        db.init_tables();
        Ok(db)
    }

    /// The store that storage holds, initialized. Fails with
    /// `StorageUnavailable` where the snapshot breaks the rules of a
    /// store.
    pub fn restore(snapshot: Snapshot) -> (r: Result<Database, DbError>)
        ensures
            match r {
                Ok(db) => snapshot@.wf() && db.wf() && db@ == snapshot@.initialized(),
                Err(e) => !snapshot@.wf() && e == DbError::StorageUnavailable,
            },
    {
        if !snapshot.is_well_formed() {
            return Err(DbError::StorageUnavailable);
        }
        let ghost stored = snapshot@;
        let Snapshot {
            tasks,
            tags,
            task_tags,
            settings,
            has_sort_order,
            last_task_id,
            last_tag_id,
        } = snapshot;
        let mut db = Database {
            tasks,
            tags,
            task_tags,
            settings,
            has_sort_order,
            last_task_id,
            last_tag_id,
        };
        assert(db@ == stored);
        db.init_tables();
        Ok(db)
    }

    /// A copy of everything the store holds, for writing to storage.
    pub fn snapshot(&self) -> (r: Snapshot)
        ensures
            r@ == self@,
    {
        let mut tasks: Vec<TaskRow> = Vec::new();
        let mut i: usize = 0;
        while i < self.tasks.len()
            invariant
                i <= self.tasks.len(),
                tasks.len() == i,
                forall|j: int| 0 <= j < i ==> (#[trigger] tasks@[j])@ == self.tasks@[j]@,
            decreases self.tasks.len() - i,
        {
            tasks.push(copy_row(&self.tasks[i]));
            i = i + 1;
        }
        let mut tags: Vec<Tag> = Vec::new();
        let mut i: usize = 0;
        while i < self.tags.len()
            invariant
                i <= self.tags.len(),
                tags.len() == i,
                forall|j: int| 0 <= j < i ==> (#[trigger] tags@[j])@ == self.tags@[j]@,
            decreases self.tags.len() - i,
        {
            tags.push(copy_tag(&self.tags[i]));
            i = i + 1;
        }
        let mut task_tags: Vec<TaskTag> = Vec::new();
        let mut i: usize = 0;
        while i < self.task_tags.len()
            invariant
                i <= self.task_tags.len(),
                task_tags.len() == i,
                forall|j: int| 0 <= j < i ==> (#[trigger] task_tags@[j])@ == self.task_tags@[j]@,
            decreases self.task_tags.len() - i,
        {
            task_tags.push(copy_link(&self.task_tags[i]));
            i = i + 1;
        }
        let settings = match &self.settings {
            Some(stored) => Some(copy_settings(stored)),
            None => None,
        };
        let copy = Snapshot {
            tasks,
            tags,
            task_tags,
            settings,
            has_sort_order: self.has_sort_order,
            last_task_id: self.last_task_id,
            last_tag_id: self.last_tag_id,
        };
        proof {
            assert(copy@.tasks =~= self@.tasks);
            assert(copy@.tags =~= self@.tags);
            assert(copy@.task_tags =~= self@.task_tags);
        }
        copy
    }

    /// Brings a store up to date: stores the initial settings where none
    /// are stored, and adds the display-position column where it is
    /// missing. On a store that is up to date this changes nothing.
    pub fn init_tables(&mut self)
        requires
            old(self).wf(),
        ensures
            final(self).wf(),
            final(self)@ == old(self)@.initialized(),
    {
        if self.settings.is_none() {
            self.settings = Some(AppSettings::default());
        }
        proof {
            assert(self@ == old(self)@.with_settings(old(self)@.current_settings()));
            lemma_with_settings(old(self)@, old(self)@.current_settings());
        }
        self.migrate_add_sort_order();
    }

    /// Adds the display-position column where it is missing, and puts
    /// each task at its rank by creation time, counting from 1; tasks
    /// created in the same second go by their ids. Where the column is
    /// there, this changes nothing.
    pub fn migrate_add_sort_order(&mut self)
        requires
            old(self).wf(),
        ensures
            final(self).wf(),
            final(self)@ == old(self)@.migrated(),
    {
        proof {
            lemma_migrated(self@);
        }
        if self.has_sort_order {
            return ;
        }
        let ghost start = self@;
        let mut ranks: Vec<i64> = Vec::new();
        let mut i: usize = 0;
        while i < self.tasks.len()
            invariant
                i <= self.tasks.len(),
                ranks.len() == i,
                self@ == start,
                start.wf(),
                forall|j: int|
                    0 <= j < i ==> (#[trigger] ranks@[j]) == ranked_row(
                        start.tasks,
                        start.tasks[j],
                    ).sort_order,
            decreases self.tasks.len() - i,
        {
            let rank = creation_rank_in(&self.tasks, &self.tasks[i]);
            assert(start.tasks[i as int] == self.tasks@[i as int]@);
            ranks.push(rank as i64);
            i = i + 1;
        }
        let mut i: usize = 0;
        while i < self.tasks.len()
            invariant
                i <= self.tasks.len(),
                ranks.len() == self.tasks.len(),
                self.tasks.len() == start.tasks.len(),
                self@.tags == start.tags,
                self@.task_tags == start.task_tags,
                self@.settings == start.settings,
                self@.last_task_id == start.last_task_id,
                self@.last_tag_id == start.last_tag_id,
                forall|j: int|
                    0 <= j < ranks.len() ==> (#[trigger] ranks@[j]) == ranked_row(
                        start.tasks,
                        start.tasks[j],
                    ).sort_order,
                forall|j: int|
                    0 <= j < i ==> (#[trigger] self.tasks@[j])@ == ranked_row(
                        start.tasks,
                        start.tasks[j],
                    ),
                forall|j: int|
                    i <= j < self.tasks.len() ==> (#[trigger] self.tasks@[j])@ == start.tasks[j],
            decreases self.tasks.len() - i,
        {
            let mut row = copy_row(&self.tasks[i]);
            row.sort_order = ranks[i];
            self.tasks.set(i, row);
            i = i + 1;
        }
        self.has_sort_order = true;
        assert(self@.tasks =~= start.migrated().tasks);
    }
}

} // verus!
