//! Creating, changing and deleting tasks.

use super::Database;
use crate::error::DbError;
use crate::invariants::{
    lemma_delete_task, lemma_reorder, lemma_store_row, lemma_with_row_at, lemma_with_task_tags,
};
use crate::lookup::lemma_task_at;
use crate::model::{
    import_request, last_assignment, merged_row, reordered_row, requested_tags, toggled_row,
    TaskFilter, TaskOrder,
};
use crate::models::{CreateTaskRequest, Task, TaskRow, UpdateTaskRequest};
use crate::rows::{
    copy_row, find_task, greatest_sort_order, links_without_task, push_links,
    push_numbered_tags, tag_names_in, task_of_row,
};
use crate::text::{all_distinct, clone_texts};
use vstd::prelude::*;

verus! {

broadcast use {Seq::lemma_filter_push, Seq::lemma_take_succ_push};

impl Database {
    /// Of the given names, those that no stored tag bears.
    fn missing_names(&self, names: &Vec<String>) -> (missing: Vec<String>)
        ensures
            missing.deep_view() == self@.missing_tag_names(names.deep_view()),
    {
        let mut missing: Vec<String> = Vec::new();
        let mut i: usize = 0;
        assert(names.deep_view().take(0) =~= Seq::empty());
        assert(missing.deep_view() =~= Seq::empty());
        assert(Seq::<Seq<char>>::empty().filter(self@.lacks_tag()) =~= Seq::empty()) by {
            reveal(Seq::filter);
        }
        while i < names.len()
            invariant
                i <= names.len(),
                missing.deep_view() == names.deep_view().take(i as int).filter(self@.lacks_tag()),
            decreases names.len() - i,
        {
            let ghost before = missing.deep_view();
            let ghost seen = names.deep_view().take(i as int);
            proof {
                assert(names.deep_view().take(i + 1) == seen.push(names.deep_view()[i as int]));
                assert(names.deep_view()[i as int] == names@[i as int]@);
            }
            if !self.has_tag_named(names[i].as_str()) {
                missing.push(names[i].clone());
                assert(missing.deep_view() =~= before.push(names@[i as int]@));
            }
            i = i + 1;
        }
        assert(names.deep_view().take(names.len() as int) =~= names.deep_view());
        missing
    }

    /// Whether the tag counter can number every tag that `missing` holds.
    fn can_number(&self, missing: &Vec<String>) -> (r: bool)
        requires
            self.wf(),
        ensures
            r == (self@.last_tag_id + missing.len() <= i64::MAX),
    {
        let room: i64 = i64::MAX - self.last_tag_id;
        missing.len() as u64 <= room as u64
    }

    /// Replaces the associations of the task by `names`, adding the tags
    /// that `names` imply.
    fn replace_task_tags(
        &mut self,
        id: i64,
        names: &Vec<String>,
        missing: &Vec<String>,
        now: i64,
    )
        requires
            old(self).wf(),
            old(self)@.has_task(id),
            names.deep_view().no_duplicates(),
            old(self)@.can_number_tags(names.deep_view()),
            missing.deep_view() == old(self)@.missing_tag_names(names.deep_view()),
        ensures
            final(self)@ == old(self)@.with_task_tags(id, names.deep_view(), now),
            final(self).wf(),
    {
        let last = push_numbered_tags(&mut self.tags, missing, self.last_tag_id, now);
        self.last_tag_id = last;
        let mut links = links_without_task(&self.task_tags, id);
        push_links(&mut links, id, names);
        self.task_tags = links;
        proof {
            lemma_with_task_tags(old(self)@, id, names.deep_view(), now);
        }
    }

    /// Replaces the tags of a task by `tags`, creating each named tag that
    /// does not exist yet with the default colour.
    ///
    /// Fails with `NotFound` where the task is not stored, with
    /// `InvalidRequest` where `tags` names a tag twice, and with
    /// `StorageUnavailable` where the tag counter is exhausted; the store
    /// is then unchanged.
    pub fn set_task_tags(&mut self, task_id: i64, tags: &Vec<String>, now: i64) -> (r: Result<
        (),
        DbError,
    >)
        requires
            old(self).wf(),
        ensures
            final(self).wf(),
            match r {
                Ok(_) => old(self)@.set_task_tags_error(task_id, tags.deep_view()) is None
                    && final(self)@ == old(self)@.with_task_tags(task_id, tags.deep_view(), now),
                Err(e) => old(self)@.set_task_tags_error(task_id, tags.deep_view()) == Some(e)
                    && final(self)@ == old(self)@,
            },
    {
        if self.task_index(task_id).is_none() {
            return Err(DbError::NotFound);
        }
        if !all_distinct(tags) {
            return Err(DbError::InvalidRequest);
        }
        let missing = self.missing_names(tags);
        if !self.can_number(&missing) {
            return Err(DbError::StorageUnavailable);
        }
        self.replace_task_tags(task_id, tags, &missing, now);
        Ok(())
    }

    /// Creates a task at `now`: it gets the next id, the display position
    /// after the greatest one in the store (1 in an empty store), and the
    /// tags of the request, each created with the default colour where it
    /// does not exist yet. Gives the task as stored.
    ///
    /// Fails with `InvalidRequest` where the request names a tag twice,
    /// and with `StorageUnavailable` where an id counter or the display
    /// positions are exhausted; the store is then unchanged.
    pub fn create_task(&mut self, request: CreateTaskRequest, now: i64) -> (r: Result<
        Task,
        DbError,
    >)
        requires
            old(self).wf(),
        ensures
            final(self).wf(),
            match r {
                Ok(task) => {
                    &&& old(self)@.create_task_error(request@) is None
                    &&& final(self)@ == old(self)@.create_task_state(request@, now)
                    &&& task@ == old(self)@.new_task_row(request@, now).with_tags(
                        requested_tags(request@.tags),
                    )
                    &&& task@.id matches Some(id) && final(self)@.has_task(id) && final(self)@.task(
                        id,
                    ) == task@
                },
                Err(e) => old(self)@.create_task_error(request@) == Some(e) && final(self)@ == old(
                    self,
                )@,
            },
    {
        let ghost req = request@;
        let CreateTaskRequest { title, description, due_date, priority, tags } = request;
        let names: Vec<String> = match tags {
            Some(names) => names,
            None => Vec::new(),
        };
        assert(names.deep_view() =~= requested_tags(req.tags));
        if !all_distinct(&names) {
            return Err(DbError::InvalidRequest);
        }
        if self.last_task_id == i64::MAX {
            return Err(DbError::StorageUnavailable);
        }
        let top = greatest_sort_order(&self.tasks);
        if top == i64::MAX {
            return Err(DbError::StorageUnavailable);
        }
        let missing = self.missing_names(&names);
        if !self.can_number(&missing) {
            return Err(DbError::StorageUnavailable);
        }
        let row = TaskRow {
            id: self.last_task_id + 1,
            title,
            description: match description {
                Some(text) => text,
                None => String::new(),
            },
            due_date,
            priority,
            is_completed: false,
            created_at: now,
            sort_order: top + 1,
        };
        assert(row@ == old(self)@.new_task_row(req, now));
        let task = task_of_row(&row, clone_texts(&names));
        let id = row.id;
        let ghost before = self.tasks.deep_view();
        proof {
            lemma_store_row(old(self)@, row@);
        }
        self.tasks.push(row);
        self.last_task_id = id;
        assert(self.tasks.deep_view() =~= before.push(old(self)@.new_task_row(req, now)));
        assert(self@ == old(self)@.with_row(old(self)@.new_task_row(req, now)));
        proof {
            let stored = self@;
            assert(stored.missing_tag_names(names.deep_view()) == old(self)@.missing_tag_names(
                names.deep_view(),
            )) by {
                assert(stored.lacks_tag() =~= old(self)@.lacks_tag()) by {
                    assert forall|name: Seq<char>| stored.has_tag_name(name) == old(
                        self,
                    )@.has_tag_name(name) by {}
                }
            }
            lemma_with_task_tags(stored, id, names.deep_view(), now);
            crate::lookup::lemma_task_position(stored, id);
        }
        self.replace_task_tags(id, &names, &missing, now);
        proof {
            let stored = old(self)@.with_row(old(self)@.new_task_row(req, now));
            let done = self@;
            assert(done.tasks == stored.tasks);
            assert(done.has_task(id)) by {
                let at = stored.task_position(id);
                assert(done.tasks[at].id == id);
            }
            assert(done.task_row(id) == stored.task_row(id)) by {
                crate::lookup::lemma_task_at(done, stored.task_position(id));
            }
        }
        Ok(task)
    }

    /// Applies a partial change to a task at `now`: each field that the
    /// request holds replaces the stored one; id, creation time and
    /// display position stay. A tag list that is present and not empty
    /// replaces the task's tags; one that is absent or empty leaves them.
    /// Gives the task as stored afterwards.
    ///
    /// Fails with `NotFound` where the task is not stored, with
    /// `InvalidRequest` where the request names a tag twice, and with
    /// `StorageUnavailable` where the tag counter is exhausted; the store
    /// is then unchanged.
    pub fn update_task(&mut self, request: UpdateTaskRequest, now: i64) -> (r: Result<
        Task,
        DbError,
    >)
        requires
            old(self).wf(),
        ensures
            final(self).wf(),
            match r {
                Ok(task) => {
                    &&& old(self)@.update_task_error(request@) is None
                    &&& final(self)@ == old(self)@.update_task_state(request@, now)
                    &&& final(self)@.has_task(request.id)
                    &&& task@ == final(self)@.task(request.id)
                    &&& final(self)@.task_row(request.id) == merged_row(
                        old(self)@.task_row(request.id),
                        request@,
                    )
                    &&& task@.tags == if requested_tags(request@.tags).len() > 0 {
                        requested_tags(request@.tags)
                    } else {
                        old(self)@.tag_names_of(request.id)
                    }
                },
                Err(e) => old(self)@.update_task_error(request@) == Some(e) && final(self)@ == old(
                    self,
                )@,
            },
    {
        let ghost req = request@;
        let ghost start = self@;
        let UpdateTaskRequest { id, title, description, due_date, priority, is_completed, tags } =
            request;
        let at = match self.task_index(id) {
            None => {
                return Err(DbError::NotFound);
            },
            Some(at) => at,
        };
        let names: Vec<String> = match tags {
            Some(names) => names,
            None => Vec::new(),
        };
        assert(names.deep_view() =~= requested_tags(req.tags));
        if !all_distinct(&names) {
            return Err(DbError::InvalidRequest);
        }
        let missing = self.missing_names(&names);
        if !self.can_number(&missing) {
            return Err(DbError::StorageUnavailable);
        }
        let stored = &self.tasks[at];
        let row = TaskRow {
            id: stored.id,
            title: match title {
                Some(text) => text,
                None => stored.title.clone(),
            },
            description: match description {
                Some(text) => text,
                None => stored.description.clone(),
            },
            due_date: match due_date {
                Some(due) => Some(due),
                None => stored.due_date,
            },
            priority: match priority {
                Some(p) => p,
                None => stored.priority,
            },
            is_completed: match is_completed {
                Some(c) => c,
                None => stored.is_completed,
            },
            created_at: stored.created_at,
            sort_order: stored.sort_order,
        };
        let ghost merged = merged_row(start.task_row(id), req);
        assert(row@ == merged);
        let ghost before = self.tasks.deep_view();
        self.tasks.set(at, row);
        assert(self.tasks.deep_view() =~= before.update(at as int, merged));
        assert(self@ == start.with_row_at(at as int, merged));
        proof {
            lemma_with_row_at(start, at as int, merged);
        }
        if names.len() > 0 {
            proof {
                lemma_with_task_tags(self@, id, names.deep_view(), now);
            }
            let ghost replaced = self@;
            self.replace_task_tags(id, &names, &missing, now);
            proof {
                assert(self@.tasks == replaced.tasks);
                assert(self@.has_task(id)) by {
                    assert(self@.tasks[at as int].id == id);
                }
                lemma_task_at(self@, at as int);
            }
        }
        let attached = tag_names_in(&self.task_tags, id);
        Ok(task_of_row(&self.tasks[at], attached))
    }

    /// Deletes the task with this id together with its associations.
    /// Where no such task is stored, nothing changes.
    pub fn delete_task(&mut self, id: i64) -> (r: Result<(), DbError>)
        requires
            old(self).wf(),
        ensures
            final(self).wf(),
            r is Ok,
            final(self)@ == old(self)@.delete_task_state(id),
            !final(self)@.has_task(id),
    {
        proof {
            lemma_delete_task(self@, id);
        }
        match self.task_index(id) {
            None => {},
            Some(at) => {
                let ghost before = self.tasks.deep_view();
                self.tasks.remove(at);
                assert(self.tasks.deep_view() =~= before.remove(at as int));
                self.task_tags = links_without_task(&self.task_tags, id);
            },
        }
        Ok(())
    }

    /// Flips the completion flag of a task and gives the task as stored
    /// afterwards; `NotFound` where the task is not stored.
    pub fn toggle_task_completion(&mut self, id: i64) -> (r: Result<Task, DbError>)
        requires
            old(self).wf(),
        ensures
            final(self).wf(),
            match r {
                Ok(task) => {
                    &&& old(self)@.has_task(id)
                    &&& final(self)@ == old(self)@.toggle_state(id)
                    &&& final(self)@.has_task(id)
                    &&& task@ == final(self)@.task(id)
                    &&& task@ == toggled_row(old(self)@.task_row(id)).with_tags(
                        old(self)@.tag_names_of(id),
                    )
                },
                Err(e) => !old(self)@.has_task(id) && e == DbError::NotFound && final(self)@ == old(
                    self,
                )@,
            },
    {
        let ghost start = self@;
        let at = match self.task_index(id) {
            None => {
                return Err(DbError::NotFound);
            },
            Some(at) => at,
        };
        let mut row = copy_row(&self.tasks[at]);
        row.is_completed = !row.is_completed;
        let ghost flipped = toggled_row(start.task_row(id));
        assert(row@ == flipped);
        let ghost before = self.tasks.deep_view();
        self.tasks.set(at, row);
        assert(self.tasks.deep_view() =~= before.update(at as int, flipped));
        assert(self@ == start.with_row_at(at as int, flipped));
        proof {
            lemma_with_row_at(start, at as int, flipped);
        }
        let attached = tag_names_in(&self.task_tags, id);
        Ok(task_of_row(&self.tasks[at], attached))
    }

    /// Applies the assignments of display positions in the order given.
    /// Each is a task id and the position it gets; one that names no
    /// stored task changes nothing, and a later one for the same task
    /// overrides an earlier one.
    pub fn update_tasks_sort_order(&mut self, task_orders: Vec<(i64, i64)>) -> (r: Result<
        (),
        DbError,
    >)
        requires
            old(self).wf(),
        ensures
            final(self).wf(),
            r is Ok,
            final(self)@ == old(self)@.reorder_state(task_orders@),
    {
        let ghost start = self@;
        let mut k: usize = 0;
        proof {
            assert(task_orders@.take(0) =~= Seq::empty());
            assert(self@.tasks =~= start.reorder_state(task_orders@.take(0)).tasks);
        }
        while k < task_orders.len()
            invariant
                k <= task_orders.len(),
                start.wf(),
                self@ == start.reorder_state(task_orders@.take(k as int)),
            decreases task_orders.len() - k,
        {
            let (id, position) = task_orders[k];
            let ghost done = task_orders@.take(k as int);
            let ghost next = task_orders@.take(k + 1);
            proof {
                assert(next.drop_last() =~= done);
                assert(next.last() == task_orders@[k as int]);
                lemma_reorder(start, done);
            }
            match find_task(&self.tasks, id) {
                None => {
                    assert forall|i: int| 0 <= i < start.tasks.len() implies reordered_row(
                        #[trigger] start.tasks[i],
                        next,
                    ) == reordered_row(start.tasks[i], done) by {
                        assert(self@.tasks[i] == self.tasks@[i]@);
                        assert(self@.tasks[i].id == start.tasks[i].id);
                    }
                    assert(self@.tasks =~= start.reorder_state(next).tasks);
                },
                Some(at) => {
                    let ghost before = self.tasks.deep_view();
                    let ghost found = self.tasks@[at as int]@;
                    assert(before[at as int] == found);
                    let mut row = copy_row(&self.tasks[at]);
                    row.sort_order = position;
                    let ghost placed = row@;
                    self.tasks.set(at, row);
                    proof {
                        assert(self.tasks.deep_view() =~= before.update(at as int, placed));
                        assert forall|i: int| 0 <= i < start.tasks.len() implies (
                        #[trigger] self@.tasks[i]) == reordered_row(start.tasks[i], next) by {
                            assert(before[i] == reordered_row(start.tasks[i], done));
                            assert(before[at as int] == reordered_row(
                                start.tasks[at as int],
                                done,
                            ));
                            assert(found.id == id);
                            assert(start.tasks[at as int].id == id);
                            if i != at as int {
                                if i < at as int {
                                    assert(start.tasks[i].id != start.tasks[at as int].id);
                                } else {
                                    assert(start.tasks[at as int].id != start.tasks[i].id);
                                }
                                assert(last_assignment(next, start.tasks[i].id) == last_assignment(
                                    done,
                                    start.tasks[i].id,
                                ));
                            } else {
                                assert(last_assignment(next, id) == Some(position));
                            }
                        }
                        assert(self@.tasks =~= start.reorder_state(next).tasks);
                    }
                },
            }
            k = k + 1;
        }
        proof {
            assert(task_orders@.take(task_orders.len() as int) =~= task_orders@);
            lemma_reorder(start, task_orders@);
        }
        Ok(())
    }

    /// Deletes every task and every association. Tags and settings stay.
    pub fn clear_all_tasks(&mut self) -> (r: Result<(), DbError>)
        requires
            old(self).wf(),
        ensures
            final(self).wf(),
            r is Ok,
            final(self)@ == old(self)@.clear_state(),
    {
        self.tasks = Vec::new();
        self.task_tags = Vec::new();
        assert(self.tasks.deep_view() =~= Seq::empty());
        assert(self.task_tags.deep_view() =~= Seq::empty());
        Ok(())
    }

    /// The task records of an export: every task with its tags, by
    /// ascending display position. The caller encodes them as JSON.
    pub fn export_tasks_to_json(&self) -> (r: Result<Vec<Task>, DbError>)
        requires
            self.wf(),
        ensures
            r matches Ok(tasks) && self@.lists(
                tasks.deep_view(),
                TaskFilter::All,
                TaskOrder::BySortOrder,
            ),
    {
        Ok(self.select(TaskFilter::All, TaskOrder::BySortOrder))
    }

    /// Brings in the task records of an exported JSON text, which the
    /// caller has decoded with `serde_json`, one by one, at `now`. Each
    /// record becomes a new task with a new id, creation time and display
    /// position, not completed; title, description, due date, priority
    /// and tags are taken over. A record whose task cannot be created is
    /// passed over. Gives the number of tasks created.
    ///
    /// Fails with `SerializationError` where the text could not be
    /// decoded; the store is then unchanged.
    pub fn import_tasks_from_json(
        &mut self,
        decoded: Result<Vec<Task>, serde_json::Error>,
        now: i64,
    ) -> (r: Result<usize, DbError>)
        requires
            old(self).wf(),
        ensures
            final(self).wf(),
            match decoded {
                Ok(records) => {
                    &&& r matches Ok(count) && count == old(self)@.import_count(
                        records.deep_view(),
                        now,
                    )
                    &&& final(self)@ == old(self)@.import_state(records.deep_view(), now)
                },
                Err(_) => r == Err::<usize, DbError>(DbError::SerializationError) && final(self)@
                    == old(self)@,
            },
    {
        let records = match decoded {
            Ok(records) => records,
            Err(_) => {
                return Err(DbError::SerializationError);
            },
        };
        let ghost start = self@;
        let ghost all = records.deep_view();
        let mut count: usize = 0;
        let mut k: usize = 0;
        assert(all.take(0) =~= Seq::empty());
        while k < records.len()
            invariant
                k <= records.len(),
                count <= k,
                all == records.deep_view(),
                self.wf(),
                self@ == start.import_state(all.take(k as int), now),
                count == start.import_count(all.take(k as int), now),
            decreases records.len() - k,
        {
            proof {
                assert(all.take(k + 1).drop_last() =~= all.take(k as int));
                assert(all.take(k + 1).last() == records@[k as int]@);
            }
            let record = &records[k];
            let request = CreateTaskRequest {
                title: record.title.clone(),
                description: Some(record.description.clone()),
                due_date: record.due_date,
                priority: record.priority,
                tags: Some(clone_texts(&record.tags)),
            };
            assert(request@ == import_request(record@));
            match self.create_task(request, now) {
                Ok(_) => {
                    count = count + 1;
                },
                Err(_) => {},
            }
            k = k + 1;
        }
        assert(all.take(records.len() as int) =~= all);
        Ok(count)
    }
}

} // verus!
