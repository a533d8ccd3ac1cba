//! Reading tasks out of the store.

use super::Database;
use crate::error::DbError;
use crate::instant::{day_bounds, day_end, day_start, is_instant};
use crate::lookup::lemma_task_at;
use crate::model::{TaskFilter, TaskOrder};
use crate::models::Task;
use crate::query::listed_positions;
use crate::rows::{tag_names_in, task_of_row};
use vstd::prelude::*;

verus! {

impl Database {
    /// The names of the tags attached to the task, in the order in which
    /// they were attached.
    pub fn get_task_tags(&self, task_id: i64) -> (r: Result<Vec<String>, DbError>)
        ensures
            r matches Ok(names) && names.deep_view() == self@.tag_names_of(task_id),
    {
        Ok(tag_names_in(&self.task_tags, task_id))
    }

    /// The task with this id, with its tags; `NotFound` where there is none.
    pub fn get_task_by_id(&self, id: i64) -> (r: Result<Task, DbError>)
        requires
            self.wf(),
        ensures
            match r {
                Ok(task) => self@.has_task(id) && task@ == self@.task(id),
                Err(e) => !self@.has_task(id) && e == DbError::NotFound,
            },
    {
        match self.task_index(id) {
            Some(at) => {
                let names = tag_names_in(&self.task_tags, id);
                Ok(task_of_row(&self.tasks[at], names))
            },
            None => Err(DbError::NotFound),
        }
    }

    /// The listing of the tasks that `filter` admits, in the order `order`.
    pub fn select(&self, filter: TaskFilter, order: TaskOrder) -> (r: Vec<Task>)
        requires
            self.wf(),
        ensures
            self@.lists(r.deep_view(), filter, order),
    {
        proof {
            assert forall|i: int, j: int| 0 <= i < j < self.tasks.len() implies (
            #[trigger] self.tasks@[i]).id != (#[trigger] self.tasks@[j]).id by {
                assert(self@.tasks[i] == self.tasks@[i]@);
                assert(self@.tasks[j] == self.tasks@[j]@);
            }
        }
        let positions = listed_positions(&self.tasks, filter, order);
        let mut out: Vec<Task> = Vec::new();
        let mut k: usize = 0;
        while k < positions.len()
            invariant
                self.wf(),
                k <= positions.len(),
                out.len() == k,
                forall|j: int|
                    0 <= j < positions.len() ==> (#[trigger] positions@[j]) < self.tasks.len(),
                forall|j: int|
                    0 <= j < k ==> (#[trigger] out@[j])@ == self@.task(
                        self.tasks@[positions@[j] as int].id,
                    ),
            decreases positions.len() - k,
        {
            let at = positions[k];
            let row = &self.tasks[at];
            let names = tag_names_in(&self.task_tags, row.id);
            out.push(task_of_row(row, names));
            proof {
                lemma_task_at(self@, at as int);
            }
            k = k + 1;
        }
        proof {
            let result = out.deep_view();
            let db = self@;
            assert forall|k: int| 0 <= k < result.len() implies {
                &&& (#[trigger] result[k]).id matches Some(id)
                &&& db.has_task(id)
                &&& filter.admits(db.task_row(id))
                &&& result[k] == db.task(id)
                &&& id == db.tasks[positions@[k] as int].id
            } by {
                lemma_task_at(db, positions@[k] as int);
                assert(result[k] == out@[k]@);
            }
            assert forall|id: i64| #[trigger]
                db.has_task(id) && filter.admits(db.task_row(id)) implies exists|k: int|
                0 <= k < result.len() && (#[trigger] result[k]).id == Some(id) by {
                let i = db.task_position(id);
                assert(db.tasks[i] == self.tasks@[i]@);
                assert(positions@.contains(i as usize));
                let k = choose|k: int| 0 <= k < positions@.len() && positions@[k] == i as usize;
                assert(result[k].id == Some(id));
            }
            assert forall|j: int, k: int| 0 <= j < k < result.len() implies order.places_before(
                db.task_row((#[trigger] result[j]).id->0),
                db.task_row((#[trigger] result[k]).id->0),
            ) by {
                lemma_task_at(db, positions@[j] as int);
                lemma_task_at(db, positions@[k] as int);
                assert(result[j].id->0 == db.tasks[positions@[j] as int].id);
                assert(result[k].id->0 == db.tasks[positions@[k] as int].id);
            }
        }
        out
    }

    /// Every task, by ascending display position; among tasks at the same
    /// position the one created last comes first.
    pub fn get_all_tasks(&self) -> (r: Result<Vec<Task>, DbError>)
        requires
            self.wf(),
        ensures
            r matches Ok(tasks) && self@.lists(
                tasks.deep_view(),
                TaskFilter::All,
                TaskOrder::BySortOrder,
            ),
    {
        Ok(self.select(TaskFilter::All, TaskOrder::BySortOrder))
    }

    /// The tasks due on the UTC day that holds `now`, whether completed or
    /// not: highest priority first, then by ascending due date.
    pub fn get_today_tasks(&self, now: i64) -> (r: Result<Vec<Task>, DbError>)
        requires
            self.wf(),
            is_instant(now),
        ensures
            r matches Ok(tasks) && self@.lists(
                tasks.deep_view(),
                TaskFilter::DueBetween {
                    first: day_start(now as int) as i64,
                    last: day_end(now as int) as i64,
                },
                TaskOrder::ByPriority,
            ),
    {
        let (first, last) = day_bounds(now);
        Ok(self.select(TaskFilter::DueBetween { first, last }, TaskOrder::ByPriority))
    }

    /// The completed tasks, the one created last first.
    pub fn get_completed_tasks(&self) -> (r: Result<Vec<Task>, DbError>)
        requires
            self.wf(),
        ensures
            r matches Ok(tasks) && self@.lists(
                tasks.deep_view(),
                TaskFilter::Completed,
                TaskOrder::ByCreation,
            ),
    {
        Ok(self.select(TaskFilter::Completed, TaskOrder::ByCreation))
    }

    /// The open tasks that were due before `now`, by ascending due date.
    pub fn get_overdue_tasks(&self, now: i64) -> (r: Result<Vec<Task>, DbError>)
        requires
            self.wf(),
        ensures
            r matches Ok(tasks) && self@.lists(
                tasks.deep_view(),
                TaskFilter::Overdue { now },
                TaskOrder::ByDueDate,
            ),
    {
        Ok(self.select(TaskFilter::Overdue { now }, TaskOrder::ByDueDate))
    }

    /// The open tasks due after `now` and at most `minutes_ahead` minutes
    /// after it, by ascending due date. There is none where
    /// `minutes_ahead` is not positive.
    pub fn get_upcoming_tasks(&self, now: i64, minutes_ahead: i32) -> (r: Result<
        Vec<Task>,
        DbError,
    >)
        requires
            self.wf(),
        ensures
            r matches Ok(tasks) && self@.lists(
                tasks.deep_view(),
                TaskFilter::Upcoming { now, minutes_ahead },
                TaskOrder::ByDueDate,
            ),
            minutes_ahead <= 0 ==> r->Ok_0.len() == 0,
    {
        let tasks = self.select(TaskFilter::Upcoming { now, minutes_ahead }, TaskOrder::ByDueDate);
        proof {
            if minutes_ahead <= 0 && tasks.len() > 0 {
                let first = tasks.deep_view()[0];
                assert(first.id is Some);
            }
        }
        Ok(tasks)
    }
}

} // verus!
