//! Keeping the store in step with the database file. The caller reads
//! and writes the file with `rusqlite`; the store decides what follows
//! from the outcome.

use super::{Database, Snapshot};
use crate::error::DbError;
use vstd::prelude::*;

verus! {

impl Database {
    /// The store that the database file holds, initialized. `held` is
    /// what reading the file gave.
    ///
    /// Fails with `StorageUnavailable` where the file could not be read,
    /// or holds what breaks the rules of a store.
    pub fn open(held: Result<Snapshot, rusqlite::Error>) -> (r: Result<Database, DbError>)
        ensures
            match r {
                Ok(db) => held matches Ok(snapshot) && snapshot@.wf() && db.wf() && db@
                    == snapshot@.initialized(),
                Err(e) => e == DbError::StorageUnavailable && !(held matches Ok(snapshot)
                    && snapshot@.wf()),
            },
    {
        match held {
            Ok(snapshot) => Database::restore(snapshot),
            Err(_) => Err(DbError::StorageUnavailable),
        }
    }

    /// A second store that holds what this one holds.
    pub fn duplicate(&self) -> (r: Database)
        ensures
            r@ == self@,
    {
        let Snapshot {
            tasks,
            tags,
            task_tags,
            settings,
            has_sort_order,
            last_task_id,
            last_tag_id,
        } = self.snapshot();
        let copy = Database {
            tasks,
            tags,
            task_tags,
            settings,
            has_sort_order,
            last_task_id,
            last_tag_id,
        };
        assert(copy@ == self@);
        copy
    }

    /// Ends a change that the caller has tried to write to the database
    /// file: `written` is what writing gave, `before` the store as it was
    /// before the change. Where the file has taken the change, the store
    /// keeps it. Where the file has refused, the store holds again what
    /// it held before, and the failure is `StorageUnavailable`: no change
    /// is ever half applied.
    pub fn confirm_write(&mut self, before: Database, written: Result<(), rusqlite::Error>) -> (r:
        Result<(), DbError>)
        requires
            old(self).wf(),
            before.wf(),
        ensures
            final(self).wf(),
            match written {
                Ok(_) => r is Ok && final(self)@ == old(self)@,
                Err(_) => r == Err::<(), DbError>(DbError::StorageUnavailable) && final(self)@
                    == before@,
            },
    {
        match written {
            Ok(_) => Ok(()),
            Err(_) => {
                *self = before;
                Err(DbError::StorageUnavailable)
            },
        }
    }
}

} // verus!
