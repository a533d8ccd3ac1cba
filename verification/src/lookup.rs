//! Facts about finding rows in a well-formed store.

use crate::model::DatabaseView;
use vstd::prelude::*;

verus! {

/// In a well-formed store the task at position `i` is the one that its
/// id finds.
pub proof fn lemma_task_at(db: DatabaseView, i: int)
    requires
        db.wf(),
        0 <= i < db.tasks.len(),
    ensures
        db.has_task(db.tasks[i].id),
        db.task_position(db.tasks[i].id) == i,
        db.task_row(db.tasks[i].id) == db.tasks[i],
{
    let id = db.tasks[i].id;
    let at = db.task_position(id);
    assert(0 <= at < db.tasks.len() && db.tasks[at].id == id);
    if at < i {
        assert(db.tasks[at].id != db.tasks[i].id);
    } else if i < at {
        assert(db.tasks[i].id != db.tasks[at].id);
    }
}

/// In a well-formed store the tag at position `i` is the one that its id
/// finds.
pub proof fn lemma_tag_at(db: DatabaseView, i: int)
    requires
        db.wf(),
        0 <= i < db.tags.len(),
    ensures
        db.tags[i].id is Some,
        db.has_tag(db.tags[i].id->0),
        db.has_tag_name(db.tags[i].name),
        db.tag_position(db.tags[i].id->0) == i,
        db.tag(db.tags[i].id->0) == db.tags[i],
{
    let id = db.tags[i].id->0;
    let at = db.tag_position(id);
    assert(0 <= at < db.tags.len() && db.tags[at].id == Some(id));
    if at < i {
        assert(db.tags[at].id != db.tags[i].id);
    } else if i < at {
        assert(db.tags[i].id != db.tags[at].id);
    }
}

/// A stored task's position lies in the table and holds its id.
pub proof fn lemma_task_position(db: DatabaseView, id: i64)
    requires
        db.has_task(id),
    ensures
        0 <= db.task_position(id) < db.tasks.len(),
        db.task_row(id).id == id,
{
}

} // verus!
