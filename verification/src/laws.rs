//! What holds of the store whatever it holds: the laws that relate its
//! operations to each other.

use crate::error::DbError;
use crate::invariants::{
    lemma_create_tag, lemma_delete_task, lemma_migrated, lemma_store_row, lemma_with_row_at,
    lemma_with_settings, lemma_with_task_tags,
};
use crate::lookup::{lemma_task_at, lemma_task_position};
use crate::model::{
    import_request, max_sort_order, merged_settings, requested_tags, toggled_row, DatabaseView,
};
use crate::models::{AppSettingsView, CreateTaskRequestView, TaskView};
use vstd::prelude::*;

verus! {

/// A request that is not refused leaves a well-formed store.
pub proof fn law_create_keeps_store_well_formed(
    db: DatabaseView,
    req: CreateTaskRequestView,
    now: i64,
)
    requires
        db.wf(),
    ensures
        db.after_create(req, now).wf(),
{
    if db.create_task_error(req) is None {
        let row = db.new_task_row(req, now);
        let names = requested_tags(req.tags);
        lemma_store_row(db, row);
        let stored = db.with_row(row);
        assert(stored.lacks_tag() =~= db.lacks_tag()) by {
            assert forall|name: Seq<char>| stored.has_tag_name(name) == db.has_tag_name(name) by {}
        }
        lemma_with_task_tags(stored, row.id, names, now);
    }
}

/// A task that has been created is found under its id, equal in every
/// field to the task that its creation gave.
pub proof fn law_created_task_is_found(db: DatabaseView, req: CreateTaskRequestView, now: i64)
    requires
        db.wf(),
        db.create_task_error(req) is None,
    ensures
        db.create_task_state(req, now).has_task(db.new_task_row(req, now).id),
        db.create_task_state(req, now).task(db.new_task_row(req, now).id) == db.new_task_row(
            req,
            now,
        ).with_tags(requested_tags(req.tags)),
{
    let row = db.new_task_row(req, now);
    let names = requested_tags(req.tags);
    lemma_store_row(db, row);
    let stored = db.with_row(row);
    assert(stored.lacks_tag() =~= db.lacks_tag()) by {
        assert forall|name: Seq<char>| stored.has_tag_name(name) == db.has_tag_name(name) by {}
    }
    lemma_with_task_tags(stored, row.id, names, now);
    let next = db.create_task_state(req, now);
    let at = stored.task_position(row.id);
    lemma_task_position(stored, row.id);
    assert(next.tasks[at].id == row.id);
    lemma_task_at(next, at);
}

/// The greatest display position is no smaller than any stored one, and
/// where a task is stored some task stands at it.
pub proof fn lemma_max_sort_order(db: DatabaseView)
    ensures
        forall|i: int|
            0 <= i < db.tasks.len() ==> (#[trigger] db.tasks[i]).sort_order <= max_sort_order(
                db.tasks,
            ),
        db.tasks.len() > 0 ==> exists|i: int|
            0 <= i < db.tasks.len() && (#[trigger] db.tasks[i]).sort_order == max_sort_order(
                db.tasks,
            ),
        db.tasks.len() == 0 ==> max_sort_order(db.tasks) == 0,
    decreases db.tasks.len(),
{
    if db.tasks.len() > 1 {
        let rest = DatabaseView { tasks: db.tasks.drop_last(), ..db };
        lemma_max_sort_order(rest);
        assert forall|i: int| 0 <= i < db.tasks.len() implies (#[trigger] db.tasks[i]).sort_order
            <= max_sort_order(db.tasks) by {
            if i < db.tasks.len() - 1 {
                assert(rest.tasks[i] == db.tasks[i]);
            }
        }
        if db.tasks.last().sort_order > max_sort_order(rest.tasks) {
            assert(db.tasks[db.tasks.len() - 1].sort_order == max_sort_order(db.tasks));
        } else {
            let i = choose|i: int|
                0 <= i < rest.tasks.len() && (#[trigger] rest.tasks[i]).sort_order
                    == max_sort_order(rest.tasks);
            assert(db.tasks[i].sort_order == max_sort_order(db.tasks));
        }
    } else if db.tasks.len() == 1 {
        assert(db.tasks[0].sort_order == max_sort_order(db.tasks));
    }
}

/// A new task stands one position after the last: at 1 in a store
/// without tasks, else one above the greatest stored display position.
pub proof fn law_new_task_goes_last(db: DatabaseView, req: CreateTaskRequestView, now: i64)
    requires
        db.wf(),
        db.create_task_error(req) is None,
    ensures
        db.tasks.len() == 0 ==> db.new_task_row(req, now).sort_order == 1,
        forall|i: int|
            0 <= i < db.tasks.len() ==> (#[trigger] db.tasks[i]).sort_order < db.new_task_row(
                req,
                now,
            ).sort_order,
        db.tasks.len() > 0 ==> exists|i: int|
            0 <= i < db.tasks.len() && (#[trigger] db.tasks[i]).sort_order + 1 == db.new_task_row(
                req,
                now,
            ).sort_order,
{
    lemma_max_sort_order(db);
    if db.tasks.len() > 0 {
        let i = choose|i: int|
            0 <= i < db.tasks.len() && (#[trigger] db.tasks[i]).sort_order == max_sort_order(
                db.tasks,
            );
        assert(db.tasks[i].sort_order + 1 == db.new_task_row(req, now).sort_order);
    }
}

/// A task that has been deleted is no longer found.
pub proof fn law_deleted_task_is_gone(db: DatabaseView, id: i64)
    requires
        db.wf(),
    ensures
        !db.delete_task_state(id).has_task(id),
        db.delete_task_state(id).wf(),
{
    lemma_delete_task(db, id);
}

/// Once a tag has been created, creating a tag of the same name is
/// refused as a conflict, whatever its colour.
pub proof fn law_tag_names_are_unique(db: DatabaseView, name: Seq<char>, color: Seq<char>, now: i64)
    requires
        db.wf(),
        db.create_tag_error(name) is None,
    ensures
        db.create_tag_state(name, color, now).create_tag_error(name) == Some(DbError::Conflict),
{
    lemma_create_tag(db, name, color, now);
}

/// Deleting a task deletes its associations: none names the task
/// afterwards, the task carries no tag, and every association that is
/// left joins a stored task to a stored tag.
pub proof fn law_delete_task_cascades(db: DatabaseView, id: i64)
    requires
        db.wf(),
    ensures
        forall|i: int|
            0 <= i < db.delete_task_state(id).task_tags.len() ==> (
            #[trigger] db.delete_task_state(id).task_tags[i]).task_id != id,
        db.delete_task_state(id).tag_names_of(id) == Seq::<Seq<char>>::empty(),
        forall|i: int|
            0 <= i < db.delete_task_state(id).task_tags.len() ==> db.delete_task_state(
                id,
            ).has_task((#[trigger] db.delete_task_state(id).task_tags[i]).task_id)
                && db.delete_task_state(id).has_tag_name(
                db.delete_task_state(id).task_tags[i].tag_name,
            ),
{
    lemma_delete_task(db, id);
    let next = db.delete_task_state(id);
    assert forall|i: int| 0 <= i < next.task_tags.len() implies !crate::model::of_task(id)(
        #[trigger] next.task_tags[i],
    ) by {}
    crate::invariants::lemma_filter_none(next.task_tags, crate::model::of_task(id));
    assert(Seq::<crate::models::TaskTagView>::empty().map_values(crate::model::name_of_link())
        =~= Seq::<Seq<char>>::empty());
}

/// Flipping the completion flag of a task twice restores the store.
pub proof fn law_toggle_twice_restores(db: DatabaseView, id: i64)
    requires
        db.wf(),
        db.has_task(id),
    ensures
        db.toggle_state(id).has_task(id),
        db.toggle_state(id).task_row(id).is_completed == !db.task_row(id).is_completed,
        db.toggle_state(id).toggle_state(id) == db,
{
    let at = db.task_position(id);
    lemma_task_position(db, id);
    let once = db.toggle_state(id);
    lemma_with_row_at(db, at, toggled_row(db.task_row(id)));
    assert(once.tasks[at].id == id);
    lemma_task_at(once, at);
    let twice = once.toggle_state(id);
    assert(twice.tasks =~= db.tasks);
}

/// Initializing a store that has been initialized changes nothing: a
/// store that has its settings and its display-position column stays as
/// it is, and initializing twice gives what initializing once gives.
pub proof fn law_initialize_is_idempotent(db: DatabaseView)
    ensures
        db.settings is Some && db.has_sort_order ==> db.initialized() == db,
        db.initialized().initialized() == db.initialized(),
{
}

/// Initializing loses nothing: tags, associations and counters stay, no
/// task comes or goes, and each task keeps every field but its display
/// position, which changes only where the column was missing.
pub proof fn law_initialize_keeps_data(db: DatabaseView)
    requires
        db.wf(),
    ensures
        db.initialized().wf(),
        db.initialized().settings is Some,
        db.initialized().has_sort_order,
        db.settings is Some ==> db.initialized().settings == db.settings,
        db.has_sort_order ==> db.initialized().tasks == db.tasks,
        db.initialized().tags == db.tags,
        db.initialized().task_tags == db.task_tags,
        db.initialized().last_task_id == db.last_task_id,
        db.initialized().last_tag_id == db.last_tag_id,
        db.initialized().tasks.len() == db.tasks.len(),
        forall|i: int|
            0 <= i < db.tasks.len() ==> {
                let before = #[trigger] db.tasks[i];
                let after = db.initialized().tasks[i];
                &&& after.id == before.id
                &&& after.title == before.title
                &&& after.description == before.description
                &&& after.due_date == before.due_date
                &&& after.priority == before.priority
                &&& after.is_completed == before.is_completed
                &&& after.created_at == before.created_at
            },
{
    let settled = db.with_settings(db.current_settings());
    lemma_with_settings(db, db.current_settings());
    lemma_migrated(settled);
}

/// A change of the theme alone leaves every other setting as it was.
pub proof fn law_theme_change_keeps_the_rest(current: AppSettingsView, theme: Seq<char>)
    ensures
        merged_settings(current, None, None, None, None, Some(theme)) == (AppSettingsView {
            theme,
            ..current
        }),
{
}

/// Bringing in records whose tags are named once each creates a task for
/// every record, as long as the id counter and the display positions
/// have room for them and every tag named is stored already.
pub proof fn law_import_creates_every_record(db: DatabaseView, records: Seq<TaskView>, now: i64)
    requires
        db.wf(),
        db.last_task_id + records.len() <= i64::MAX,
        max_sort_order(db.tasks) + records.len() <= i64::MAX,
        forall|k: int| 0 <= k < records.len() ==> (#[trigger] records[k]).tags.no_duplicates(),
        forall|k: int, j: int|
            0 <= k < records.len() && 0 <= j < records[k].tags.len() ==> db.has_tag_name(
                #[trigger] records[k].tags[j],
            ),
    ensures
        db.import_state(records, now).wf(),
        db.import_count(records, now) == records.len(),
        db.import_state(records, now).tasks.len() == db.tasks.len() + records.len(),
        db.import_state(records, now).last_task_id == db.last_task_id + records.len(),
        db.import_state(records, now).tags == db.tags,
        max_sort_order(db.import_state(records, now).tasks) == max_sort_order(db.tasks)
            + records.len(),
    decreases records.len(),
{
    if records.len() > 0 {
        let rest = records.drop_last();
        assert forall|k: int| 0 <= k < rest.len() implies (
        #[trigger] rest[k]).tags.no_duplicates() by {
            assert(rest[k] == records[k]);
        }
        assert forall|k: int, j: int|
            0 <= k < rest.len() && 0 <= j < rest[k].tags.len() implies db.has_tag_name(
            #[trigger] rest[k].tags[j],
        ) by {
            assert(rest[k] == records[k]);
            assert(db.has_tag_name(records[k].tags[j]));
        }
        law_import_creates_every_record(db, rest, now);
        let before = db.import_state(rest, now);
        let req = import_request(records.last());
        let names = records.last().tags;
        assert forall|j: int| 0 <= j < names.len() implies !before.lacks_tag()(
            #[trigger] names[j],
        ) by {
            assert(db.has_tag_name(records[records.len() - 1].tags[j]));
        }
        crate::invariants::lemma_filter_none(names, before.lacks_tag());
        assert(before.create_task_error(req) is None);
        law_create_keeps_store_well_formed(before, req, now);
        let row = before.new_task_row(req, now);
        let stored = before.with_row(row);
        assert(stored.lacks_tag() =~= before.lacks_tag()) by {
            assert forall|name: Seq<char>| stored.has_tag_name(name) == before.has_tag_name(
                name,
            ) by {}
        }
        let after = before.create_task_state(req, now);
        assert(after.tags =~= before.tags);
        assert(after.tasks.drop_last() =~= before.tasks);
        lemma_max_sort_order(before);
    }
}

} // verus!
