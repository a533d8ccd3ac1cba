//! A listing is pinned down by what it must hold and in which order: two
//! listings of the same store for the same question are the same.

use crate::invariants::{lemma_filter_members, lemma_filter_no_duplicates};
use crate::laws::law_import_creates_every_record;
use crate::model::{
    max_sort_order, name_of_link, of_task, DatabaseView, TaskFilter, TaskOrder,
};
use crate::models::{TagView, TaskView};
use crate::query::lemma_order_strict_total;
use crate::text::{lemma_text_before_strict_total, text_before};
use vstd::prelude::*;

verus! {

/// Where the task with this id stands in a listing.
pub open spec fn place_of(listing: Seq<TaskView>, id: i64) -> int {
    choose|m: int| 0 <= m < listing.len() && (#[trigger] listing[m]).id == Some(id)
}

/// Of two listings for the same question, the second holds the tasks of
/// the first in the same order: the place in `b` of the task at place `k`
/// of `a` is at least `k`, and grows with `k`.
proof fn lemma_places_grow(
    db: DatabaseView,
    a: Seq<TaskView>,
    b: Seq<TaskView>,
    filter: TaskFilter,
    order: TaskOrder,
    k: int,
)
    requires
        db.wf(),
        db.lists(a, filter, order),
        db.lists(b, filter, order),
        0 <= k < a.len(),
    ensures
        k <= place_of(b, a[k].id->0) < b.len(),
        b[place_of(b, a[k].id->0)].id == a[k].id,
        k > 0 ==> place_of(b, a[k - 1].id->0) < place_of(b, a[k].id->0),
    decreases k,
{
    let id = a[k].id->0;
    assert(db.has_task(id) && filter.admits(db.task_row(id)));
    let m = place_of(b, id);
    assert(0 <= m < b.len() && b[m].id == Some(id));
    if k > 0 {
        lemma_places_grow(db, a, b, filter, order, k - 1);
        let earlier = a[k - 1].id->0;
        let n = place_of(b, earlier);
        let x = db.task_row(earlier);
        let y = db.task_row(id);
        assert(order.places_before(x, y));
        lemma_order_strict_total(order, x, y, x);
        if m < n {
            assert(order.places_before(db.task_row(b[m].id->0), db.task_row(b[n].id->0)));
        }
    }
}

/// Of two listings for the same question with the same number of tasks,
/// the place in `b` of the task at place `k` of `a` is at most `k`.
proof fn lemma_places_are_bounded(
    db: DatabaseView,
    a: Seq<TaskView>,
    b: Seq<TaskView>,
    filter: TaskFilter,
    order: TaskOrder,
    k: int,
)
    requires
        db.wf(),
        db.lists(a, filter, order),
        db.lists(b, filter, order),
        a.len() == b.len(),
        0 <= k < a.len(),
    ensures
        place_of(b, a[k].id->0) <= k,
    decreases a.len() - k,
{
    lemma_places_grow(db, a, b, filter, order, k);
    if k + 1 < a.len() {
        lemma_places_are_bounded(db, a, b, filter, order, k + 1);
        lemma_places_grow(db, a, b, filter, order, k + 1);
    }
}

/// Two listings of the same store for the same filter and order are equal.
pub proof fn law_listing_is_unique(
    db: DatabaseView,
    a: Seq<TaskView>,
    b: Seq<TaskView>,
    filter: TaskFilter,
    order: TaskOrder,
)
    requires
        db.wf(),
        db.lists(a, filter, order),
        db.lists(b, filter, order),
    ensures
        a == b,
{
    if a.len() > 0 {
        lemma_places_grow(db, a, b, filter, order, a.len() - 1);
    }
    if b.len() > 0 {
        lemma_places_grow(db, b, a, filter, order, b.len() - 1);
    }
    assert(a.len() == b.len());
    assert forall|k: int| 0 <= k < a.len() implies a[k] == b[k] by {
        lemma_places_grow(db, a, b, filter, order, k);
        lemma_places_are_bounded(db, a, b, filter, order, k);
        assert(b[k].id == a[k].id);
        assert(a[k] == db.task(a[k].id->0));
        assert(b[k] == db.task(b[k].id->0));
    }
    assert(a =~= b);
}

/// A listing holds a stored task if and only if its filter admits the
/// task: the listing of overdue tasks holds every open task that was due
/// before the given instant and no other task, and so for each filter.
pub proof fn law_listing_holds_what_is_admitted(
    db: DatabaseView,
    listing: Seq<TaskView>,
    filter: TaskFilter,
    order: TaskOrder,
    id: i64,
)
    requires
        db.wf(),
        db.lists(listing, filter, order),
        db.has_task(id),
    ensures
        filter.admits(db.task_row(id)) <==> exists|k: int|
            0 <= k < listing.len() && (#[trigger] listing[k]).id == Some(id),
{
}

/// Where the tag with this name stands in a listing.
pub open spec fn place_of_name(listing: Seq<TagView>, name: Seq<char>) -> int {
    choose|m: int| 0 <= m < listing.len() && (#[trigger] listing[m]).name == name
}

/// Of two tag listings of one store, the second holds the tags of the
/// first in the same order.
proof fn lemma_name_places_grow(db: DatabaseView, a: Seq<TagView>, b: Seq<TagView>, k: int)
    requires
        db.wf(),
        db.lists_tags(a),
        db.lists_tags(b),
        0 <= k < a.len(),
    ensures
        k <= place_of_name(b, a[k].name) < b.len(),
        b[place_of_name(b, a[k].name)] == a[k],
        k > 0 ==> place_of_name(b, a[k - 1].name) < place_of_name(b, a[k].name),
    decreases k,
{
    let tag = a[k];
    assert(db.tags.contains(tag));
    let i = choose|i: int| 0 <= i < db.tags.len() && db.tags[i] == tag;
    assert(b.contains(db.tags[i]));
    let found = choose|m: int| 0 <= m < b.len() && b[m] == tag;
    assert(b[found].name == tag.name);
    let m = place_of_name(b, tag.name);
    assert(0 <= m < b.len() && b[m].name == tag.name);
    assert(b[m] == tag) by {
        assert(db.tags.contains(b[m]));
        let j = choose|j: int| 0 <= j < db.tags.len() && db.tags[j] == b[m];
        if i < j {
            assert(db.tags[i].name != db.tags[j].name);
        } else if j < i {
            assert(db.tags[j].name != db.tags[i].name);
        }
    }
    if k > 0 {
        lemma_name_places_grow(db, a, b, k - 1);
        let n = place_of_name(b, a[k - 1].name);
        assert(text_before(a[k - 1].name, a[k].name));
        lemma_text_before_strict_total(a[k - 1].name, a[k].name, a[k - 1].name);
        if m < n {
            assert(text_before(b[m].name, b[n].name));
        }
    }
}

/// Of two tag listings of one store with the same number of tags, the
/// place in `b` of the tag at place `k` of `a` is at most `k`.
proof fn lemma_name_places_are_bounded(db: DatabaseView, a: Seq<TagView>, b: Seq<TagView>, k: int)
    requires
        db.wf(),
        db.lists_tags(a),
        db.lists_tags(b),
        a.len() == b.len(),
        0 <= k < a.len(),
    ensures
        place_of_name(b, a[k].name) <= k,
    decreases a.len() - k,
{
    lemma_name_places_grow(db, a, b, k);
    if k + 1 < a.len() {
        lemma_name_places_are_bounded(db, a, b, k + 1);
        lemma_name_places_grow(db, a, b, k + 1);
    }
}

/// Two listings of the tags of the same store are equal.
pub proof fn law_tag_listing_is_unique(db: DatabaseView, a: Seq<TagView>, b: Seq<TagView>)
    requires
        db.wf(),
        db.lists_tags(a),
        db.lists_tags(b),
    ensures
        a == b,
{
    if a.len() > 0 {
        lemma_name_places_grow(db, a, b, a.len() - 1);
    }
    if b.len() > 0 {
        lemma_name_places_grow(db, b, a, b.len() - 1);
    }
    assert(a.len() == b.len());
    assert forall|k: int| 0 <= k < a.len() implies a[k] == b[k] by {
        lemma_name_places_grow(db, a, b, k);
        lemma_name_places_are_bounded(db, a, b, k);
    }
    assert(a =~= b);
}

/// The tags that a stored task carries are named once each, and each is
/// a stored tag.
pub proof fn lemma_carried_tags(db: DatabaseView, id: i64)
    requires
        db.wf(),
    ensures
        db.tag_names_of(id).no_duplicates(),
        forall|j: int|
            0 <= j < db.tag_names_of(id).len() ==> db.has_tag_name(
                #[trigger] db.tag_names_of(id)[j],
            ),
{
    let links = db.task_tags.filter(of_task(id));
    let names = db.tag_names_of(id);
    lemma_filter_no_duplicates(db.task_tags, of_task(id));
    lemma_filter_members(db.task_tags, of_task(id));
    assert forall|i: int, j: int|
        0 <= i < names.len() && 0 <= j < names.len() && i != j implies names[i] != names[j] by {
        assert(of_task(id)(links[i]) && of_task(id)(links[j]));
        assert(links[i] != links[j]);
        assert(names[i] == name_of_link()(links[i]));
        assert(names[j] == name_of_link()(links[j]));
    }
    assert forall|j: int| 0 <= j < names.len() implies db.has_tag_name(#[trigger] names[j]) by {
        assert(db.task_tags.contains(links[j]));
        let i = choose|i: int| 0 <= i < db.task_tags.len() && db.task_tags[i] == links[j];
        assert(db.has_tag_name(db.task_tags[i].tag_name));
        assert(names[j] == name_of_link()(links[j]));
    }
}

/// The listing of every task holds as many tasks as the store.
pub proof fn lemma_full_listing_length(db: DatabaseView, listing: Seq<TaskView>, order: TaskOrder)
    requires
        db.wf(),
        db.lists(listing, TaskFilter::All, order),
    ensures
        listing.len() == db.tasks.len(),
{
    let listed = listing.map_values(|t: TaskView| t.id->0);
    let stored = db.tasks.map_values(|r: crate::models::TaskRowView| r.id);
    assert(listed.no_duplicates()) by {
        assert forall|j: int, k: int| 0 <= j < listed.len() && 0 <= k < listed.len() && j
            != k implies listed[j] != listed[k] by {
            let x = db.task_row(listing[j].id->0);
            lemma_order_strict_total(order, x, x, x);
            if j < k {
                assert(order.places_before(
                    db.task_row(listing[j].id->0),
                    db.task_row(listing[k].id->0),
                ));
            } else {
                assert(order.places_before(
                    db.task_row(listing[k].id->0),
                    db.task_row(listing[j].id->0),
                ));
            }
        }
    }
    assert(stored.no_duplicates()) by {
        assert forall|i: int, j: int| 0 <= i < stored.len() && 0 <= j < stored.len() && i
            != j implies stored[i] != stored[j] by {
            if i < j {
                assert(db.tasks[i].id != db.tasks[j].id);
            } else {
                assert(db.tasks[j].id != db.tasks[i].id);
            }
        }
    }
    assert(listed.to_set() =~= stored.to_set()) by {
        assert forall|id: i64| listed.to_set().contains(id) <==> stored.to_set().contains(id) by {
            if listed.contains(id) {
                let k = choose|k: int| 0 <= k < listed.len() && listed[k] == id;
                assert(listing[k].id matches Some(found) && db.has_task(found));
                let i = db.task_position(id);
                assert(stored[i] == id);
            }
            if stored.contains(id) {
                let i = choose|i: int| 0 <= i < stored.len() && stored[i] == id;
                assert(db.tasks[i].id == id);
                assert(db.has_task(id) && TaskFilter::All.admits(db.task_row(id)));
                let k = choose|k: int|
                    0 <= k < listing.len() && (#[trigger] listing[k]).id == Some(id);
                assert(listed[k] == id);
            }
        }
    }
    listed.unique_seq_to_set();
    stored.unique_seq_to_set();
}

/// Bringing an export of the store into the same store doubles its
/// tasks: every exported record becomes a new task. This holds as long
/// as the task counter and the display positions have room for as many
/// tasks again.
pub proof fn law_import_of_export_doubles(
    db: DatabaseView,
    export: Seq<TaskView>,
    order: TaskOrder,
    now: i64,
)
    requires
        db.wf(),
        db.lists(export, TaskFilter::All, order),
        db.last_task_id + db.tasks.len() <= i64::MAX,
        max_sort_order(db.tasks) + db.tasks.len() <= i64::MAX,
    ensures
        db.import_count(export, now) == db.tasks.len(),
        db.import_state(export, now).tasks.len() == 2 * db.tasks.len(),
        db.import_state(export, now).wf(),
{
    lemma_full_listing_length(db, export, order);
    assert forall|k: int| 0 <= k < export.len() implies (
    #[trigger] export[k]).tags.no_duplicates() by {
        lemma_carried_tags(db, export[k].id->0);
    }
    assert forall|k: int, j: int|
        0 <= k < export.len() && 0 <= j < export[k].tags.len() implies db.has_tag_name(
        #[trigger] export[k].tags[j],
    ) by {
        lemma_carried_tags(db, export[k].id->0);
        assert(export[k].tags == db.tag_names_of(export[k].id->0));
    }
    law_import_creates_every_record(db, export, now);
}

} // verus!
