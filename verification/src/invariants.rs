//! Every operation of the model keeps the rules of a well-formed store.

use crate::lookup::{lemma_tag_at, lemma_task_at};
use crate::model::{
    link_to, name_of_link, not_naming, not_of_task, of_task, patched_tag, ranked_row,
    reordered_row, DatabaseView,
};
use crate::models::{TaskRowView, TaskTagView};
use vstd::prelude::*;

verus! {

/// What is left of a sequence without repetitions has none either.
pub proof fn lemma_filter_no_duplicates<A>(s: Seq<A>, p: spec_fn(A) -> bool)
    requires
        s.no_duplicates(),
    ensures
        s.filter(p).no_duplicates(),
    decreases s.len(),
{
    reveal(Seq::filter);
    if s.len() > 0 {
        let rest = s.drop_last();
        lemma_filter_no_duplicates(rest, p);
        let kept = rest.filter(p);
        if p(s.last()) {
            assert forall|i: int| 0 <= i < kept.len() implies kept[i] != s.last() by {
                assert(kept.contains(kept[i]));
                rest.lemma_filter_contains_rev(p, kept[i]);
                let j = choose|j: int| 0 <= j < rest.len() && rest[j] == kept[i];
                assert(s[j] == kept[i]);
            }
        }
    }
}

/// Each item that a filter keeps is an item of the sequence and meets
/// the filter; each item of the sequence that meets it is kept.
pub proof fn lemma_filter_members<A>(s: Seq<A>, p: spec_fn(A) -> bool)
    ensures
        forall|i: int|
            0 <= i < s.filter(p).len() ==> p(#[trigger] s.filter(p)[i]) && s.contains(
                s.filter(p)[i],
            ),
        forall|i: int| 0 <= i < s.len() && p(#[trigger] s[i]) ==> s.filter(p).contains(s[i]),
        s.filter(p).len() <= s.len(),
{
    let kept = s.filter(p);
    assert forall|i: int| 0 <= i < kept.len() implies p(#[trigger] kept[i]) && s.contains(
        kept[i],
    ) by {
        s.lemma_filter_pred(p, i);
        assert(kept.contains(kept[i]));
        s.lemma_filter_contains_rev(p, kept[i]);
    }
    assert forall|i: int| 0 <= i < s.len() && p(#[trigger] s[i]) implies kept.contains(s[i]) by {
        s.lemma_filter_contains(p, i);
    }
    s.lemma_filter_len(p);
}

/// A filter that every item meets keeps the whole sequence.
pub proof fn lemma_filter_all<A>(s: Seq<A>, p: spec_fn(A) -> bool)
    requires
        forall|i: int| 0 <= i < s.len() ==> p(#[trigger] s[i]),
    ensures
        s.filter(p) == s,
    decreases s.len(),
{
    reveal(Seq::filter);
    if s.len() > 0 {
        lemma_filter_all(s.drop_last(), p);
        assert(s.drop_last().push(s.last()) =~= s);
    }
}

/// A filter that no item meets keeps nothing.
pub proof fn lemma_filter_none<A>(s: Seq<A>, p: spec_fn(A) -> bool)
    requires
        forall|i: int| 0 <= i < s.len() ==> !p(#[trigger] s[i]),
    ensures
        s.filter(p) == Seq::<A>::empty(),
    decreases s.len(),
{
    reveal(Seq::filter);
    if s.len() > 0 {
        lemma_filter_none(s.drop_last(), p);
    }
}

/// After the associations of task `id` have been replaced by `names`,
/// the task carries exactly `names`, every other task carries what it
/// carried, and the store is well-formed.
pub proof fn lemma_with_task_tags(db: DatabaseView, id: i64, names: Seq<Seq<char>>, now: i64)
    requires
        db.wf(),
        db.has_task(id),
        names.no_duplicates(),
        db.can_number_tags(names),
    ensures
        db.with_task_tags(id, names, now).wf(),
        db.with_task_tags(id, names, now).tag_names_of(id) == names,
        forall|other: i64|
            other != id ==> #[trigger] db.with_task_tags(id, names, now).tag_names_of(other)
                == db.tag_names_of(other),
        forall|name: Seq<char>|
            #[trigger] db.with_task_tags(id, names, now).has_tag_name(name) <==> db.has_tag_name(
                name,
            ) || names.contains(name),
{
    let next = db.with_task_tags(id, names, now);
    let missing = db.missing_tag_names(names);
    let absent = db.lacks_tag();
    let added = db.implied_tags(names, now);
    let kept = db.task_tags.filter(not_of_task(id));
    let fresh = names.map_values(link_to(id));
    lemma_filter_no_duplicates(names, absent);
    lemma_filter_members(names, absent);
    lemma_filter_no_duplicates(db.task_tags, not_of_task(id));
    lemma_filter_members(db.task_tags, not_of_task(id));

    // The tag table.
    assert forall|name: Seq<char>| #[trigger] next.has_tag_name(name) <==> db.has_tag_name(name)
        || names.contains(name) by {
        if db.has_tag_name(name) {
            let i = choose|i: int| 0 <= i < db.tags.len() && (#[trigger] db.tags[i]).name == name;
            assert(next.tags[i].name == name);
        } else if names.contains(name) {
            let j = choose|j: int| 0 <= j < names.len() && names[j] == name;
            assert(absent(names[j]));
            assert(missing.contains(names[j]));
            let k = choose|k: int| 0 <= k < missing.len() && missing[k] == name;
            assert(next.tags[db.tags.len() + k].name == name);
        }
        if next.has_tag_name(name) {
            let i = choose|i: int|
                0 <= i < next.tags.len() && (#[trigger] next.tags[i]).name == name;
            if i < db.tags.len() {
                assert(db.tags[i].name == name);
            } else {
                assert(added[i - db.tags.len()].name == name);
                assert(names.contains(missing[i - db.tags.len()]));
            }
        }
    }
    assert forall|i: int, j: int| 0 <= i < j < next.tags.len() implies (#[trigger] next.tags[i]).id
        != (#[trigger] next.tags[j]).id && next.tags[i].name != next.tags[j].name by {
        if j < db.tags.len() {
            assert(next.tags[i] == db.tags[i] && next.tags[j] == db.tags[j]);
        } else if i < db.tags.len() {
            assert(next.tags[i] == db.tags[i]);
            assert(next.tags[j] == added[j - db.tags.len()]);
            assert(absent(missing[j - db.tags.len()]));
        } else {
            assert(next.tags[i] == added[i - db.tags.len()]);
            assert(next.tags[j] == added[j - db.tags.len()]);
        }
    }
    assert forall|i: int| 0 <= i < next.tags.len() implies ((
    #[trigger] next.tags[i]).id matches Some(tag_id) && tag_id <= next.last_tag_id) by {
        if i < db.tags.len() {
            assert(next.tags[i] == db.tags[i]);
        } else {
            assert(next.tags[i] == added[i - db.tags.len()]);
        }
    }

    // The association table.
    assert(fresh.no_duplicates()) by {
        assert forall|i: int, j: int|
            0 <= i < fresh.len() && 0 <= j < fresh.len() && i != j implies fresh[i]
            != fresh[j] by {
            assert(fresh[i].tag_name == names[i] && fresh[j].tag_name == names[j]);
        }
    }
    assert forall|i: int, j: int| 0 <= i < kept.len() && 0 <= j < fresh.len() implies kept[i]
        != fresh[j] by {
        assert(not_of_task(id)(kept[i]));
    }
    vstd::seq_lib::lemma_no_dup_in_concat(kept, fresh);
    assert forall|i: int| 0 <= i < next.task_tags.len() implies next.has_task(
        (#[trigger] next.task_tags[i]).task_id,
    ) && next.has_tag_name(next.task_tags[i].tag_name) by {
        if i < kept.len() {
            assert(next.task_tags[i] == kept[i]);
            assert(db.task_tags.contains(kept[i]));
            let j = choose|j: int| 0 <= j < db.task_tags.len() && db.task_tags[j] == kept[i];
            assert(db.has_task(db.task_tags[j].task_id));
            assert(db.has_tag_name(db.task_tags[j].tag_name));
        } else {
            assert(next.task_tags[i] == fresh[i - kept.len()]);
            assert(names.contains(names[i - kept.len()]));
        }
    }

    // What each task carries.
    assert(next.tag_names_of(id) == names) by {
        lemma_filter_none(kept, of_task(id));
        assert forall|i: int| 0 <= i < fresh.len() implies of_task(id)(#[trigger] fresh[i]) by {}
        lemma_filter_all(fresh, of_task(id));
        Seq::filter_distributes_over_add(kept, fresh, of_task(id));
        assert(Seq::<TaskTagView>::empty() + fresh =~= fresh);
        assert(fresh.map_values(name_of_link()) =~= names);
    }
    assert forall|other: i64| other != id implies #[trigger] next.tag_names_of(other)
        == db.tag_names_of(other) by {
        lemma_filter_filter_other(db.task_tags, id, other);
        assert forall|i: int| 0 <= i < fresh.len() implies !of_task(other)(
            #[trigger] fresh[i],
        ) by {}
        lemma_filter_none(fresh, of_task(other));
        Seq::filter_distributes_over_add(kept, fresh, of_task(other));
        assert(kept.filter(of_task(other)) + Seq::<TaskTagView>::empty() =~= kept.filter(
            of_task(other),
        ));
    }
}

/// Storing a row under the next id keeps the store well-formed, and
/// changes neither the tags nor what any other task carries.
pub proof fn lemma_store_row(db: DatabaseView, row: TaskRowView)
    requires
        db.wf(),
        db.last_task_id < i64::MAX,
        row.id == db.last_task_id + 1,
    ensures
        db.with_row(row).wf(),
        db.with_row(row).has_task(row.id),
        db.with_row(row).task_row(row.id) == row,
        !db.has_task(row.id),
        db.tag_names_of(row.id) == Seq::<Seq<char>>::empty(),
        forall|id: i64| db.has_task(id) ==> #[trigger] db.with_row(row).has_task(id),
        forall|id: i64|
            db.has_task(id) ==> #[trigger] db.with_row(row).task_row(id) == db.task_row(id),
{
    let next = db.with_row(row);
    assert(next.wf()) by {
        assert forall|i: int| 0 <= i < next.task_tags.len() implies next.has_task(
            (#[trigger] next.task_tags[i]).task_id,
        ) && next.has_tag_name(next.task_tags[i].tag_name) by {
            assert(db.has_task(db.task_tags[i].task_id));
            assert(db.has_tag_name(db.task_tags[i].tag_name));
            let k = db.task_position(db.task_tags[i].task_id);
            assert(next.tasks[k].id == db.task_tags[i].task_id);
        }
    }
    crate::lookup::lemma_task_at(next, db.tasks.len() as int);
    assert forall|id: i64| db.has_task(id) implies #[trigger] next.task_row(id) == db.task_row(
        id,
    ) by {
        let i = db.task_position(id);
        crate::lookup::lemma_task_at(next, i);
    }
    assert(next.tasks[db.tasks.len() as int].id == row.id);
    assert forall|id: i64| db.has_task(id) implies #[trigger] next.has_task(id) by {
        let i = db.task_position(id);
        assert(next.tasks[i].id == id);
    }
    assert forall|i: int| 0 <= i < db.task_tags.len() implies !of_task(row.id)(
        #[trigger] db.task_tags[i],
    ) by {
        assert(db.has_task(db.task_tags[i].task_id));
    }
    lemma_filter_none(db.task_tags, of_task(row.id));
    assert(Seq::<TaskTagView>::empty().map_values(name_of_link()) =~= Seq::<Seq<char>>::empty());
}

/// Leaving out the associations of task `id` does not change what
/// another task carries.
pub proof fn lemma_filter_filter_other(links: Seq<TaskTagView>, id: i64, other: i64)
    requires
        other != id,
    ensures
        links.filter(not_of_task(id)).filter(of_task(other)) == links.filter(of_task(other)),
    decreases links.len(),
{
    reveal(Seq::filter);
    if links.len() > 0 {
        let rest = links.drop_last();
        lemma_filter_filter_other(rest, id, other);
        let last = links.last();
        if not_of_task(id)(last) {
            rest.filter(not_of_task(id)).lemma_filter_push(last, of_task(other));
        }
    }
}

/// Replacing a row by one with the same id keeps the store well-formed,
/// and changes neither which tasks are stored, nor any other row, nor
/// what any task carries.
pub proof fn lemma_with_row_at(db: DatabaseView, at: int, row: TaskRowView)
    requires
        db.wf(),
        0 <= at < db.tasks.len(),
        row.id == db.tasks[at].id,
    ensures
        db.with_row_at(at, row).wf(),
        db.with_row_at(at, row).task_row(row.id) == row,
        forall|id: i64| #[trigger] db.with_row_at(at, row).has_task(id) == db.has_task(id),
        forall|id: i64|
            db.has_task(id) && id != row.id ==> #[trigger] db.with_row_at(at, row).task_row(id)
                == db.task_row(id),
        forall|id: i64| #[trigger] db.with_row_at(at, row).tag_names_of(id) == db.tag_names_of(id),
        db.with_row_at(at, row).lacks_tag() == db.lacks_tag(),
{
    let next = db.with_row_at(at, row);
    assert forall|id: i64| #[trigger] next.has_task(id) == db.has_task(id) by {
        if db.has_task(id) {
            let i = db.task_position(id);
            assert(next.tasks[i].id == id);
        }
        if next.has_task(id) {
            let i = next.task_position(id);
            assert(db.tasks[i].id == id);
        }
    }
    assert(next.wf()) by {
        assert forall|i: int| 0 <= i < next.task_tags.len() implies next.has_task(
            (#[trigger] next.task_tags[i]).task_id,
        ) && next.has_tag_name(next.task_tags[i].tag_name) by {
            assert(db.has_task(db.task_tags[i].task_id));
            assert(db.has_tag_name(db.task_tags[i].tag_name));
        }
    }
    lemma_task_at(next, at);
    assert forall|id: i64| db.has_task(id) && id != row.id implies #[trigger] next.task_row(id)
        == db.task_row(id) by {
        let i = db.task_position(id);
        lemma_task_at(next, i);
    }
    assert(next.lacks_tag() =~= db.lacks_tag()) by {
        assert forall|name: Seq<char>| next.has_tag_name(name) == db.has_tag_name(name) by {}
    }
}

/// Deleting a task keeps the store well-formed. Afterwards the task is
/// not stored and no association names it; every other task is stored as
/// before and carries what it carried.
pub proof fn lemma_delete_task(db: DatabaseView, id: i64)
    requires
        db.wf(),
    ensures
        db.delete_task_state(id).wf(),
        !db.delete_task_state(id).has_task(id),
        forall|i: int|
            0 <= i < db.delete_task_state(id).task_tags.len() ==> (
            #[trigger] db.delete_task_state(id).task_tags[i]).task_id != id,
        forall|other: i64|
            other != id ==> #[trigger] db.delete_task_state(id).has_task(other) == db.has_task(
                other,
            ),
        forall|other: i64|
            other != id && db.has_task(other) ==> #[trigger] db.delete_task_state(id).task(other)
                == db.task(other),
{
    let next = db.delete_task_state(id);
    lemma_filter_members(db.task_tags, not_of_task(id));
    lemma_filter_no_duplicates(db.task_tags, not_of_task(id));
    if db.has_task(id) {
        let at = db.task_position(id);
        lemma_task_at(db, at);
        assert forall|i: int| 0 <= i < next.tasks.len() implies (#[trigger] next.tasks[i])
            == db.tasks[if i < at {
            i
        } else {
            i + 1
        }] by {}
        assert(!next.has_task(id)) by {
            if next.has_task(id) {
                let i = next.task_position(id);
                lemma_task_at(db, if i < at {
                    i
                } else {
                    i + 1
                });
            }
        }
        assert forall|other: i64| other != id implies #[trigger] next.has_task(other)
            == db.has_task(other) by {
            if db.has_task(other) {
                let i = db.task_position(other);
                if i < at {
                    assert(next.tasks[i].id == other);
                } else {
                    assert(next.tasks[i - 1].id == other);
                }
            }
            if next.has_task(other) {
                let i = next.task_position(other);
                assert(db.tasks[if i < at {
                    i
                } else {
                    i + 1
                }].id == other);
            }
        }
        assert(next.wf()) by {
            assert forall|i: int| 0 <= i < next.task_tags.len() implies next.has_task(
                (#[trigger] next.task_tags[i]).task_id,
            ) && next.has_tag_name(next.task_tags[i].tag_name) by {
                let link = next.task_tags[i];
                assert(not_of_task(id)(link));
                assert(db.task_tags.contains(link));
                let j = choose|j: int| 0 <= j < db.task_tags.len() && db.task_tags[j] == link;
                assert(db.has_task(db.task_tags[j].task_id));
                assert(db.has_tag_name(db.task_tags[j].tag_name));
            }
        }
        assert forall|other: i64| other != id && db.has_task(other) implies #[trigger] next.task(
            other,
        ) == db.task(other) by {
            let i = db.task_position(other);
            lemma_task_at(db, i);
            lemma_task_at(next, if i < at {
                i
            } else {
                i - 1
            });
            lemma_filter_filter_other(db.task_tags, id, other);
        }
    } else {
        assert forall|i: int| 0 <= i < next.task_tags.len() implies (
        #[trigger] next.task_tags[i]).task_id != id by {
            assert(db.has_task(db.task_tags[i].task_id));
        }
    }
}

/// Reordering keeps the store well-formed; it changes display positions
/// and nothing else.
pub proof fn lemma_reorder(db: DatabaseView, orders: Seq<(i64, i64)>)
    requires
        db.wf(),
    ensures
        db.reorder_state(orders).wf(),
        forall|id: i64| #[trigger] db.reorder_state(orders).has_task(id) == db.has_task(id),
        forall|id: i64|
            db.has_task(id) ==> #[trigger] db.reorder_state(orders).task_row(id) == reordered_row(
                db.task_row(id),
                orders,
            ),
{
    let next = db.reorder_state(orders);
    assert forall|i: int| 0 <= i < next.tasks.len() implies (#[trigger] next.tasks[i]).id
        == db.tasks[i].id by {}
    assert forall|id: i64| #[trigger] next.has_task(id) == db.has_task(id) by {
        if db.has_task(id) {
            let i = db.task_position(id);
            assert(next.tasks[i].id == id);
        }
        if next.has_task(id) {
            let i = next.task_position(id);
            assert(db.tasks[i].id == id);
        }
    }
    assert(next.wf()) by {
        assert forall|i: int| 0 <= i < next.task_tags.len() implies next.has_task(
            (#[trigger] next.task_tags[i]).task_id,
        ) && next.has_tag_name(next.task_tags[i].tag_name) by {
            assert(db.has_task(db.task_tags[i].task_id));
            assert(db.has_tag_name(db.task_tags[i].tag_name));
        }
        assert forall|i: int, j: int| 0 <= i < j < next.tasks.len() implies (
        #[trigger] next.tasks[i]).id != (#[trigger] next.tasks[j]).id by {
            assert(db.tasks[i].id != db.tasks[j].id);
        }
        assert forall|i: int| 0 <= i < next.tasks.len() implies (#[trigger] next.tasks[i]).id
            <= next.last_task_id by {
            assert(db.tasks[i].id <= db.last_task_id);
        }
    }
    assert forall|id: i64| db.has_task(id) implies #[trigger] next.task_row(id) == reordered_row(
        db.task_row(id),
        orders,
    ) by {
        let i = db.task_position(id);
        lemma_task_at(db, i);
        lemma_task_at(next, i);
    }
}

/// Creating a tag under a new name keeps the store well-formed; the tag
/// is then stored under the next id.
pub proof fn lemma_create_tag(db: DatabaseView, name: Seq<char>, color: Seq<char>, now: i64)
    requires
        db.wf(),
        db.create_tag_error(name) is None,
    ensures
        db.create_tag_state(name, color, now).wf(),
        db.create_tag_state(name, color, now).has_tag((db.last_tag_id + 1) as i64),
        db.create_tag_state(name, color, now).tag((db.last_tag_id + 1) as i64) == db.new_tag(
            name,
            color,
            now,
        ),
        db.create_tag_state(name, color, now).has_tag_name(name),
{
    let next = db.create_tag_state(name, color, now);
    assert(next.tags[db.tags.len() as int] == db.new_tag(name, color, now));
    assert(next.wf()) by {
        assert forall|i: int| 0 <= i < next.task_tags.len() implies next.has_task(
            (#[trigger] next.task_tags[i]).task_id,
        ) && next.has_tag_name(next.task_tags[i].tag_name) by {
            assert(db.has_task(db.task_tags[i].task_id));
            assert(db.has_tag_name(db.task_tags[i].tag_name));
            let k = choose|k: int|
                0 <= k < db.tags.len() && (#[trigger] db.tags[k]).name
                    == db.task_tags[i].tag_name;
            assert(next.tags[k].name == db.task_tags[i].tag_name);
        }
    }
    lemma_tag_at(next, db.tags.len() as int);
}

/// A partial change that is not refused keeps the store well-formed and
/// leaves the tag as patched.
pub proof fn lemma_update_tag(
    db: DatabaseView,
    id: i64,
    name: Option<Seq<char>>,
    color: Option<Seq<char>>,
)
    requires
        db.wf(),
        db.update_tag_error(id, name, color) is None,
    ensures
        db.update_tag_state(id, name, color).wf(),
        db.update_tag_state(id, name, color).has_tag(id),
        db.update_tag_state(id, name, color).tag(id) == patched_tag(db.tag(id), name, color),
{
    let next = db.update_tag_state(id, name, color);
    let at = db.tag_position(id);
    let tag = patched_tag(db.tag(id), name, color);
    lemma_tag_at(db, at);
    assert(next.tags[at] == tag);
    assert(next.wf()) by {
        assert forall|i: int, j: int| 0 <= i < j < next.tags.len() implies (
        #[trigger] next.tags[i]).id != (#[trigger] next.tags[j]).id && next.tags[i].name
            != next.tags[j].name by {
            assert(db.tags[i].id != db.tags[j].id && db.tags[i].name != db.tags[j].name);
        }
        assert forall|i: int| 0 <= i < next.tags.len() implies ((
        #[trigger] next.tags[i]).id matches Some(tag_id) && tag_id <= next.last_tag_id) by {
            assert(db.tags[i].id is Some);
        }
        assert forall|i: int| 0 <= i < next.task_tags.len() implies next.has_task(
            (#[trigger] next.task_tags[i]).task_id,
        ) && next.has_tag_name(next.task_tags[i].tag_name) by {
            let link = db.task_tags[i];
            assert(db.has_task(link.task_id));
            assert(db.has_tag_name(link.tag_name));
            let k = choose|k: int|
                0 <= k < db.tags.len() && (#[trigger] db.tags[k]).name == link.tag_name;
            if k == at && tag.name != db.tags[at].name {
                assert(db.tag_in_use(db.tags[at].name));
            }
            assert(next.tags[k].name == link.tag_name);
        }
    }
    lemma_tag_at(next, at);
}

/// Deleting a tag keeps the store well-formed. Afterwards the tag is not
/// stored and no association names it.
pub proof fn lemma_delete_tag(db: DatabaseView, id: i64)
    requires
        db.wf(),
    ensures
        db.delete_tag_state(id).wf(),
        !db.delete_tag_state(id).has_tag(id),
        db.has_tag(id) ==> !db.delete_tag_state(id).has_tag_name(db.tag(id).name)
            && !db.delete_tag_state(id).tag_in_use(db.tag(id).name),
{
    let next = db.delete_tag_state(id);
    if db.has_tag(id) {
        let at = db.tag_position(id);
        let name = db.tag(id).name;
        lemma_tag_at(db, at);
        lemma_filter_members(db.task_tags, not_naming(name));
        lemma_filter_no_duplicates(db.task_tags, not_naming(name));
        assert forall|i: int| 0 <= i < next.tags.len() implies (#[trigger] next.tags[i])
            == db.tags[if i < at {
            i
        } else {
            i + 1
        }] by {}
        assert(!next.has_tag(id)) by {
            if next.has_tag(id) {
                let i = next.tag_position(id);
                lemma_tag_at(db, if i < at {
                    i
                } else {
                    i + 1
                });
            }
        }
        assert(!next.has_tag_name(name)) by {
            if next.has_tag_name(name) {
                let i = choose|i: int|
                    0 <= i < next.tags.len() && (#[trigger] next.tags[i]).name == name;
                let j = if i < at {
                    i
                } else {
                    i + 1
                };
                assert(db.tags[j].name == name);
                if j < at {
                    assert(db.tags[j].name != db.tags[at].name);
                } else {
                    assert(db.tags[at].name != db.tags[j].name);
                }
            }
        }
        assert(!next.tag_in_use(name)) by {
            if next.tag_in_use(name) {
                let i = choose|i: int|
                    0 <= i < next.task_tags.len() && (#[trigger] next.task_tags[i]).tag_name
                        == name;
                assert(not_naming(name)(next.task_tags[i]));
            }
        }
        assert(next.wf()) by {
            assert forall|i: int, j: int| 0 <= i < j < next.tags.len() implies (
            #[trigger] next.tags[i]).id != (#[trigger] next.tags[j]).id && next.tags[i].name
                != next.tags[j].name by {
                let a = if i < at {
                    i
                } else {
                    i + 1
                };
                let b = if j < at {
                    j
                } else {
                    j + 1
                };
                assert(db.tags[a].id != db.tags[b].id && db.tags[a].name != db.tags[b].name);
            }
            assert forall|i: int| 0 <= i < next.task_tags.len() implies next.has_task(
                (#[trigger] next.task_tags[i]).task_id,
            ) && next.has_tag_name(next.task_tags[i].tag_name) by {
                let link = next.task_tags[i];
                assert(not_naming(name)(link));
                assert(db.task_tags.contains(link));
                let j = choose|j: int| 0 <= j < db.task_tags.len() && db.task_tags[j] == link;
                assert(db.has_task(db.task_tags[j].task_id));
                assert(db.has_tag_name(db.task_tags[j].tag_name));
                let k = choose|k: int|
                    0 <= k < db.tags.len() && (#[trigger] db.tags[k]).name == link.tag_name;
                if k < at {
                    assert(next.tags[k].name == link.tag_name);
                } else {
                    assert(next.tags[k - 1].name == link.tag_name);
                }
            }
        }
    } else {
    }
}

/// Adding the display-position column keeps the store well-formed; it
/// changes display positions and nothing else.
pub proof fn lemma_migrated(db: DatabaseView)
    requires
        db.wf(),
    ensures
        db.migrated().wf(),
        db.migrated().has_sort_order,
        db.migrated().tasks.len() == db.tasks.len(),
        forall|id: i64| #[trigger] db.migrated().has_task(id) == db.has_task(id),
        forall|id: i64|
            db.has_task(id) && !db.has_sort_order ==> #[trigger] db.migrated().task_row(id)
                == ranked_row(db.tasks, db.task_row(id)),
{
    let next = db.migrated();
    if !db.has_sort_order {
        assert forall|i: int| 0 <= i < next.tasks.len() implies (#[trigger] next.tasks[i]).id
            == db.tasks[i].id by {}
        assert forall|id: i64| #[trigger] next.has_task(id) == db.has_task(id) by {
            if db.has_task(id) {
                let i = db.task_position(id);
                assert(next.tasks[i].id == id);
            }
            if next.has_task(id) {
                let i = next.task_position(id);
                assert(db.tasks[i].id == id);
            }
        }
        assert(next.wf()) by {
            assert forall|i: int| 0 <= i < next.task_tags.len() implies next.has_task(
                (#[trigger] next.task_tags[i]).task_id,
            ) && next.has_tag_name(next.task_tags[i].tag_name) by {
                assert(db.has_task(db.task_tags[i].task_id));
                assert(db.has_tag_name(db.task_tags[i].tag_name));
            }
            assert forall|i: int, j: int| 0 <= i < j < next.tasks.len() implies (
            #[trigger] next.tasks[i]).id != (#[trigger] next.tasks[j]).id by {
                assert(db.tasks[i].id != db.tasks[j].id);
            }
            assert forall|i: int| 0 <= i < next.tasks.len() implies (#[trigger] next.tasks[i]).id
                <= next.last_task_id by {
                assert(db.tasks[i].id <= db.last_task_id);
            }
        }
        assert forall|id: i64| db.has_task(id) implies #[trigger] next.task_row(id) == ranked_row(
            db.tasks,
            db.task_row(id),
        ) by {
            let i = db.task_position(id);
            lemma_task_at(db, i);
            lemma_task_at(next, i);
        }
    }
}

/// Storing settings keeps the store well-formed.
pub proof fn lemma_with_settings(db: DatabaseView, settings: crate::models::AppSettingsView)
    requires
        db.wf(),
    ensures
        db.with_settings(settings).wf(),
{
    let next = db.with_settings(settings);
    assert forall|i: int| 0 <= i < next.task_tags.len() implies next.has_task(
        (#[trigger] next.task_tags[i]).task_id,
    ) && next.has_tag_name(next.task_tags[i].tag_name) by {
        assert(db.has_task(db.task_tags[i].task_id));
        assert(db.has_tag_name(db.task_tags[i].tag_name));
    }
}

} // verus!
