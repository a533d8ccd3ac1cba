//! Searching and copying the rows of the three tables.

use crate::model::{
    created_no_later, creation_rank, link_to, max_sort_order, name_of_link, no_later_than,
    not_naming, not_of_task, numbered_tags, of_task,
};
use crate::models::{AppSettings, Tag, Task, TaskRow, TaskRowView, TaskTag};
use crate::text::same_text;
use vstd::prelude::*;

verus! {

broadcast use {
    Seq::lemma_filter_push,
    Seq::lemma_push_map_commute,
    Seq::lemma_take_succ_push,
};

/// A copy of a task row.
pub fn copy_row(row: &TaskRow) -> (r: TaskRow)
    ensures
        r@ == row@,
{
    TaskRow {
        id: row.id,
        title: row.title.clone(),
        description: row.description.clone(),
        due_date: row.due_date,
        priority: row.priority,
        is_completed: row.is_completed,
        created_at: row.created_at,
        sort_order: row.sort_order,
    }
}

/// A copy of a tag.
pub fn copy_tag(tag: &Tag) -> (r: Tag)
    ensures
        r@ == tag@,
{
    Tag { id: tag.id, name: tag.name.clone(), color: tag.color.clone(), created_at: tag.created_at }
}

/// A copy of an association.
pub fn copy_link(link: &TaskTag) -> (r: TaskTag)
    ensures
        r@ == link@,
{
    TaskTag { task_id: link.task_id, tag_name: link.tag_name.clone() }
}

/// A copy of the settings.
pub fn copy_settings(settings: &AppSettings) -> (r: AppSettings)
    ensures
        r@ == settings@,
{
    AppSettings {
        close_behavior: settings.close_behavior,
        notifications_enabled: settings.notifications_enabled,
        notification_time_before: settings.notification_time_before,
        startup_behavior: settings.startup_behavior,
        theme: settings.theme.clone(),
    }
}

/// The task that a row and its tag names make up.
pub fn task_of_row(row: &TaskRow, tags: Vec<String>) -> (t: Task)
    ensures
        t@ == row@.with_tags(tags.deep_view()),
{
    Task {
        id: Some(row.id),
        title: row.title.clone(),
        description: row.description.clone(),
        due_date: row.due_date,
        priority: row.priority,
        is_completed: row.is_completed,
        created_at: row.created_at,
        tags,
        sort_order: row.sort_order,
    }
}

/// Where the row with this id stands, if there is one.
pub fn find_task(rows: &Vec<TaskRow>, id: i64) -> (r: Option<usize>)
    ensures
        match r {
            Some(i) => i < rows.len() && rows@[i as int].id == id,
            None => forall|j: int| 0 <= j < rows.len() ==> (#[trigger] rows@[j]).id != id,
        },
{
    let mut i: usize = 0;
    while i < rows.len()
        invariant
            i <= rows.len(),
            forall|j: int| 0 <= j < i ==> (#[trigger] rows@[j]).id != id,
        decreases rows.len() - i,
    {
        if rows[i].id == id {
            return Some(i);
        }
        i = i + 1;
    }
    None
}

/// Where the tag with this id stands, if there is one.
pub fn find_tag(tags: &Vec<Tag>, id: i64) -> (r: Option<usize>)
    ensures
        match r {
            Some(i) => i < tags.len() && tags@[i as int].id == Some(id),
            None => forall|j: int| 0 <= j < tags.len() ==> (#[trigger] tags@[j]).id != Some(id),
        },
{
    let mut i: usize = 0;
    while i < tags.len()
        invariant
            i <= tags.len(),
            forall|j: int| 0 <= j < i ==> (#[trigger] tags@[j]).id != Some(id),
        decreases tags.len() - i,
    {
        match tags[i].id {
            Some(found) => {
                if found == id {
                    return Some(i);
                }
            },
            None => {},
        }
        i = i + 1;
    }
    None
}

/// Where the tag with this name stands, if there is one.
pub fn find_tag_named(tags: &Vec<Tag>, name: &str) -> (r: Option<usize>)
    ensures
        match r {
            Some(i) => i < tags.len() && tags@[i as int].name@ == name@,
            None => forall|j: int| 0 <= j < tags.len() ==> (#[trigger] tags@[j]).name@ != name@,
        },
{
    let mut i: usize = 0;
    while i < tags.len()
        invariant
            i <= tags.len(),
            forall|j: int| 0 <= j < i ==> (#[trigger] tags@[j]).name@ != name@,
        decreases tags.len() - i,
    {
        if same_text(tags[i].name.as_str(), name) {
            return Some(i);
        }
        i = i + 1;
    }
    None
}

/// Whether some association names the tag.
pub fn names_tag(links: &Vec<TaskTag>, name: &str) -> (r: bool)
    ensures
        r == exists|i: int| 0 <= i < links.len() && (#[trigger] links@[i]).tag_name@ == name@,
{
    let mut i: usize = 0;
    while i < links.len()
        invariant
            i <= links.len(),
            forall|j: int| 0 <= j < i ==> (#[trigger] links@[j]).tag_name@ != name@,
        decreases links.len() - i,
    {
        if same_text(links[i].tag_name.as_str(), name) {
            return true;
        }
        i = i + 1;
    }
    false
}

/// The names of the tags attached to the task, in table order.
pub fn tag_names_in(links: &Vec<TaskTag>, id: i64) -> (names: Vec<String>)
    ensures
        names.deep_view() == links.deep_view().filter(of_task(id)).map_values(name_of_link()),
{
    let mut names: Vec<String> = Vec::new();
    let mut i: usize = 0;
    assert(links.deep_view().take(0) =~= Seq::empty());
    assert(names.deep_view() =~= Seq::empty());
    assert(Seq::<crate::models::TaskTagView>::empty().filter(of_task(id)) =~= Seq::empty()) by {
        reveal(Seq::filter);
    }
    while i < links.len()
        invariant
            i <= links.len(),
            names.deep_view() == links.deep_view().take(i as int).filter(of_task(id)).map_values(
                name_of_link(),
            ),
        decreases links.len() - i,
    {
        let ghost before = names.deep_view();
        let ghost seen = links.deep_view().take(i as int);
        proof {
            assert(links.deep_view().take(i + 1) == seen.push(links.deep_view()[i as int]));
            assert(links.deep_view()[i as int] == links@[i as int]@);
        }
        if links[i].task_id == id {
            names.push(links[i].tag_name.clone());
            proof {
                assert(names.deep_view() =~= before.push(links@[i as int].tag_name@));
                assert(seen.push(links@[i as int]@).filter(of_task(id)) == seen.filter(
                    of_task(id),
                ).push(links@[i as int]@));
            }
        }
        i = i + 1;
    }
    assert(links.deep_view().take(links.len() as int) =~= links.deep_view());
    names
}

/// The associations of every task but `id`, in table order.
pub fn links_without_task(links: &Vec<TaskTag>, id: i64) -> (out: Vec<TaskTag>)
    ensures
        out.deep_view() == links.deep_view().filter(not_of_task(id)),
{
    let mut out: Vec<TaskTag> = Vec::new();
    let mut i: usize = 0;
    assert(links.deep_view().take(0) =~= Seq::empty());
    assert(out.deep_view() =~= Seq::empty());
    assert(Seq::<crate::models::TaskTagView>::empty().filter(not_of_task(id)) =~= Seq::empty())
        by {
        reveal(Seq::filter);
    }
    while i < links.len()
        invariant
            i <= links.len(),
            out.deep_view() == links.deep_view().take(i as int).filter(not_of_task(id)),
        decreases links.len() - i,
    {
        let ghost before = out.deep_view();
        let ghost seen = links.deep_view().take(i as int);
        proof {
            assert(links.deep_view().take(i + 1) == seen.push(links.deep_view()[i as int]));
            assert(links.deep_view()[i as int] == links@[i as int]@);
        }
        if links[i].task_id != id {
            out.push(copy_link(&links[i]));
            proof {
                assert(out.deep_view() =~= before.push(links@[i as int]@));
            }
        }
        i = i + 1;
    }
    assert(links.deep_view().take(links.len() as int) =~= links.deep_view());
    out
}

/// The associations that name any tag but `name`, in table order.
pub fn links_without_name(links: &Vec<TaskTag>, name: &str) -> (out: Vec<TaskTag>)
    ensures
        out.deep_view() == links.deep_view().filter(not_naming(name@)),
{
    let mut out: Vec<TaskTag> = Vec::new();
    let mut i: usize = 0;
    assert(links.deep_view().take(0) =~= Seq::empty());
    assert(out.deep_view() =~= Seq::empty());
    assert(Seq::<crate::models::TaskTagView>::empty().filter(not_naming(name@)) =~= Seq::empty())
        by {
        reveal(Seq::filter);
    }
    while i < links.len()
        invariant
            i <= links.len(),
            out.deep_view() == links.deep_view().take(i as int).filter(not_naming(name@)),
        decreases links.len() - i,
    {
        let ghost before = out.deep_view();
        let ghost seen = links.deep_view().take(i as int);
        proof {
            assert(links.deep_view().take(i + 1) == seen.push(links.deep_view()[i as int]));
            assert(links.deep_view()[i as int] == links@[i as int]@);
        }
        if !same_text(links[i].tag_name.as_str(), name) {
            out.push(copy_link(&links[i]));
            proof {
                assert(out.deep_view() =~= before.push(links@[i as int]@));
            }
        }
        i = i + 1;
    }
    assert(links.deep_view().take(links.len() as int) =~= links.deep_view());
    out
}

/// Adds a tag for each of `names`, with the default colour, numbered on
/// from `last_id`, and gives the last number used.
pub fn push_numbered_tags(tags: &mut Vec<Tag>, names: &Vec<String>, last_id: i64, now: i64) -> (r:
    i64)
    requires
        last_id + names.len() <= i64::MAX,
    ensures
        final(tags).deep_view() == old(tags).deep_view() + numbered_tags(
            names.deep_view(),
            last_id,
            now,
        ),
        r == last_id + names.len(),
{
    let ghost start = tags.deep_view();
    let ghost added = numbered_tags(names.deep_view(), last_id, now);
    let mut last: i64 = last_id;
    let mut k: usize = 0;
    assert(tags.deep_view() =~= start + added.take(0));
    while k < names.len()
        invariant
            k <= names.len(),
            last == last_id + k,
            last_id + names.len() <= i64::MAX,
            added == numbered_tags(names.deep_view(), last_id, now),
            tags.deep_view() == start + added.take(k as int),
        decreases names.len() - k,
    {
        let ghost before = tags.deep_view();
        last = last + 1;
        let tag = Tag {
            id: Some(last),
            name: names[k].clone(),
            color: "#3b82f6".to_owned(),
            created_at: now,
        };
        assert(tag@ == added[k as int]);
        tags.push(tag);
        proof {
            assert(tags.deep_view() =~= before.push(added[k as int]));
            assert(start + added.take(k + 1) =~= (start + added.take(k as int)).push(
                added[k as int],
            ));
        }
        k = k + 1;
    }
    assert(added.take(names.len() as int) =~= added);
    last
}

/// Adds an association of task `id` with each of `names`.
pub fn push_links(links: &mut Vec<TaskTag>, id: i64, names: &Vec<String>)
    ensures
        final(links).deep_view() == old(links).deep_view() + names.deep_view().map_values(
            link_to(id),
        ),
{
    let ghost start = links.deep_view();
    let ghost added = names.deep_view().map_values(link_to(id));
    let mut k: usize = 0;
    assert(links.deep_view() =~= start + added.take(0));
    while k < names.len()
        invariant
            k <= names.len(),
            added == names.deep_view().map_values(link_to(id)),
            links.deep_view() == start + added.take(k as int),
        decreases names.len() - k,
    {
        let ghost before = links.deep_view();
        let link = TaskTag { task_id: id, tag_name: names[k].clone() };
        assert(link@ == added[k as int]);
        links.push(link);
        proof {
            assert(links.deep_view() =~= before.push(added[k as int]));
            assert(start + added.take(k + 1) =~= (start + added.take(k as int)).push(
                added[k as int],
            ));
        }
        k = k + 1;
    }
    assert(added.take(names.len() as int) =~= added);
}

/// The greatest display position among the rows, or 0 where there is none.
pub fn greatest_sort_order(rows: &Vec<TaskRow>) -> (r: i64)
    ensures
        r == max_sort_order(rows.deep_view()),
{
    if rows.len() == 0 {
        return 0;
    }
    let mut best: i64 = rows[0].sort_order;
    let mut i: usize = 1;
    assert(rows.deep_view().take(1).len() == 1);
    while i < rows.len()
        invariant
            1 <= i <= rows.len(),
            best == max_sort_order(rows.deep_view().take(i as int)),
        decreases rows.len() - i,
    {
        proof {
            let next = rows.deep_view().take(i + 1);
            assert(next.drop_last() =~= rows.deep_view().take(i as int));
            assert(next.last() == rows@[i as int]@);
        }
        if rows[i].sort_order > best {
            best = rows[i].sort_order;
        }
        i = i + 1;
    }
    assert(rows.deep_view().take(rows.len() as int) =~= rows.deep_view());
    best
}

/// Whether row `a` was created no later than row `b`.
pub fn is_created_no_later(a: &TaskRow, b: &TaskRow) -> (r: bool)
    ensures
        r == created_no_later(a@, b@),
{
    a.created_at < b.created_at || (a.created_at == b.created_at && a.id <= b.id)
}

/// The rank of `row` among `rows` by creation time, counting from 1.
pub fn creation_rank_in(rows: &Vec<TaskRow>, row: &TaskRow) -> (r: usize)
    ensures
        r == creation_rank(rows.deep_view(), row@),
        r <= rows.len(),
{
    let mut count: usize = 0;
    let mut i: usize = 0;
    assert(rows.deep_view().take(0) =~= Seq::empty());
    assert(Seq::<TaskRowView>::empty().filter(no_later_than(row@)) =~= Seq::empty()) by {
        reveal(Seq::filter);
    }
    while i < rows.len()
        invariant
            i <= rows.len(),
            count <= i,
            count == rows.deep_view().take(i as int).filter(no_later_than(row@)).len(),
        decreases rows.len() - i,
    {
        proof {
            let seen = rows.deep_view().take(i as int);
            assert(rows.deep_view().take(i + 1) == seen.push(rows.deep_view()[i as int]));
            assert(rows.deep_view()[i as int] == rows@[i as int]@);
        }
        if is_created_no_later(&rows[i], row) {
            count = count + 1;
        }
        i = i + 1;
    }
    assert(rows.deep_view().take(rows.len() as int) =~= rows.deep_view());
    count
}

} // verus!
