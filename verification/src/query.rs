//! Choosing and ordering the rows of a listing.

use crate::instant::is_due_within;
use crate::model::{due_key, TaskFilter, TaskOrder};
use crate::models::{Tag, TagView, TaskPriority, TaskRow, TaskRowView};
use crate::text::{lemma_text_before_strict_total, sorts_before, text_before};
use vstd::prelude::*;

verus! {

impl TaskPriority {
    /// The number that stands for this priority.
    pub fn as_level(self) -> (r: u8)
        ensures
            r == self.level(),
    {
        match self {
            TaskPriority::Low => 0,
            TaskPriority::Medium => 1,
            TaskPriority::High => 2,
        }
    }
}

/// Whether due date `a` comes before due date `b` in ascending order.
pub fn due_comes_before(a: Option<i64>, b: Option<i64>) -> (r: bool)
    ensures
        r == (due_key(a) < due_key(b)),
{
    match (a, b) {
        (None, None) => false,
        (None, Some(_)) => true,
        (Some(_), None) => false,
        (Some(x), Some(y)) => x < y,
    }
}

/// Whether two due dates are the same.
pub fn same_due(a: Option<i64>, b: Option<i64>) -> (r: bool)
    ensures
        r == (a == b),
{
    match (a, b) {
        (None, None) => true,
        (Some(x), Some(y)) => x == y,
        _ => false,
    }
}

impl TaskFilter {
    /// Whether the listing holds the task of this row.
    pub fn admits_row(&self, row: &TaskRow) -> (r: bool)
        ensures
            r == self.admits(row@),
    {
        match self {
            TaskFilter::All => true,
            TaskFilter::DueBetween { first, last } => match row.due_date {
                Some(due) => *first <= due && due <= *last,
                None => false,
            },
            TaskFilter::Completed => row.is_completed,
            TaskFilter::Overdue { now } => match row.due_date {
                Some(due) => !row.is_completed && due < *now,
                None => false,
            },
            TaskFilter::Upcoming { now, minutes_ahead } => match row.due_date {
                Some(due) => !row.is_completed && is_due_within(*now, *minutes_ahead, due),
                None => false,
            },
        }
    }
}

impl TaskOrder {
    /// Whether row `a` stands before row `b` in this order.
    pub fn row_before(&self, a: &TaskRow, b: &TaskRow) -> (r: bool)
        ensures
            r == self.places_before(a@, b@),
    {
        match self {
            TaskOrder::BySortOrder => a.sort_order < b.sort_order || (a.sort_order == b.sort_order
                && (a.created_at > b.created_at || (a.created_at == b.created_at && a.id < b.id))),
            TaskOrder::ByPriority => {
                let x = a.priority.as_level();
                let y = b.priority.as_level();
                x > y || (x == y && (due_comes_before(a.due_date, b.due_date) || (same_due(
                    a.due_date,
                    b.due_date,
                ) && a.id < b.id)))
            },
            TaskOrder::ByCreation => a.created_at > b.created_at || (a.created_at == b.created_at
                && a.id < b.id),
            TaskOrder::ByDueDate => due_comes_before(a.due_date, b.due_date) || (same_due(
                a.due_date,
                b.due_date,
            ) && a.id < b.id),
        }
    }
}

/// Each order is strict and total on rows with different ids: no row
/// stands before itself, the order is transitive, and of two rows with
/// different ids one stands before the other.
pub proof fn lemma_order_strict_total(
    order: TaskOrder,
    a: TaskRowView,
    b: TaskRowView,
    c: TaskRowView,
)
    ensures
        !order.places_before(a, a),
        order.places_before(a, b) && order.places_before(b, c) ==> order.places_before(a, c),
        order.places_before(a, b) ==> !order.places_before(b, a),
        a.id != b.id ==> order.places_before(a, b) || order.places_before(b, a),
{
}

/// The rows at the given positions stand in strictly ascending order.
pub open spec fn in_order(rows: Seq<TaskRowView>, positions: Seq<usize>, order: TaskOrder) -> bool {
    forall|j: int, k: int|
        0 <= j < k < positions.len() ==> order.places_before(
            rows[#[trigger] positions[j] as int],
            rows[#[trigger] positions[k] as int],
        )
}

/// The positions of the rows that `filter` admits, in the order `order`.
pub fn listed_positions(rows: &Vec<TaskRow>, filter: TaskFilter, order: TaskOrder) -> (out: Vec<
    usize,
>)
    requires
        forall|i: int, j: int|
            0 <= i < j < rows.len() ==> (#[trigger] rows@[i]).id != (#[trigger] rows@[j]).id,
    ensures
        forall|k: int|
            0 <= k < out.len() ==> (#[trigger] out@[k]) < rows.len() && filter.admits(
                rows@[out@[k] as int]@,
            ),
        forall|i: int|
            0 <= i < rows.len() && filter.admits((#[trigger] rows@[i])@) ==> out@.contains(
                i as usize,
            ),
        in_order(rows.deep_view(), out@, order),
{
    let mut out: Vec<usize> = Vec::new();
    let mut i: usize = 0;
    while i < rows.len()
        invariant
            i <= rows.len(),
            forall|a: int, b: int|
                0 <= a < b < rows.len() ==> (#[trigger] rows@[a]).id != (#[trigger] rows@[b]).id,
            forall|k: int|
                0 <= k < out.len() ==> (#[trigger] out@[k]) < i && filter.admits(
                    rows@[out@[k] as int]@,
                ),
            forall|p: int|
                0 <= p < i && filter.admits((#[trigger] rows@[p])@) ==> out@.contains(p as usize),
            in_order(rows.deep_view(), out@, order),
        decreases rows.len() - i,
    {
        if filter.admits_row(&rows[i]) {
            let mut at: usize = 0;
            while at < out.len() && order.row_before(&rows[out[at]], &rows[i])
                invariant
                    at <= out.len(),
                    i < rows.len(),
                    forall|k: int| 0 <= k < out.len() ==> (#[trigger] out@[k]) < i,
                    forall|k: int|
                        0 <= k < at ==> order.places_before(
                            rows@[(#[trigger] out@[k]) as int]@,
                            rows@[i as int]@,
                        ),
                decreases out.len() - at,
            {
                at = at + 1;
            }
            let ghost before = out@;
            out.insert(at, i);
            proof {
                let views = rows.deep_view();
                let row = rows@[i as int]@;
                assert forall|j: int, k: int| 0 <= j < k < out@.len() implies order.places_before(
                    views[#[trigger] out@[j] as int],
                    views[#[trigger] out@[k] as int],
                ) by {
                    if k < at {
                        assert(out@[j] == before[j] && out@[k] == before[k]);
                    } else if k == at {
                        assert(out@[j] == before[j]);
                    } else {
                        assert(out@[k] == before[k - 1]);
                        let first = rows@[before[at as int] as int]@;
                        let other = rows@[before[k - 1] as int]@;
                        assert(first.id != row.id);
                        lemma_order_strict_total(order, first, row, other);
                        lemma_order_strict_total(order, row, first, other);
                        if k - 1 > at {
                            assert(order.places_before(
                                views[before[at as int] as int],
                                views[before[k - 1] as int],
                            ));
                        }
                        if j < at {
                            assert(out@[j] == before[j]);
                        } else if j > at {
                            assert(out@[j] == before[j - 1]);
                        }
                    }
                }
                assert forall|p: int|
                    0 <= p < i + 1 && filter.admits((#[trigger] rows@[p])@) implies out@.contains(
                    p as usize,
                ) by {
                    if p == i {
                        assert(out@[at as int] == i);
                    } else {
                        assert(before.contains(p as usize));
                        let k = choose|k: int| 0 <= k < before.len() && before[k] == p as usize;
                        if k < at {
                            assert(out@[k] == p as usize);
                        } else {
                            assert(out@[k + 1] == p as usize);
                        }
                    }
                }
                assert forall|k: int| 0 <= k < out.len() implies (#[trigger] out@[k]) < i + 1
                    && filter.admits(rows@[out@[k] as int]@) by {
                    if k < at {
                        assert(out@[k] == before[k]);
                    } else if k > at {
                        assert(out@[k] == before[k - 1]);
                    }
                }
            }
        }
        i = i + 1;
    }
    out
}

/// The tags at the given positions stand in strictly ascending order of
/// their names.
pub open spec fn in_name_order(tags: Seq<TagView>, positions: Seq<usize>) -> bool {
    forall|j: int, k: int|
        0 <= j < k < positions.len() ==> text_before(
            tags[#[trigger] positions[j] as int].name,
            tags[#[trigger] positions[k] as int].name,
        )
}

/// The positions of all tags, by ascending name.
pub fn positions_by_name(tags: &Vec<Tag>) -> (out: Vec<usize>)
    requires
        forall|i: int, j: int|
            0 <= i < j < tags.len() ==> (#[trigger] tags@[i]).name@ != (#[trigger] tags@[j]).name@,
    ensures
        out.len() == tags.len(),
        forall|k: int| 0 <= k < out.len() ==> (#[trigger] out@[k]) < tags.len(),
        forall|i: usize| i < tags.len() ==> #[trigger] out@.contains(i),
        in_name_order(tags.deep_view(), out@),
{
    let mut out: Vec<usize> = Vec::new();
    let mut i: usize = 0;
    while i < tags.len()
        invariant
            i <= tags.len(),
            out.len() == i,
            forall|a: int, b: int|
                0 <= a < b < tags.len() ==> (#[trigger] tags@[a]).name@ != (
                #[trigger] tags@[b]).name@,
            forall|k: int| 0 <= k < out.len() ==> (#[trigger] out@[k]) < i,
            forall|p: usize| p < i ==> #[trigger] out@.contains(p),
            in_name_order(tags.deep_view(), out@),
        decreases tags.len() - i,
    {
        let mut at: usize = 0;
        while at < out.len() && sorts_before(tags[out[at]].name.as_str(), tags[i].name.as_str())
            invariant
                at <= out.len(),
                i < tags.len(),
                forall|k: int| 0 <= k < out.len() ==> (#[trigger] out@[k]) < i,
                forall|k: int|
                    0 <= k < at ==> text_before(
                        tags@[(#[trigger] out@[k]) as int].name@,
                        tags@[i as int].name@,
                    ),
            decreases out.len() - at,
        {
            at = at + 1;
        }
        let ghost before = out@;
        out.insert(at, i);
        proof {
            let views = tags.deep_view();
            let name = tags@[i as int].name@;
            assert forall|j: int, k: int| 0 <= j < k < out@.len() implies text_before(
                views[#[trigger] out@[j] as int].name,
                views[#[trigger] out@[k] as int].name,
            ) by {
                if k < at {
                    assert(out@[j] == before[j] && out@[k] == before[k]);
                } else if k == at {
                    assert(out@[j] == before[j]);
                } else {
                    assert(out@[k] == before[k - 1]);
                    let first = tags@[before[at as int] as int].name@;
                    let other = tags@[before[k - 1] as int].name@;
                    assert(first != name);
                    lemma_text_before_strict_total(first, name, other);
                    lemma_text_before_strict_total(name, first, other);
                    if k - 1 > at {
                        assert(text_before(
                            views[before[at as int] as int].name,
                            views[before[k - 1] as int].name,
                        ));
                    }
                    if j < at {
                        assert(out@[j] == before[j]);
                    } else if j > at {
                        assert(out@[j] == before[j - 1]);
                    }
                }
            }
            assert forall|p: usize| p < i + 1 implies #[trigger] out@.contains(p) by {
                if p == i {
                    assert(out@[at as int] == i);
                } else {
                    assert(before.contains(p));
                    let k = choose|k: int| 0 <= k < before.len() && before[k] == p;
                    if k < at {
                        assert(out@[k] == p);
                    } else {
                        assert(out@[k + 1] == p);
                    }
                }
            }
            assert forall|k: int| 0 <= k < out.len() implies (#[trigger] out@[k]) < i + 1 by {
                if k < at {
                    assert(out@[k] == before[k]);
                } else if k > at {
                    assert(out@[k] == before[k - 1]);
                }
            }
        }
        i = i + 1;
    }
    out
}

} // verus!
