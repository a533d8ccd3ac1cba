//! The parts of the command surface that decide something: what to do
//! when the window is asked to close, and how a reorder request is
//! applied. The shell around the store carries them out.

use crate::database::Database;
use crate::error::DbError;
use crate::models::UpdateTaskSortOrderRequest;
use vstd::prelude::*;

verus! {

/// An assignment as the store takes it: the task id, then the position.
pub open spec fn as_assignment() -> spec_fn(crate::models::TaskOrderItem) -> (i64, i64) {
    |item: crate::models::TaskOrderItem| (item.id, item.sort_order)
}

impl UpdateTaskSortOrderRequest {
    /// The assignments of the request, in order, as the store takes them.
    pub fn assignments(&self) -> (r: Vec<(i64, i64)>)
        ensures
            r@ == self.task_orders@.map_values(as_assignment()),
    {
        let mut out: Vec<(i64, i64)> = Vec::new();
        let mut i: usize = 0;
        while i < self.task_orders.len()
            invariant
                i <= self.task_orders.len(),
                out.len() == i,
                forall|j: int|
                    0 <= j < i ==> (#[trigger] out@[j]) == (
                        self.task_orders@[j].id,
                        self.task_orders@[j].sort_order,
                    ),
            decreases self.task_orders.len() - i,
        {
            let item = &self.task_orders[i];
            out.push((item.id, item.sort_order));
            i = i + 1;
        }
        assert(out@ =~= self.task_orders@.map_values(as_assignment()));
        out
    }
}

/// What the shell is to do when the main window is asked to close: the
/// word of the close behaviour in force, `exit`, `minimize` or `ask`.
pub fn handle_close_request(db: &Database) -> (r: Result<String, DbError>)
    ensures
        r matches Ok(word) && word@ == db@.current_settings().close_behavior.code(),
{
    match db.get_app_settings() {
        Ok(settings) => Ok(settings.close_behavior.as_str().to_owned()),
        Err(e) => Err(e),
    }
}

/// Applies the display positions of a reorder request, in order.
pub fn update_tasks_sort_order(db: &mut Database, request: UpdateTaskSortOrderRequest) -> (r:
    Result<(), DbError>)
    requires
        old(db).wf(),
    ensures
        final(db).wf(),
        r is Ok,
        final(db)@ == old(db)@.reorder_state(request.task_orders@.map_values(as_assignment())),
{
    let orders = request.assignments();
    db.update_tasks_sort_order(orders)
}

} // verus!
