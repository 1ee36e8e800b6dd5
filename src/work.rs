//! Work orders, the ledger of pending and claimed orders, and the tasks
//! that realise an order.
use vstd::prelude::*;

use crate::coordinates::WorldCoordinates;

verus! {

/// A job that the player asks for.
#[derive(Clone, Copy, Debug, PartialEq, Eq, Structural)]
pub enum WorkOrder {
    /// Dig out the block at the coordinates.
    Dig(WorldCoordinates),
}

/// One concrete step of a job.
#[derive(Clone, Copy, Debug, PartialEq, Eq, Structural)]
pub enum Task {
    /// Walk next to the block (onto one of the eight around it).
    WalkToNearest(WorldCoordinates),
    /// Walk onto the block.
    WalkTo(WorldCoordinates),
    /// Dig out the block.
    Dig(WorldCoordinates),
}

/// How a worker's task queue ended.
#[derive(Clone, Copy, Debug, PartialEq, Eq, Structural)]
pub enum TaskEvent {
    Completed,
    Failed,
}

impl Task {
    pub fn dig(pos: WorldCoordinates) -> (r: Task)
        ensures
            r == Task::Dig(pos),
    {
        Task::Dig(pos)
    }

    pub fn walk_to(pos: WorldCoordinates) -> (r: Task)
        ensures
            r == Task::WalkTo(pos),
    {
        Task::WalkTo(pos)
    }

    pub fn walk_to_nearest(pos: WorldCoordinates) -> (r: Task)
        ensures
            r == Task::WalkToNearest(pos),
    {
        Task::WalkToNearest(pos)
    }
}

/// The tasks left for one order, in reverse: the last one is taken first.
pub struct TaskQueue {
    pub tasks: Vec<Task>,
}

impl TaskQueue {
    pub fn new(tasks: Vec<Task>) -> (r: TaskQueue)
        ensures
            r.tasks@ == tasks@,
    {
        TaskQueue { tasks }
    }

    /// Takes the next task.
    pub fn next_task(&mut self) -> (r: Option<Task>)
        ensures
            old(self).tasks@.len() == 0 ==> r is None && final(self).tasks@ == old(self).tasks@,
            old(self).tasks@.len() > 0 ==> r == Some(old(self).tasks@.last())
                && final(self).tasks@ == old(self).tasks@.drop_last(),
    {
        self.tasks.pop()
    }
}

/// The tasks of an order, stored in reverse.
pub open spec fn realise_spec(order: WorkOrder) -> Seq<Task> {
    match order {
        WorkOrder::Dig(pos) => seq![Task::Dig(pos), Task::WalkToNearest(pos)],
    }
}

impl WorkOrder {
    /// The tasks that carry out the order: to dig, first walk next to the
    /// block, then dig it.
    pub fn realise(&self) -> (r: TaskQueue)
        ensures
            r.tasks@ == realise_spec(*self),
    {
        match self {
            WorkOrder::Dig(pos) => {
                let r = TaskQueue::new(vec![Task::dig(*pos), Task::walk_to_nearest(*pos)]);
                assert(r.tasks@ =~= realise_spec(*self));
                r
            },
        }
    }
}

/// The ids of a run of orders.
pub open spec fn ids(s: Seq<(u64, WorkOrder)>) -> Seq<u64> {
    s.map_values(|e: (u64, WorkOrder)| e.0)
}

/// `id` is the id of an order of `s`.
pub open spec fn has_id(s: Seq<(u64, WorkOrder)>, id: u64) -> bool {
    exists|i: int| 0 <= i < s.len() && (#[trigger] s[i]).0 == id
}

/// No id occurs twice in `s`.
pub open spec fn unique_ids(s: Seq<(u64, WorkOrder)>) -> bool {
    forall|i: int, j: int| 0 <= i < s.len() && 0 <= j < s.len() && i != j ==> (#[trigger] s[i]).0 != (#[trigger] s[j]).0
}

/// Orders waiting for a worker, and orders a worker has claimed, each with
/// the id of the entity that holds it, oldest first.
pub struct WorkOrderQueue {
    pub pending: Vec<(u64, WorkOrder)>,
    pub in_progress: Vec<(u64, WorkOrder)>,
}

/// Finds the position of `id` in `s`.
fn position_of(s: &Vec<(u64, WorkOrder)>, id: u64) -> (r: Option<usize>)
    ensures
        match r {
            Some(i) => i < s@.len() && s@[i as int].0 == id,
            None => !has_id(s@, id),
        },
{
    let mut i: usize = 0;
    while i < s.len()
        invariant
            0 <= i <= s@.len(),
            forall|j: int| 0 <= j < i ==> (#[trigger] s@[j]).0 != id,
        decreases s.len() - i,
    {
        if s[i].0 == id {
            return Some(i);
        }
        i = i + 1;
    }
    None
}

proof fn lemma_remove_keeps_unique(s: Seq<(u64, WorkOrder)>, i: int)
    requires
        unique_ids(s),
        0 <= i < s.len(),
    ensures
        unique_ids(s.remove(i)),
        !has_id(s.remove(i), s[i].0),
        forall|id: u64| id != s[i].0 ==> (has_id(s.remove(i), id) <==> has_id(s, id)),
{
    let r = s.remove(i);
    assert forall|a: int, b: int| 0 <= a < r.len() && 0 <= b < r.len() && a != b implies (
    #[trigger] r[a]).0 != (#[trigger] r[b]).0 by {
        let a2 = if a < i { a } else { a + 1 };
        let b2 = if b < i { b } else { b + 1 };
        assert(r[a] == s[a2] && r[b] == s[b2]);
    }
    if has_id(r, s[i].0) {
        let a = choose|a: int| 0 <= a < r.len() && (#[trigger] r[a]).0 == s[i].0;
        let a2 = if a < i { a } else { a + 1 };
        assert(r[a] == s[a2]);
    }
    assert forall|id: u64| id != s[i].0 implies (has_id(r, id) <==> has_id(s, id)) by {
        if has_id(s, id) {
            let a = choose|a: int| 0 <= a < s.len() && (#[trigger] s[a]).0 == id;
            if a < i {
                assert(r[a] == s[a]);
            } else {
                assert(a != i);
                assert(r[a - 1] == s[a]);
            }
        }
        if has_id(r, id) {
            let a = choose|a: int| 0 <= a < r.len() && (#[trigger] r[a]).0 == id;
            let a2 = if a < i { a } else { a + 1 };
            assert(r[a] == s[a2]);
        }
    }
}

proof fn lemma_push_has_id(s: Seq<(u64, WorkOrder)>, e: (u64, WorkOrder))
    ensures
        forall|id: u64| has_id(s.push(e), id) <==> (has_id(s, id) || id == e.0),
        unique_ids(s) && !has_id(s, e.0) ==> unique_ids(s.push(e)),
{
    let r = s.push(e);
    assert forall|id: u64| has_id(r, id) <==> (has_id(s, id) || id == e.0) by {
        if has_id(s, id) {
            let a = choose|a: int| 0 <= a < s.len() && (#[trigger] s[a]).0 == id;
            assert(r[a] == s[a]);
        }
        if id == e.0 {
            assert(r[s.len() as int] == e);
        }
        if has_id(r, id) {
            let a = choose|a: int| 0 <= a < r.len() && (#[trigger] r[a]).0 == id;
            if a < s.len() {
                assert(r[a] == s[a]);
            }
        }
    }
    if unique_ids(s) && !has_id(s, e.0) {
        assert forall|a: int, b: int| 0 <= a < r.len() && 0 <= b < r.len() && a != b implies (
        #[trigger] r[a]).0 != (#[trigger] r[b]).0 by {
            if a < s.len() && b < s.len() {
                assert(r[a] == s[a] && r[b] == s[b]);
            } else if a < s.len() {
                assert(r[a] == s[a]);
            } else if b < s.len() {
                assert(r[b] == s[b]);
            }
        }
    }
}

/// What `register` does: a new id joins the end of `pending`.
pub open spec fn register_spec(old: WorkOrderQueue, new: WorkOrderQueue, id: u64, order: WorkOrder, r: bool) -> bool {
    &&& r == !old.is_live(id)
    &&& r ==> new.pending@ == old.pending@.push((id, order))
                && new.in_progress@ == old.in_progress@
    &&& !r ==> new.pending@ == old.pending@ && new.in_progress@ == old.in_progress@
}

/// What `unregister` does: the order with that id leaves whichever list
/// holds it; every other order stays in place.
pub open spec fn unregister_spec(old: WorkOrderQueue, new: WorkOrderQueue, id: u64) -> bool {
    &&& !new.is_live(id)
    &&& forall|other: u64|
                other != id ==> (has_id(new.pending@, other) <==> has_id(
                    old.pending@,
                    other,
                )) && (has_id(new.in_progress@, other) <==> has_id(
                    old.in_progress@,
                    other,
                ))
    &&& has_id(old.pending@, id) ==> exists|i: int|
                0 <= i < old.pending@.len() && (#[trigger] old.pending@[i]).0 == id
                    && new.pending@ == old.pending@.remove(i)
    &&& !has_id(old.pending@, id) ==> new.pending@ == old.pending@
    &&& has_id(old.in_progress@, id) ==> exists|i: int|
                0 <= i < old.in_progress@.len() && (#[trigger] old.in_progress@[i]).0 == id && new.in_progress@ == old.in_progress@.remove(i)
    &&& !has_id(old.in_progress@, id) ==> new.in_progress@ == old.in_progress@
}

/// What `claim_next` does: the oldest pending order moves to the end of
/// `in_progress`.
pub open spec fn claim_spec(old: WorkOrderQueue, new: WorkOrderQueue, r: Option<(u64, WorkOrder)>) -> bool {
    &&& old.pending@.len() == 0 ==> r is None && new.pending@ == old.pending@ && new.in_progress@ == old.in_progress@
    &&& old.pending@.len() > 0 ==> r == Some(old.pending@[0])
                && new.pending@ == old.pending@.remove(0)
                && new.in_progress@ == old.in_progress@.push(old.pending@[0])
}

/// What `requeue` does: a claimed order moves back to the end of
/// `pending`.
pub open spec fn requeue_spec(old: WorkOrderQueue, new: WorkOrderQueue, id: u64, r: bool) -> bool {
    &&& r == has_id(old.in_progress@, id)
    &&& r ==> exists|i: int|
                0 <= i < old.in_progress@.len() && (#[trigger] old.in_progress@[i]).0 == id && new.in_progress@ == old.in_progress@.remove(i) && new.pending@ == old.pending@.push(old.in_progress@[i])
    &&& !r ==> new.pending@ == old.pending@ && new.in_progress@ == old.in_progress@
    &&& r ==> has_id(new.pending@, id) && !has_id(new.in_progress@, id)
}

impl WorkOrderQueue {
    /// No id is twice in a queue, and none is in both.
    pub open spec fn wf(&self) -> bool {
        &&& unique_ids(self.pending@)
        &&& unique_ids(self.in_progress@)
        &&& forall|id: u64| !(#[trigger] has_id(self.pending@, id) && has_id(self.in_progress@, id))
    }

    /// `id` is the id of a live order: one that is pending or in progress.
    pub open spec fn is_live(&self, id: u64) -> bool {
        has_id(self.pending@, id) || has_id(self.in_progress@, id)
    }

    pub fn new() -> (r: WorkOrderQueue)
        ensures
            r.wf(),
            r.pending@.len() == 0,
            r.in_progress@.len() == 0,
    {
        WorkOrderQueue { pending: Vec::new(), in_progress: Vec::new() }
    }

    /// Records a new order at the end of `pending`; returns false, and
    /// changes nothing, where `id` is already live.
    pub fn register(&mut self, id: u64, order: WorkOrder) -> (r: bool)
        requires
            old(self).wf(),
        ensures
            final(self).wf(),
            register_spec(*old(self), *final(self), id, order, r),
    {
        if position_of(&self.pending, id).is_some() || position_of(&self.in_progress, id).is_some() {
            return false;
        }
        proof {
            lemma_push_has_id(self.pending@, (id, order));
        }
        self.pending.push((id, order));
        assert forall|x: u64| !(#[trigger] has_id(self.pending@, x) && has_id(self.in_progress@, x)) by {
            if x != id && has_id(self.pending@, x) {
                assert(has_id(old(self).pending@, x));
            }
        }
        true
    }

    /// Removes the order with id `id` from whichever queue holds it.
    pub fn unregister(&mut self, id: u64)
        requires
            old(self).wf(),
        ensures
            final(self).wf(),
            unregister_spec(*old(self), *final(self), id),
    {
        match position_of(&self.pending, id) {
            Some(i) => {
                proof {
                    lemma_remove_keeps_unique(self.pending@, i as int);
                }
                self.pending.remove(i);
            },
            None => {},
        }
        let ghost mid = self.pending@;
        match position_of(&self.in_progress, id) {
            Some(i) => {
                proof {
                    lemma_remove_keeps_unique(self.in_progress@, i as int);
                }
                self.in_progress.remove(i);
            },
            None => {},
        }
        assert forall|x: u64| !(#[trigger] has_id(self.pending@, x) && has_id(self.in_progress@, x)) by {
            if x != id && has_id(self.pending@, x) && has_id(self.in_progress@, x) {
                assert(has_id(old(self).pending@, x));
                assert(has_id(old(self).in_progress@, x));
            }
        }
    }

    /// Hands the oldest pending order to a worker: it moves to the end of
    /// `in_progress`.
    pub fn claim_next(&mut self) -> (r: Option<(u64, WorkOrder)>)
        requires
            old(self).wf(),
        ensures
            final(self).wf(),
            claim_spec(*old(self), *final(self), r),
    {
        if self.pending.len() == 0 {
            return None;
        }
        let e = self.pending.remove(0);
        proof {
            lemma_remove_keeps_unique(old(self).pending@, 0);
            assert(has_id(old(self).pending@, e.0)) by {
                assert(old(self).pending@[0].0 == e.0);
            }
            lemma_push_has_id(self.in_progress@, e);
        }
        self.in_progress.push(e);
        assert forall|x: u64| !(#[trigger] has_id(self.pending@, x) && has_id(self.in_progress@, x)) by {
            if x != e.0 && has_id(self.pending@, x) && has_id(self.in_progress@, x) {
                assert(has_id(old(self).pending@, x));
                assert(has_id(old(self).in_progress@, x));
            }
        }
        Some(e)
    }

    /// Puts a claimed order back at the end of `pending`; returns false, and
    /// changes nothing, where `id` is not in progress.
    pub fn requeue(&mut self, id: u64) -> (r: bool)
        requires
            old(self).wf(),
        ensures
            final(self).wf(),
            requeue_spec(*old(self), *final(self), id, r),
    {
        match position_of(&self.in_progress, id) {
            Some(i) => {
                let e = self.in_progress.remove(i);
                proof {
                    lemma_remove_keeps_unique(old(self).in_progress@, i as int);
                    lemma_push_has_id(self.pending@, e);
                }
                self.pending.push(e);
                assert forall|x: u64| !(#[trigger] has_id(self.pending@, x) && has_id(self.in_progress@, x)) by {
                    if x != e.0 && has_id(self.pending@, x) && has_id(self.in_progress@, x) {
                        assert(has_id(old(self).pending@, x));
                        assert(has_id(old(self).in_progress@, x));
                    }
                }
                assert(e.0 == id);
                assert(self.pending@[self.pending@.len() - 1].0 == id);
                assert(has_id(self.pending@, id));
                true
            },
            None => false,
        }
    }

    /// The ledger holds order `o` under id `id`.
    pub open spec fn holds_order(&self, id: u64, o: WorkOrder) -> bool {
        (exists|i: int| 0 <= i < self.pending@.len() && #[trigger] self.pending@[i] == (id, o)) || (
        exists|i: int| 0 <= i < self.in_progress@.len() && #[trigger] self.in_progress@[i] == (id, o))
    }

    /// The order with id `id`, where it is live.
    pub fn order_of(&self, id: u64) -> (r: Option<WorkOrder>)
        ensures
            match r {
                Some(o) => self.holds_order(id, o),
                None => !self.is_live(id),
            },
    {
        match position_of(&self.pending, id) {
            Some(i) => {
                let o = self.pending[i].1;
                assert(self.pending@[i as int] == (id, o));
                return Some(o);
            },
            None => {},
        }
        match position_of(&self.in_progress, id) {
            Some(i) => {
                let o = self.in_progress[i].1;
                assert(self.in_progress@[i as int] == (id, o));
                Some(o)
            },
            None => None,
        }
    }

    /// Whether an order equal to `item` is pending or in progress.
    pub fn contains(&self, item: &WorkOrder) -> (r: bool)
        ensures
            r == ((exists|i: int|
                0 <= i < self.pending@.len() && (#[trigger] self.pending@[i]).1 == *item) || (
            exists|i: int|
                0 <= i < self.in_progress@.len() && (#[trigger] self.in_progress@[i]).1 == *item)),
    {
        let mut i: usize = 0;
        while i < self.pending.len()
            invariant
                0 <= i <= self.pending@.len(),
                forall|j: int| 0 <= j < i ==> (#[trigger] self.pending@[j]).1 != *item,
            decreases self.pending.len() - i,
        {
            if self.pending[i].1 == *item {
                return true;
            }
            i = i + 1;
        }
        let mut k: usize = 0;
        while k < self.in_progress.len()
            invariant
                0 <= k <= self.in_progress@.len(),
                forall|j: int| 0 <= j < self.pending@.len() ==> (#[trigger] self.pending@[j]).1 != *item,
                forall|j: int| 0 <= j < k ==> (#[trigger] self.in_progress@[j]).1 != *item,
            decreases self.in_progress.len() - k,
        {
            if self.in_progress[k].1 == *item {
                return true;
            }
            k = k + 1;
        }
        false
    }
}

/// Every live order id is in exactly one of the two queues.
pub proof fn lemma_live_in_exactly_one(q: WorkOrderQueue, id: u64)
    requires
        q.wf(),
        q.is_live(id),
    ensures
        has_id(q.pending@, id) != has_id(q.in_progress@, id),
{
}

} // verus!
