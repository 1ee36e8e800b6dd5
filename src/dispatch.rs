//! The worker side of job dispatch: claiming orders, turning them into
//! tasks, running the tasks one at a time and reporting how they ended.
//! Each function is one phase of a tick; `tick` runs them in order.
use vstd::prelude::*;

use crate::chunk::elevation_ready;
use crate::coordinates::{ChunkCoordinates, WorldCoordinates};
use crate::coordinates::same_layer_neighbors_spec;
use crate::listener::{round_outcome, PathEvent, PathfinderListener};
use crate::path::{tick_spec, Path};
use crate::pathfinder::Pathfinder;
use crate::work::{
    claim_spec, has_id, realise_spec, requeue_spec, unregister_spec, Task, TaskEvent, TaskQueue,
    WorkOrderQueue,
};
use crate::world_map::{damage_outcome, remaining_health, WorldMap};

verus! {

/// The job state of one worker.
pub struct Worker {
    /// The id of the order the worker owns.
    pub current_work_order: Option<u64>,
    /// The tasks left for that order.
    pub task_queue: Option<TaskQueue>,
    /// The task being carried out.
    pub active_task: Option<Task>,
    /// The search under way for a walking task.
    pub search: Option<PathfinderListener>,
    /// The path being followed for a walking task.
    pub path: Option<Path>,
}

/// What a tick of a worker produced.
pub struct TickReport {
    /// How the worker's task queue ended, where it did.
    pub event: Option<TaskEvent>,
    /// A block that the worker dug out.
    pub changed_block: Option<WorldCoordinates>,
}

impl Worker {
    pub open spec fn wf(&self) -> bool {
        match self.search {
            Some(l) => l.wf(),
            None => true,
        }
    }

    pub open spec fn is_idle(&self) -> bool {
        &&& self.current_work_order is None
        &&& self.task_queue is None
        &&& self.active_task is None
        &&& self.search is None
        &&& self.path is None
    }

    /// A worker without an order.
    pub fn new() -> (r: Worker)
        ensures
            r.wf(),
            r.is_idle(),
    {
        Worker {
            current_work_order: None,
            task_queue: None,
            active_task: None,
            search: None,
            path: None,
        }
    }
}

/// What `fetch_new_work_order` does: a worker without an order claims the
/// oldest pending one.
pub open spec fn fetch_spec(
    q0: WorkOrderQueue,
    w0: Worker,
    q1: WorkOrderQueue,
    w1: Worker,
    r: bool,
) -> bool {
    &&& r == (w0.current_work_order is None && q0.pending@.len() > 0)
    &&& r ==> claim_spec(q0, q1, Some(q0.pending@[0])) && w1.current_work_order == Some(
        q0.pending@[0].0,
    )
    &&& !r ==> q1.pending@ == q0.pending@ && q1.in_progress@ == q0.in_progress@
        && w1.current_work_order == w0.current_work_order
    &&& w1.task_queue == w0.task_queue
    &&& w1.active_task == w0.active_task
    &&& w1.search == w0.search
    &&& w1.path == w0.path
}

/// What `check_work_orders` does: a worker with an order and no tasks gets
/// the order's tasks.
pub open spec fn orders_spec(q: WorkOrderQueue, w0: Worker, w1: Worker) -> bool {
    &&& w1.current_work_order == w0.current_work_order
    &&& w1.active_task == w0.active_task
    &&& w1.search == w0.search
    &&& w1.path == w0.path
    &&& w0.task_queue is Some ==> w1.task_queue == w0.task_queue
    &&& w0.task_queue is None ==> match w0.current_work_order {
        Some(id) => match w1.task_queue {
            Some(t) => exists|o| #[trigger] q.holds_order(id, o) && t.tasks@ == realise_spec(o),
            None => !q.is_live(id),
        },
        None => w1.task_queue is None,
    }
}

/// What `check_tasks` does: a worker with tasks and none active takes the
/// last one; with none left its queue goes and it reports completion.
pub open spec fn tasks_spec(w0: Worker, w1: Worker, r: Option<TaskEvent>) -> bool {
    &&& w1.current_work_order == w0.current_work_order
    &&& w1.search == w0.search
    &&& w1.path == w0.path
    &&& match (w0.task_queue, w0.active_task) {
        (Some(q), None) => if q.tasks@.len() > 0 {
            &&& r is None
            &&& w1.active_task == Some(q.tasks@.last())
            &&& w1.task_queue matches Some(nq) && nq.tasks@ == q.tasks@.drop_last()
        } else {
            &&& r == Some(TaskEvent::Completed)
            &&& w1.active_task is None
            &&& w1.task_queue is None
        },
        _ => {
            &&& r is None
            &&& w1.active_task == w0.active_task
            &&& w1.task_queue == w0.task_queue
        },
    }
}

/// What `start_walking` does: a walking task not yet started gets fresh
/// searches from `position`.
pub open spec fn walking_spec(
    w0: Worker,
    position: WorldCoordinates,
    w1: Worker,
    r: Option<TaskEvent>,
) -> bool {
    &&& w1.current_work_order == w0.current_work_order
    &&& w1.task_queue == w0.task_queue
    &&& w1.active_task == w0.active_task
    &&& w1.path == w0.path
    &&& (w0.search is Some || w0.path is Some) ==> r is None && w1.search == w0.search
    &&& w0.search is None && w0.path is None ==> match w0.active_task {
        Some(Task::WalkToNearest(t)) => if t.inner_xy() {
            &&& r is None
            &&& w1.search matches Some(l) && l.searches@.len() == 8 && forall|i: int|
                0 <= i < 8 ==> (#[trigger] l.searches@[i]).is_new_search(
                    position,
                    same_layer_neighbors_spec(t)[i].0,
                )
        } else {
            r == Some(TaskEvent::Failed) && w1.search is None
        },
        Some(Task::WalkTo(t)) => {
            &&& r is None
            &&& w1.search matches Some(l) && l.searches@.len() == 1
                && l.searches@[0].is_new_search(position, t)
        },
        _ => r is None && w1.search is None,
    }
}

/// What `step_search` does: the worker's search takes one round; a path
/// found goes to the worker, a failed search is reported.
pub open spec fn search_spec(w0: Worker, world: &WorldMap, w1: Worker, r: Option<TaskEvent>) -> bool {
    &&& w1.current_work_order == w0.current_work_order
    &&& w1.task_queue == w0.task_queue
    &&& w1.active_task == w0.active_task
    &&& match w0.search {
        None => r is None && w1.search is None && w1.path == w0.path,
        Some(l) => exists|l2: PathfinderListener, ev: PathEvent|
            #[trigger] round_outcome(l, l2, world, ev) && match ev {
                PathEvent::Completed(p) => r is None && w1.path == Some(p) && w1.search is None,
                PathEvent::CalculationFailed => r == Some(TaskEvent::Failed) && w1.search is None
                    && w1.path == w0.path,
                PathEvent::Pending => r is None && w1.search == Some(l2) && w1.path == w0.path,
            },
    }
}

/// What `follow_path` does: the path advances as `Path::tick` says; once
/// past its last waypoint it goes, and the walking task with it.
pub open spec fn follow_spec(w0: Worker, delta_millis: u64, w1: Worker) -> bool {
    &&& w1.current_work_order == w0.current_work_order
    &&& w1.task_queue == w0.task_queue
    &&& w1.search == w0.search
    &&& match w0.path {
        None => w1.path is None && w1.active_task == w0.active_task,
        Some(p) => {
            let p2 = tick_spec(p, delta_millis);
            if p2.current_index >= p2.waypoints@.len() {
                w1.path is None && w1.active_task is None
            } else {
                w1.path == Some(p2) && w1.active_task == w0.active_task
            }
        },
    }
}

/// What `dig` does: a digging worker damages its block as
/// `WorldMap::damage_block` says; once the block is destroyed the task is
/// done and the block is reported.
pub open spec fn dig_spec<F: Fn(ChunkCoordinates, u32, u32) -> i32>(
    w0: Worker,
    world0: WorldMap,
    damage: u32,
    elevation: &F,
    w1: Worker,
    world1: WorldMap,
    r: Option<WorldCoordinates>,
) -> bool {
    &&& w1.current_work_order == w0.current_work_order
    &&& w1.task_queue == w0.task_queue
    &&& w1.search == w0.search
    &&& w1.path == w0.path
    &&& match w0.active_task {
        Some(Task::Dig(pos)) => {
            let destroyed = remaining_health(world0.health_spec(pos), damage) < 0;
            &&& damage_outcome(world0, world1, pos, damage, elevation, destroyed)
            &&& destroyed ==> r == Some(pos) && w1.active_task is None
            &&& !destroyed ==> r is None && w1.active_task == w0.active_task
        },
        _ => r is None && w1.active_task == w0.active_task && world1 == world0,
    }
}

/// What `on_task_finished` does: on completion the order leaves the
/// ledger; on failure the worker drops its tasks and search and the order
/// goes back to the end of `pending`. Either way the worker is free.
pub open spec fn finished_spec(
    q0: WorkOrderQueue,
    w0: Worker,
    event: TaskEvent,
    q1: WorkOrderQueue,
    w1: Worker,
) -> bool {
    &&& w1.current_work_order is None
    &&& event == TaskEvent::Completed ==> {
        &&& w1.task_queue == w0.task_queue
        &&& w1.active_task == w0.active_task
        &&& w1.search == w0.search
        &&& w1.path == w0.path
        &&& match w0.current_work_order {
            Some(id) => unregister_spec(q0, q1, id),
            None => q1 == q0,
        }
    }
    &&& event == TaskEvent::Failed ==> {
        &&& w1.is_idle()
        &&& match w0.current_work_order {
            Some(id) => requeue_spec(q0, q1, id, has_id(q0.in_progress@, id)),
            None => q1 == q0,
        }
    }
}

/// The phases of one tick, each as its function states it, through the
/// intermediate states: claim, realise, take a task, start walking, search,
/// follow the path, dig; the first phase that reports an event ends the
/// task phases, and the event is handled.
pub open spec fn tick_trace<F: Fn(ChunkCoordinates, u32, u32) -> i32>(
    q0: WorkOrderQueue,
    w0: Worker,
    world0: WorldMap,
    position: WorldCoordinates,
    delta_millis: u64,
    damage: u32,
    elevation: &F,
    mid: (WorkOrderQueue, Worker, Worker, Worker, Option<TaskEvent>, Worker, Option<TaskEvent>),
    late: (Worker, Option<TaskEvent>, Worker, Worker, WorldMap, Option<WorldCoordinates>),
    q: WorkOrderQueue,
    w: Worker,
    world: WorldMap,
    r: TickReport,
) -> bool {
    let (q1, w1, w2, w3, e3, w4, e4) = mid;
    let (w5, e5, w6, w7, world7, ch) = late;
    &&& fetch_spec(q0, w0, q1, w1, w0.current_work_order is None && q0.pending@.len() > 0)
    &&& orders_spec(q1, w1, w2)
    &&& tasks_spec(w2, w3, e3)
    &&& e3 is None ==> walking_spec(w3, position, w4, e4)
    &&& e3 is Some ==> w4 == w3 && e4 == e3
    &&& e4 is None ==> search_spec(w4, &world0, w5, e5)
    &&& e4 is Some ==> w5 == w4 && e5 == e4
    &&& e5 is None ==> follow_spec(w5, delta_millis, w6)
        && dig_spec(w6, world0, damage, elevation, w7, world7, ch)
    &&& e5 is Some ==> w6 == w5 && w7 == w5 && world7 == world0 && ch is None
    &&& match e5 {
        Some(e) => finished_spec(q1, w7, e, q, w),
        None => q == q1 && w == w7,
    }
    &&& world == world7
    &&& r.event == e5
    &&& r.changed_block == ch
}

/// A worker without an order claims the oldest pending order.
pub fn fetch_new_work_order(queue: &mut WorkOrderQueue, worker: &mut Worker) -> (r: bool)
    requires
        old(queue).wf(),
    ensures
        final(queue).wf(),
        fetch_spec(*old(queue), *old(worker), *final(queue), *final(worker), r),
{
    if worker.current_work_order.is_some() {
        return false;
    }
    match queue.claim_next() {
        Some((id, _)) => {
            worker.current_work_order = Some(id);
            true
        },
        None => false,
    }
}

/// A worker with an order and no tasks gets the order's tasks.
pub fn check_work_orders(queue: &WorkOrderQueue, worker: &mut Worker)
    ensures
        orders_spec(*queue, *old(worker), *final(worker)),
{
    if worker.task_queue.is_some() {
        return;
    }
    match worker.current_work_order {
        Some(id) => match queue.order_of(id) {
            Some(order) => {
                worker.task_queue = Some(order.realise());
            },
            None => {},
        },
        None => {},
    }
}

/// A worker with tasks and none active takes the next task; with no task
/// left its queue is dropped and it reports completion.
pub fn check_tasks(worker: &mut Worker) -> (r: Option<TaskEvent>)
    ensures
        tasks_spec(*old(worker), *final(worker), r),
{
    if worker.active_task.is_some() {
        return None;
    }
    match worker.task_queue.take() {
        Some(mut q) => match q.next_task() {
            Some(t) => {
                worker.active_task = Some(t);
                worker.task_queue = Some(q);
                None
            },
            None => Some(TaskEvent::Completed),
        },
        None => None,
    }
}

/// A walking task that has not started yet starts its search from
/// `position`: towards the eight blocks around its target, or onto the
/// target. A target at the edge of the coordinates cannot be walked next
/// to: the task fails.
pub fn start_walking(worker: &mut Worker, position: WorldCoordinates) -> (r: Option<TaskEvent>)
    requires
        old(worker).wf(),
    ensures
        final(worker).wf(),
        walking_spec(*old(worker), position, *final(worker), r),
{
    if worker.search.is_some() || worker.path.is_some() {
        return None;
    }
    match worker.active_task {
        Some(Task::WalkToNearest(target)) => {
            if i32::MIN < target.x && target.x < i32::MAX && i32::MIN < target.y && target.y
                < i32::MAX {
                worker.search = Some(Pathfinder::nearest(position, target));
                None
            } else {
                Some(TaskEvent::Failed)
            }
        },
        Some(Task::WalkTo(target)) => {
            worker.search = Some(Pathfinder::exact(position, target));
            None
        },
        _ => None,
    }
}

/// Runs one round of the worker's search. A success hands the path to the
/// worker; a failure drops the search and is reported.
pub fn step_search(worker: &mut Worker, world: &WorldMap) -> (r: Option<TaskEvent>)
    requires
        old(worker).wf(),
        world.wf(),
    ensures
        final(worker).wf(),
        search_spec(*old(worker), world, *final(worker), r),
{
    match worker.search.take() {
        Some(mut listener) => match listener.step(world) {
            PathEvent::Completed(path) => {
                worker.path = Some(path);
                None
            },
            PathEvent::CalculationFailed => Some(TaskEvent::Failed),
            PathEvent::Pending => {
                worker.search = Some(listener);
                None
            },
        },
        None => None,
    }
}

/// Moves the worker along its path by `delta_millis`; once it has passed
/// the last waypoint the path is dropped and the walking task is done.
pub fn follow_path(worker: &mut Worker, delta_millis: u64)
    ensures
        follow_spec(*old(worker), delta_millis, *final(worker)),
{
    match worker.path.take() {
        Some(mut p) => {
            p.tick(delta_millis);
            if p.complete() {
                worker.active_task = None;
            } else {
                worker.path = Some(p);
            }
        },
        None => {},
    }
}

/// A worker digging takes `damage` from its block; once the block is
/// destroyed the task is done and the block is reported as changed.
pub fn dig<F: Fn(ChunkCoordinates, u32, u32) -> i32>(
    worker: &mut Worker,
    world: &mut WorldMap,
    damage: u32,
    elevation: &F,
) -> (r: Option<WorldCoordinates>)
    requires
        old(world).wf(),
        elevation_ready(elevation),
    ensures
        final(world).wf(),
        dig_spec(*old(worker), *old(world), damage, elevation, *final(worker), *final(world), r),
{
    match worker.active_task {
        Some(Task::Dig(pos)) => {
            if world.damage_block(pos, damage, elevation) {
                worker.active_task = None;
                Some(pos)
            } else {
                None
            }
        },
        _ => None,
    }
}

/// Ends the worker's order. On completion the order is removed from the
/// ledger; on failure the worker's tasks and search are dropped and the
/// order goes back to the end of `pending`. Either way the worker is free.
pub fn on_task_finished(queue: &mut WorkOrderQueue, worker: &mut Worker, event: TaskEvent)
    requires
        old(queue).wf(),
    ensures
        final(queue).wf(),
        finished_spec(*old(queue), *old(worker), event, *final(queue), *final(worker)),
{
    match event {
        TaskEvent::Completed => {
            match worker.current_work_order {
                Some(id) => {
                    queue.unregister(id);
                },
                None => {},
            }
            worker.current_work_order = None;
        },
        TaskEvent::Failed => {
            worker.task_queue = None;
            worker.active_task = None;
            worker.search = None;
            worker.path = None;
            match worker.current_work_order {
                Some(id) => {
                    queue.requeue(id);
                },
                None => {},
            }
            worker.current_work_order = None;
        },
    }
}

/// One tick of a worker, phase by phase: claim an order, realise it, take
/// the next task, start walking, search, follow the path, dig; then report
/// how the task queue ended, where it did. A failed search sends the order
/// back to `pending` within the same tick.
pub fn tick<F: Fn(ChunkCoordinates, u32, u32) -> i32>(
    queue: &mut WorkOrderQueue,
    worker: &mut Worker,
    world: &mut WorldMap,
    position: WorldCoordinates,
    delta_millis: u64,
    damage: u32,
    elevation: &F,
) -> (r: TickReport)
    requires
        old(queue).wf(),
        old(worker).wf(),
        old(world).wf(),
        elevation_ready(elevation),
    ensures
        final(queue).wf(),
        final(worker).wf(),
        final(world).wf(),
        exists|mid: (WorkOrderQueue, Worker, Worker, Worker, Option<TaskEvent>, Worker, Option<TaskEvent>),
            late: (Worker, Option<TaskEvent>, Worker, Worker, WorldMap, Option<WorldCoordinates>)|
            #[trigger] tick_trace(
                *old(queue),
                *old(worker),
                *old(world),
                position,
                delta_millis,
                damage,
                elevation,
                mid,
                late,
                *final(queue),
                *final(worker),
                *final(world),
                r,
            ),
        r.event is Some ==> final(worker).current_work_order is None,
        r.event == Some(TaskEvent::Failed) ==> {
            &&& final(worker).is_idle()
            &&& forall|id: u64|
                old(worker).current_work_order == Some(id) && #[trigger] has_id(
                    old(queue).in_progress@,
                    id,
                ) ==> has_id(final(queue).pending@, id) && !has_id(final(queue).in_progress@, id)
        },
        r.changed_block is Some ==> r.event is None,
{
    let ghost q0 = *queue;
    let ghost w0 = *worker;
    let ghost world0 = *world;
    fetch_new_work_order(queue, worker);
    let ghost q1 = *queue;
    let ghost w1 = *worker;
    check_work_orders(queue, worker);
    let ghost w2 = *worker;
    let e3 = check_tasks(worker);
    let ghost w3 = *worker;
    let e4 = if e3.is_none() {
        start_walking(worker, position)
    } else {
        e3
    };
    let ghost w4 = *worker;
    let e5 = if e4.is_none() {
        step_search(worker, world)
    } else {
        e4
    };
    let ghost w5 = *worker;
    if e5.is_none() {
        follow_path(worker, delta_millis);
    }
    let ghost w6 = *worker;
    let changed_block = if e5.is_none() {
        dig(worker, world, damage, elevation)
    } else {
        None
    };
    let ghost w7 = *worker;
    let ghost world7 = *world;
    match e5 {
        Some(e) => {
            on_task_finished(queue, worker, e);
        },
        None => {},
    }
    let r = TickReport { event: e5, changed_block };
    proof {
        assert(tick_trace(
            q0,
            w0,
            world0,
            position,
            delta_millis,
            damage,
            elevation,
            (q1, w1, w2, w3, e3, w4, e4),
            (w5, e5, w6, w7, world7, changed_block),
            *queue,
            *worker,
            *world,
            r,
        ));
    }
    r
}

} // verus!
