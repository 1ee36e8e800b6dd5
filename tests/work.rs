use open_fortress::block::{BlockType, SolidMaterial};
use open_fortress::coordinates::{ChunkCoordinates, WorldCoordinates};
use open_fortress::dispatch::{
    check_tasks, check_work_orders, fetch_new_work_order, on_task_finished, tick, Worker,
};
use open_fortress::work::{Task, TaskEvent, TaskQueue, WorkOrder, WorkOrderQueue};
use open_fortress::world_map::WorldMap;

fn w(x: i32, y: i32, z: i32) -> WorldCoordinates {
    WorldCoordinates::new(x, y, z)
}

/// Flat ground with a two-block pillar at (3, 0).
fn pillar(c: ChunkCoordinates, x: u32, y: u32) -> i32 {
    if c.x == 0 && c.y == 0 && x == 3 && y == 0 {
        1
    } else {
        0
    }
}

fn ids(v: &[(u64, WorkOrder)]) -> Vec<u64> {
    v.iter().map(|e| e.0).collect()
}

fn exactly_one(q: &WorkOrderQueue, id: u64) -> bool {
    ids(&q.pending).contains(&id) != ids(&q.in_progress).contains(&id)
}

#[test]
fn realise_dig_walks_first() {
    let mut q = WorkOrder::Dig(w(1, 2, 3)).realise();
    assert_eq!(q.tasks, vec![Task::dig(w(1, 2, 3)), Task::walk_to_nearest(w(1, 2, 3))]);
    assert_eq!(q.next_task(), Some(Task::WalkToNearest(w(1, 2, 3))));
    assert_eq!(q.next_task(), Some(Task::Dig(w(1, 2, 3))));
    assert_eq!(q.next_task(), None);
    let q2 = TaskQueue::new(vec![Task::walk_to(w(0, 0, 0))]);
    assert_eq!(q2.tasks, vec![Task::WalkTo(w(0, 0, 0))]);
}

#[test]
fn queue_moves_orders_between_lists() {
    let mut q = WorkOrderQueue::new();
    assert!(q.register(1, WorkOrder::Dig(w(1, 0, 0))));
    assert!(q.register(2, WorkOrder::Dig(w(2, 0, 0))));
    assert!(!q.register(1, WorkOrder::Dig(w(9, 9, 9))));
    assert_eq!(ids(&q.pending), vec![1, 2]);
    assert!(exactly_one(&q, 1) && exactly_one(&q, 2));

    assert_eq!(q.claim_next(), Some((1, WorkOrder::Dig(w(1, 0, 0)))));
    assert_eq!(ids(&q.pending), vec![2]);
    assert_eq!(ids(&q.in_progress), vec![1]);
    assert!(exactly_one(&q, 1) && exactly_one(&q, 2));
    assert!(!q.register(1, WorkOrder::Dig(w(9, 9, 9))));

    assert!(q.requeue(1));
    assert_eq!(ids(&q.pending), vec![2, 1]);
    assert!(q.in_progress.is_empty());
    assert!(!q.requeue(1));

    assert!(q.contains(&WorkOrder::Dig(w(2, 0, 0))));
    assert!(!q.contains(&WorkOrder::Dig(w(3, 0, 0))));
    assert_eq!(q.order_of(2), Some(WorkOrder::Dig(w(2, 0, 0))));

    q.unregister(2);
    assert_eq!(ids(&q.pending), vec![1]);
    assert_eq!(q.order_of(2), None);
    q.claim_next();
    q.unregister(1);
    assert!(q.pending.is_empty() && q.in_progress.is_empty());
    assert_eq!(q.claim_next(), None);
}

#[test]
fn worker_claims_and_realises_order() {
    let mut q = WorkOrderQueue::new();
    q.register(7, WorkOrder::Dig(w(3, 0, 0)));
    let mut worker = Worker::new();
    assert!(fetch_new_work_order(&mut q, &mut worker));
    assert_eq!(worker.current_work_order, Some(7));
    assert!(!fetch_new_work_order(&mut q, &mut worker));
    check_work_orders(&q, &mut worker);
    assert_eq!(worker.task_queue.as_ref().map(|t| t.tasks.len()), Some(2));
    assert_eq!(check_tasks(&mut worker), None);
    assert_eq!(worker.active_task, Some(Task::WalkToNearest(w(3, 0, 0))));
}

#[test]
fn empty_task_queue_completes_order() {
    let mut q = WorkOrderQueue::new();
    q.register(4, WorkOrder::Dig(w(0, 0, 0)));
    let mut worker = Worker::new();
    fetch_new_work_order(&mut q, &mut worker);
    worker.task_queue = Some(TaskQueue::new(vec![]));
    assert_eq!(check_tasks(&mut worker), Some(TaskEvent::Completed));
    assert!(worker.task_queue.is_none());
    on_task_finished(&mut q, &mut worker, TaskEvent::Completed);
    assert_eq!(worker.current_work_order, None);
    assert!(q.pending.is_empty() && q.in_progress.is_empty());
}

#[test]
fn unreachable_order_is_requeued_within_a_tick() {
    let mut q = WorkOrderQueue::new();
    q.register(11, WorkOrder::Dig(w(3, 0, 0)));
    q.register(12, WorkOrder::Dig(w(8, 8, 0)));
    let mut worker = Worker::new();
    // No chunk exists: every search runs out of its failure budget.
    let mut world = WorldMap::new();
    let mut failed = false;
    for _ in 0..20 {
        let report = tick(&mut q, &mut worker, &mut world, w(0, 0, 0), 16, 0, &pillar);
        assert!(exactly_one(&q, 11) && exactly_one(&q, 12));
        if report.event == Some(TaskEvent::Failed) {
            assert_eq!(ids(&q.pending), vec![12, 11]);
            assert!(q.in_progress.is_empty());
            assert!(worker.current_work_order.is_none());
            assert!(worker.task_queue.is_none() && worker.active_task.is_none());
            failed = true;
            break;
        }
        assert_eq!(ids(&q.in_progress), vec![11]);
    }
    assert!(failed);
}

#[test]
fn dig_order_runs_to_completion() {
    let mut world = WorldMap::new();
    world.ensure_surrounding_exist(ChunkCoordinates::new(0, 0, 0), &pillar);
    world.ensure_surrounding_exist(ChunkCoordinates::new(0, 0, -1), &pillar);
    let target = w(3, 0, 0);
    assert_eq!(world.get_block(target), Some(BlockType::Solid(SolidMaterial::Dirt)));
    assert_eq!(world.get_block(w(3, 0, 1)), Some(BlockType::Solid(SolidMaterial::Grass)));

    let mut q = WorkOrderQueue::new();
    q.register(5, WorkOrder::Dig(target));
    let mut worker = Worker::new();
    let mut changed = None;
    let mut completed = false;
    for _ in 0..60 {
        let report = tick(&mut q, &mut worker, &mut world, w(0, 0, 0), 1001, 600, &pillar);
        assert!(report.event != Some(TaskEvent::Failed));
        if report.changed_block.is_some() {
            changed = report.changed_block;
        }
        if report.event == Some(TaskEvent::Completed) {
            completed = true;
            break;
        }
    }
    assert!(completed);
    assert_eq!(changed, Some(target));
    assert_eq!(world.get_block(target), None);
    assert!(q.pending.is_empty() && q.in_progress.is_empty());
    assert!(worker.current_work_order.is_none());
    assert!(worker.task_queue.is_none());
}
