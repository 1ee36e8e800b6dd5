use open_fortress::coordinates::{ChunkCoordinates, WorldCoordinates};
use open_fortress::listener::PathEvent;
use open_fortress::path::Path;
use open_fortress::pathfinder::{PathfindingErrors, PathfindingState, Pathfinder};
use open_fortress::world_map::WorldMap;

fn flat(_c: ChunkCoordinates, _x: u32, _y: u32) -> i32 {
    0
}

/// Floor at z = -1 and open air above, over the chunks around the origin.
fn flat_world() -> WorldMap {
    let mut world = WorldMap::new();
    world.ensure_surrounding_exist(ChunkCoordinates::new(0, 0, 0), &flat);
    world.ensure_surrounding_exist(ChunkCoordinates::new(0, 0, -1), &flat);
    world
}

fn w(x: i32, y: i32, z: i32) -> WorldCoordinates {
    WorldCoordinates::new(x, y, z)
}

fn run(finder: &mut Pathfinder, world: &WorldMap, limit: usize) -> PathfindingState {
    for _ in 0..limit {
        match finder.calculate_step(world) {
            PathfindingState::Calculating => {}
            other => return other,
        }
    }
    PathfindingState::Calculating
}

fn edge(a: WorldCoordinates, b: WorldCoordinates) -> u64 {
    ((a.x - b.x).pow(2) + (a.y - b.y).pow(2) + (a.z - b.z).pow(2)) as u64
}

#[test]
fn straight_route_over_flat_floor() {
    let world = flat_world();
    let mut finder = Pathfinder::new(w(0, 0, 0), w(3, 0, 0));
    match run(&mut finder, &world, 100) {
        PathfindingState::Complete(path) => {
            assert_eq!(path.waypoints, vec![w(0, 0, 0), w(1, 0, 0), w(2, 0, 0), w(3, 0, 0)]);
            assert_eq!(path.waypoints.len(), 4);
            assert!(path.waypoints.windows(2).all(|p| p[0].x < p[1].x));
            assert_eq!(path.weight, 3);
            assert_eq!(path.current_index, 0);
        }
        other => panic!("unexpected outcome {:?}", other),
    }
}

#[test]
fn route_weight_is_sum_of_edges_and_waypoints_are_floor() {
    let mut world = flat_world();
    world.ensure_surrounding_exist(ChunkCoordinates::new(0, 0, -2), &flat);
    // A trench across x = 2 for y in -3..=3 forces a detour or a step down.
    for y in -3..=3 {
        assert!(world.damage_block(w(2, y, -1), 2000, &flat));
    }
    let mut finder = Pathfinder::new(w(0, 0, 0), w(4, 1, 0));
    match run(&mut finder, &world, 2000) {
        PathfindingState::Complete(path) => {
            let wp = &path.waypoints;
            assert_eq!(wp[0], w(0, 0, 0));
            assert_eq!(*wp.last().unwrap(), w(4, 1, 0));
            let mut sum = 0;
            for pair in wp.windows(2) {
                let d = edge(pair[0], pair[1]);
                assert!((1..=3).contains(&d));
                sum += d;
            }
            assert_eq!(path.weight, sum);
            for p in &wp[1..] {
                assert_eq!(world.get_block(*p), None);
                assert!(world.get_raw_block(*p).is_some());
                assert!(world.solidness(w(p.x, p.y, p.z - 1)));
            }
        }
        other => panic!("unexpected outcome {:?}", other),
    }
}

#[test]
fn start_equal_to_target_completes_at_once() {
    let world = flat_world();
    let mut finder = Pathfinder::new(w(1, 1, 0), w(1, 1, 0));
    match finder.calculate_step(&world) {
        PathfindingState::Complete(path) => {
            assert_eq!(path.waypoints, vec![w(1, 1, 0)]);
            assert_eq!(path.weight, 0);
        }
        other => panic!("unexpected outcome {:?}", other),
    }
}

#[test]
fn missing_chunks_retry_then_give_up() {
    let world = WorldMap::new();
    let mut finder = Pathfinder::new(w(0, 0, 0), w(3, 0, 0));
    for _ in 0..3 {
        assert!(matches!(
            finder.calculate_step(&world),
            PathfindingState::Failed(PathfindingErrors::NotEnoughChunks)
        ));
    }
    assert!(matches!(
        finder.calculate_step(&world),
        PathfindingState::Failed(PathfindingErrors::Unreachable)
    ));
}

#[test]
fn enclosed_start_exhausts_frontier() {
    let mut world = WorldMap::new();
    world.ensure_surrounding_exist(ChunkCoordinates::new(0, 0, -5), &flat);
    world.ensure_surrounding_exist(ChunkCoordinates::new(0, 0, -6), &flat);
    // The start lies inside the ground: no neighbour is a floor block.
    let mut finder = Pathfinder::new(w(0, 0, -5), w(3, 0, 0));
    assert!(matches!(finder.calculate_step(&world), PathfindingState::Calculating));
    assert!(matches!(
        finder.calculate_step(&world),
        PathfindingState::Failed(PathfindingErrors::Unreachable)
    ));
}

#[test]
fn exact_listener_finds_path() {
    let world = flat_world();
    let mut listener = Pathfinder::exact(w(0, 0, 0), w(2, 2, 0));
    assert_eq!(listener.searches.len(), 1);
    let mut found: Option<Path> = None;
    for _ in 0..100 {
        match listener.step(&world) {
            PathEvent::Pending => {}
            PathEvent::Completed(p) => {
                found = Some(p);
                break;
            }
            PathEvent::CalculationFailed => panic!("search failed"),
        }
    }
    let p = found.expect("no path");
    assert_eq!(p.waypoints, vec![w(0, 0, 0), w(1, 1, 0), w(2, 2, 0)]);
    assert_eq!(p.weight, 4);
    assert!(listener.searches.is_empty());
}

#[test]
fn nearest_listener_keeps_the_one_reachable_sibling() {
    let mut world = flat_world();
    let target = w(5, 0, 0);
    // Take the floor from under every neighbour of the target but (4, 0, 0).
    for (n, _) in target.same_layer_neighbors() {
        if n != w(4, 0, 0) {
            assert!(world.damage_block(w(n.x, n.y, -1), 2000, &flat));
        }
    }
    let mut listener = Pathfinder::nearest(w(0, 0, 0), target);
    assert_eq!(listener.searches.len(), 8);
    let mut found: Option<Path> = None;
    for _ in 0..100 {
        match listener.step(&world) {
            PathEvent::Pending => {}
            PathEvent::Completed(p) => {
                found = Some(p);
                break;
            }
            PathEvent::CalculationFailed => panic!("search failed"),
        }
    }
    let p = found.expect("no path");
    assert_eq!(*p.waypoints.last().unwrap(), w(4, 0, 0));
    assert_eq!(p.waypoints[0], w(0, 0, 0));
    assert!(listener.searches.is_empty());
}

#[test]
fn listener_fails_when_every_search_fails() {
    let world = WorldMap::new();
    let mut listener = Pathfinder::nearest(w(0, 0, 0), w(5, 0, 0));
    let mut last = PathEvent::Pending;
    for _ in 0..10 {
        last = listener.step(&world);
        if !matches!(last, PathEvent::Pending) {
            break;
        }
    }
    assert!(matches!(last, PathEvent::CalculationFailed));
    assert!(listener.searches.is_empty());
}

#[test]
fn path_cursor_advances_per_segment() {
    let mut path = Path::new(vec![w(0, 0, 0), w(1, 0, 0), w(2, 0, 0)], 2);
    assert_eq!(path.current_segment(), (w(0, 0, 0), w(1, 0, 0), 0));
    path.tick(400);
    assert_eq!(path.current_segment(), (w(0, 0, 0), w(1, 0, 0), 400));
    path.tick(700);
    assert_eq!(path.current_index, 1);
    assert_eq!(path.current_t, 0);
    assert_eq!(path.current_segment(), (w(1, 0, 0), w(2, 0, 0), 0));
    path.tick(1001);
    assert_eq!(path.current_segment(), (w(2, 0, 0), w(2, 0, 0), 0));
    assert!(!path.complete());
    path.tick(1000);
    assert!(!path.complete());
    path.tick(1);
    assert!(path.complete());
}
