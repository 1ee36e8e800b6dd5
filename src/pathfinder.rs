//! Incremental A* over the world: one node is expanded per call, so that a
//! long search spreads over many ticks.
use vstd::prelude::*;

use crate::block::BlockType;
use crate::coord_map::CoordMap;
use crate::coordinates::{all_neighbors_spec, all_offsets_spec, WorldCoordinates};
use crate::frontier::{frontier_entries, frontier_new, frontier_pop, frontier_push, Frontier};
use crate::path::{edge_weight, is_neighbor, is_route, route_weight, Path};
use crate::world_map::WorldMap;

verus! {

/// How many times a search may meet a chunk that does not exist yet before
/// it gives up.
pub const ALLOWED_FAILURES: u8 = 3;

/// Why a step of a search did not go on.
#[derive(Clone, Copy, Debug, PartialEq, Eq, Structural)]
pub enum PathfindingErrors {
    /// A block that the step needed lies in a chunk not generated yet; the
    /// node is queued again.
    NotEnoughChunks,
    /// No path exists, or too many steps met missing chunks.
    Unreachable,
}

/// The outcome of one step of a search.
#[derive(Debug)]
pub enum PathfindingState {
    Failed(PathfindingErrors),
    Calculating,
    Complete(Path),
}

pub open spec fn at(k: (i32, i32, i32)) -> WorldCoordinates {
    WorldCoordinates { x: k.0, y: k.1, z: k.2 }
}

/// The block below `c`.
pub open spec fn below(c: WorldCoordinates) -> WorldCoordinates {
    WorldCoordinates { x: c.x, y: c.y, z: (c.z - 1) as i32 }
}

/// A worker can stand at `c`: the block is empty and the one below is
/// solid.
pub open spec fn is_floor_spec(world: &WorldMap, c: WorldCoordinates) -> bool {
    &&& world.raw_block_spec(c) == Some(BlockType::Empty)
    &&& match world.raw_block_spec(below(c)) {
        Some(b) => b.is_solid_spec(),
        None => false,
    }
}

/// A node whose neighbours, and the blocks below them, all have
/// coordinates.
pub open spec fn expandable(c: WorldCoordinates) -> bool {
    c.inner() && c.z > i32::MIN + 1
}

/// Squared distance between two blocks.
pub open spec fn distance_squared(a: WorldCoordinates, b: WorldCoordinates) -> int {
    (a.x - b.x) * (a.x - b.x) + (a.y - b.y) * (a.y - b.y) + (a.z - b.z) * (a.z - b.z)
}

/// The frontier priority of a node reached at `cost`: the cost, the
/// heuristic and the squared distance to the target, held at `u64::MAX`.
pub open spec fn priority_spec(cost: u64, h: u64, n: WorldCoordinates, t: WorldCoordinates) -> u64 {
    let p = cost + h + distance_squared(n, t);
    if p > u64::MAX {
        u64::MAX
    } else {
        p as u64
    }
}

/// The estimate added to each priority.
fn heuristic(_world: &WorldMap) -> (r: u64)
    ensures
        r == 1,
{
    1
}

fn priority(cost: u64, h: u64, n: WorldCoordinates, t: WorldCoordinates) -> (r: u64)
    ensures
        r == priority_spec(cost, h, n, t),
{
    let dx = n.x as i128 - t.x as i128;
    let dy = n.y as i128 - t.y as i128;
    let dz = n.z as i128 - t.z as i128;
    proof {
        assert(dx * dx <= 0x1_0000_0000_0000_0000) by (nonlinear_arith)
            requires
                -0x1_0000_0000 <= dx <= 0x1_0000_0000,
        ;
        assert(dy * dy <= 0x1_0000_0000_0000_0000) by (nonlinear_arith)
            requires
                -0x1_0000_0000 <= dy <= 0x1_0000_0000,
        ;
        assert(dz * dz <= 0x1_0000_0000_0000_0000) by (nonlinear_arith)
            requires
                -0x1_0000_0000 <= dz <= 0x1_0000_0000,
        ;
        assert(dx * dx >= 0 && dy * dy >= 0 && dz * dz >= 0) by (nonlinear_arith);
    }
    let total = cost as i128 + h as i128 + (dx * dx + dy * dy + dz * dz);
    if total > u64::MAX as i128 {
        u64::MAX
    } else {
        total as u64
    }
}

proof fn lemma_unit_square(d: int)
    requires
        -1 <= d <= 1,
    ensures
        d * d == if d == 0 {
            0int
        } else {
            1int
        },
{
    assert(d * d == if d == 0 {
        0int
    } else {
        1int
    }) by (nonlinear_arith)
        requires
            -1 <= d <= 1,
    ;
}

/// A step between neighbours costs from 1 to 3.
pub proof fn lemma_edge_weight_bounds(a: WorldCoordinates, b: WorldCoordinates)
    requires
        is_neighbor(a, b),
    ensures
        1 <= edge_weight(a, b) <= 3,
{
    lemma_unit_square(b.x - a.x);
    lemma_unit_square(b.y - a.y);
    lemma_unit_square(b.z - a.z);
}

/// Each of the twenty-six entries of the neighbour table is a neighbour,
/// and its cost is the stated edge weight of the step to it.
pub proof fn lemma_all_neighbors(c: WorldCoordinates)
    requires
        c.inner(),
    ensures
        forall|i: int|
            0 <= i < 26 ==> {
                let e = #[trigger] all_neighbors_spec(c)[i];
                &&& is_neighbor(c, e.0)
                &&& e.1 as int == edge_weight(c, e.0)
                &&& e.0.z >= c.z - 1
            },
{
    assert forall|i: int|
        0 <= i < 26 implies {
        let e = #[trigger] all_neighbors_spec(c)[i];
        &&& is_neighbor(c, e.0)
        &&& e.1 as int == edge_weight(c, e.0)
        &&& e.0.z >= c.z - 1
    } by {
        let o = all_offsets_spec()[i];
        assert(-1 <= o.0 <= 1 && -1 <= o.1 <= 1 && -1 <= o.2 <= 1);
        assert(!(o.0 == 0 && o.1 == 0 && o.2 == 0));
        lemma_unit_square(o.0 as int);
        lemma_unit_square(o.1 as int);
        lemma_unit_square(o.2 as int);
        assert(o.3 as int == o.0 * o.0 + o.1 * o.1 + o.2 * o.2);
    }
}

fn edge_cost(a: WorldCoordinates, b: WorldCoordinates) -> (r: u64)
    requires
        is_neighbor(a, b),
    ensures
        r == edge_weight(a, b),
{
    proof {
        lemma_edge_weight_bounds(a, b);
        lemma_unit_square(b.x - a.x);
        lemma_unit_square(b.y - a.y);
        lemma_unit_square(b.z - a.z);
    }
    let dx = b.x as i64 - a.x as i64;
    let dy = b.y as i64 - a.y as i64;
    let dz = b.z as i64 - a.z as i64;
    (dx * dx + dy * dy + dz * dz) as u64
}

/// The frontier (node to priority), the costs and the came-from links of a
/// search.
pub type SearchMaps = (
    Map<(i32, i32, i32), u64>,
    Map<(i32, i32, i32), u64>,
    Map<(i32, i32, i32), Option<WorldCoordinates>>,
);

/// The chunks of `n` and of the block below it have been generated.
pub open spec fn chunks_ready(world: &WorldMap, n: WorldCoordinates) -> bool {
    world.raw_block_spec(n) is Some && world.raw_block_spec(below(n)) is Some
}

/// The first `k` neighbours of `c` all have their chunks generated.
pub open spec fn ready_upto(world: &WorldMap, c: WorldCoordinates, k: int) -> bool {
    forall|j: int| 0 <= j < k ==> chunks_ready(world, (#[trigger] all_neighbors_spec(c)[j]).0)
}

/// Relaxing neighbour `n` of `c`, reached at cost `cc` over an edge of
/// weight `w`: where a worker can stand at `n` and the new cost improves on
/// the recorded one (or none is recorded), `n` gets the new cost, a link to
/// `c`, and a frontier entry at its priority.
pub open spec fn relax_one(
    s: SearchMaps,
    world: &WorldMap,
    c: WorldCoordinates,
    cc: u64,
    n: WorldCoordinates,
    w: u32,
    target: WorldCoordinates,
) -> SearchMaps {
    let nk = n.key();
    let nc = cc + w;
    if is_floor_spec(world, n) && cc <= u64::MAX - 3 && (!s.1.contains_key(nk) || nc < s.1[nk]) {
        (
            s.0.insert(nk, priority_spec(nc as u64, 1, n, target)),
            s.1.insert(nk, nc as u64),
            s.2.insert(nk, Some(c)),
        )
    } else {
        s
    }
}

/// Relaxing the first `k` neighbours of `c` in table order.
pub open spec fn relax_upto(
    s: SearchMaps,
    world: &WorldMap,
    c: WorldCoordinates,
    cc: u64,
    target: WorldCoordinates,
    k: nat,
) -> SearchMaps
    decreases k,
{
    if k == 0 {
        s
    } else {
        let e = all_neighbors_spec(c)[k - 1];
        relax_one(relax_upto(s, world, c, cc, target, (k - 1) as nat), world, c, cc, e.0, e.1, target)
    }
}

/// The error for a missing chunk: permanent once the failure budget is
/// spent.
pub open spec fn budget_error(failures: u8) -> PathfindingErrors {
    if failures >= ALLOWED_FAILURES {
        PathfindingErrors::Unreachable
    } else {
        PathfindingErrors::NotEnoughChunks
    }
}

pub open spec fn bumped8(v: u8) -> u8 {
    if v < u8::MAX {
        (v + 1) as u8
    } else {
        v
    }
}

pub open spec fn bumped32(v: u32) -> u32 {
    if v < u32::MAX {
        (v + 1) as u32
    } else {
        v
    }
}

/// `p` is the route of `f` to its target: walking the came-from links back
/// from the target to the start, in walking order, with its weight.
pub open spec fn route_of(f: Pathfinder, world: &WorldMap, p: Path) -> bool {
    let w = p.waypoints@;
    &&& w.len() >= 1
    &&& w[0] == f.start_spec()
    &&& w.last() == f.target_spec()
    &&& forall|i: int|
        1 <= i < w.len() ==> f.came_from_view()[(#[trigger] w[i]).key()] == Some(w[i - 1])
    &&& forall|i: int, j: int| 0 <= i < j < w.len() ==> #[trigger] w[i] != #[trigger] w[j]
    &&& is_route(w)
    &&& p.weight == route_weight(w)
    &&& p.current_index == 0
    &&& p.current_t == 0
    &&& f.walkable_in(world) ==> forall|i: int|
        1 <= i < w.len() ==> is_floor_spec(world, #[trigger] w[i])
}

/// One step of `old` that popped node `c` and left `new`: the target
/// completes with its route; a node at the edge of the coordinates is only
/// dropped; otherwise its neighbours are relaxed in table order, and the
/// first one whose chunk (or the chunk below it) is missing stops the step
/// with an error, puts `c` back at its priority and counts a failure.
pub open spec fn step_from(
    old: Pathfinder,
    new: Pathfinder,
    world: &WorldMap,
    c: WorldCoordinates,
    r: PathfindingState,
) -> bool {
    let ck = c.key();
    let popped = (old.frontier_view().remove(ck), old.cost_view(), old.came_from_view());
    let cc = old.cost_view()[ck];
    let t = old.target_spec();
    &&& new.start_spec() == old.start_spec()
    &&& new.target_spec() == t
    &&& new.budget_spec() == old.budget_spec()
    &&& if c == t {
        &&& r matches PathfindingState::Complete(p) && route_of(old, world, p)
        &&& new.maps() == popped
        &&& new.failures_spec() == old.failures_spec()
        &&& new.steps_spec() == old.steps_spec()
    } else if !expandable(c) {
        &&& r is Calculating
        &&& new.maps() == popped
        &&& new.failures_spec() == old.failures_spec()
        &&& new.steps_spec() == bumped32(old.steps_spec())
    } else if ready_upto(world, c, 26) {
        &&& r is Calculating
        &&& new.maps() == relax_upto(popped, world, c, cc, t, 26)
        &&& new.failures_spec() == old.failures_spec()
        &&& new.steps_spec() == bumped32(old.steps_spec())
    } else {
        &&& exists|j: int|
            0 <= j < 26 && ready_upto(world, c, j) && !chunks_ready(
                world,
                (#[trigger] all_neighbors_spec(c)[j]).0,
            ) && {
                let m = relax_upto(popped, world, c, cc, t, j as nat);
                new.maps() == (m.0.insert(ck, old.frontier_view()[ck]), m.1, m.2)
            }
        &&& r == PathfindingState::Failed(budget_error(old.failures_spec()))
        &&& new.failures_spec() == bumped8(old.failures_spec())
        &&& new.steps_spec() == old.steps_spec()
    }
}

/// What one call of `calculate_step` does: on an empty frontier it fails
/// permanently and changes nothing; otherwise it pops a node of least
/// priority and takes the step `step_from` describes.
pub open spec fn step_outcome(
    old: Pathfinder,
    new: Pathfinder,
    world: &WorldMap,
    r: PathfindingState,
) -> bool {
    if old.frontier_view() == Map::<(i32, i32, i32), u64>::empty() {
        &&& r == PathfindingState::Failed(PathfindingErrors::Unreachable)
        &&& new.maps() == old.maps()
        &&& new.start_spec() == old.start_spec()
        &&& new.target_spec() == old.target_spec()
        &&& new.budget_spec() == old.budget_spec()
        &&& new.failures_spec() == old.failures_spec()
        &&& new.steps_spec() == old.steps_spec()
    } else {
        exists|c: (i32, i32, i32)|
            #[trigger] old.frontier_view().contains_key(c) && (forall|k: (i32, i32, i32)|
                old.frontier_view().contains_key(k) ==> old.frontier_view()[c]
                    <= old.frontier_view()[k]) && step_from(old, new, world, at(c), r)
    }
}

proof fn lemma_relax_frontier(
    s: SearchMaps,
    world: &WorldMap,
    c: WorldCoordinates,
    cc: u64,
    t: WorldCoordinates,
    k: nat,
)
    ensures
        forall|key: (i32, i32, i32)| #[trigger]
            relax_upto(s, world, c, cc, t, k).0.contains_key(key) ==> s.0.contains_key(key)
                || exists|j: int| 0 <= j < k && key == (#[trigger] all_neighbors_spec(c)[j]).0.key(),
    decreases k,
{
    if k > 0 {
        lemma_relax_frontier(s, world, c, cc, t, (k - 1) as nat);
        assert forall|key: (i32, i32, i32)| #[trigger]
            relax_upto(s, world, c, cc, t, k).0.contains_key(key) implies s.0.contains_key(key)
                || exists|j: int| 0 <= j < k && key == (#[trigger] all_neighbors_spec(c)[j]).0.key() by {
            let prev = relax_upto(s, world, c, cc, t, (k - 1) as nat);
            if !prev.0.contains_key(key) {
                let j = k - 1;
                assert(key == all_neighbors_spec(c)[j].0.key());
            } else if !s.0.contains_key(key) {
                let j = choose|j: int| 0 <= j < k - 1 && key == (#[trigger] all_neighbors_spec(c)[j]).0.key();
                assert(0 <= j < k);
            }
        }
    }
}

/// One call of `calculate_step` expands at most one node: every node queued
/// afterwards was queued before or is one of the twenty-six neighbours of
/// the node it popped.
pub proof fn lemma_one_expansion(old: Pathfinder, new: Pathfinder, world: &WorldMap, r: PathfindingState)
    requires
        step_outcome(old, new, world, r),
    ensures
        old.frontier_view() == Map::<(i32, i32, i32), u64>::empty() ==> new.frontier_view() == old.frontier_view(),
        old.frontier_view() != Map::<(i32, i32, i32), u64>::empty() ==> exists|c: (i32, i32, i32)|
            #[trigger] old.frontier_view().contains_key(c) && forall|k: (i32, i32, i32)| #[trigger]
                new.frontier_view().contains_key(k) ==> old.frontier_view().contains_key(k)
                    || exists|j: int| 0 <= j < 26 && k == (#[trigger] all_neighbors_spec(at(c))[j]).0.key(),
{
    if old.frontier_view() != Map::<(i32, i32, i32), u64>::empty() {
        let c = choose|c: (i32, i32, i32)|
            #[trigger] old.frontier_view().contains_key(c) && (forall|k: (i32, i32, i32)|
                old.frontier_view().contains_key(k) ==> old.frontier_view()[c]
                    <= old.frontier_view()[k]) && step_from(old, new, world, at(c), r);
        let w = at(c);
        assert(w.key() == c);
        let popped = (old.frontier_view().remove(c), old.cost_view(), old.came_from_view());
        let cc = old.cost_view()[c];
        let t = old.target_spec();
        assert(at(c) == w);
        if w == t || !expandable(w) {
            assert forall|k: (i32, i32, i32)| #[trigger]
                new.frontier_view().contains_key(k) implies old.frontier_view().contains_key(k)
                    || exists|i: int| 0 <= i < 26 && k == (#[trigger] all_neighbors_spec(w)[i]).0.key() by {
                assert(new.frontier_view() == old.frontier_view().remove(c));
            }
        } else if ready_upto(world, w, 26) {
            lemma_relax_frontier(popped, world, w, cc, t, 26);
            assert forall|k: (i32, i32, i32)| #[trigger]
                new.frontier_view().contains_key(k) implies old.frontier_view().contains_key(k)
                    || exists|i: int| 0 <= i < 26 && k == (#[trigger] all_neighbors_spec(w)[i]).0.key() by {
                assert(relax_upto(popped, world, w, cc, t, 26).0.contains_key(k));
            }
        } else {
            let j = choose|j: int|
                0 <= j < 26 && ready_upto(world, w, j) && !chunks_ready(
                    world,
                    (#[trigger] all_neighbors_spec(w)[j]).0,
                ) && {
                    let m = relax_upto(popped, world, w, cc, t, j as nat);
                    new.maps() == (m.0.insert(c, old.frontier_view()[c]), m.1, m.2)
                };
            lemma_relax_frontier(popped, world, w, cc, t, j as nat);
            assert forall|k: (i32, i32, i32)| #[trigger]
                new.frontier_view().contains_key(k) implies old.frontier_view().contains_key(k)
                    || exists|i: int| 0 <= i < 26 && k == (#[trigger] all_neighbors_spec(w)[i]).0.key() by {
                if k != c && !old.frontier_view().contains_key(k) {
                    let m = relax_upto(popped, world, w, cc, t, j as nat);
                    assert(m.0.contains_key(k));
                    let i = choose|i: int| 0 <= i < j && k == (#[trigger] all_neighbors_spec(w)[i]).0.key();
                    assert(0 <= i < 26);
                }
            }
        }
    }
}

proof fn lemma_step_error(
    old: Pathfinder,
    new: Pathfinder,
    world: &WorldMap,
    c: WorldCoordinates,
    i: int,
    e: PathfindingErrors,
)
    requires
        0 <= i < 26,
        c != old.target_spec(),
        expandable(c),
        ready_upto(world, c, i),
        !chunks_ready(world, all_neighbors_spec(c)[i].0),
        ({
            let ck = c.key();
            let popped = (old.frontier_view().remove(ck), old.cost_view(), old.came_from_view());
            let m = relax_upto(popped, world, c, old.cost_view()[ck], old.target_spec(), i as nat);
            new.maps() == (m.0.insert(ck, old.frontier_view()[ck]), m.1, m.2)
        }),
        e == budget_error(old.failures_spec()),
        new.failures_spec() == bumped8(old.failures_spec()),
        new.steps_spec() == old.steps_spec(),
        new.start_spec() == old.start_spec(),
        new.target_spec() == old.target_spec(),
        new.budget_spec() == old.budget_spec(),
    ensures
        step_from(old, new, world, c, PathfindingState::Failed(e)),
{
    assert(!ready_upto(world, c, 26));
}

/// A search from a start block towards a target block.
pub struct Pathfinder {
    start: Ghost<WorldCoordinates>,
    target: WorldCoordinates,
    frontier: Frontier,
    came_from: CoordMap<Option<WorldCoordinates>>,
    cost_so_far: CoordMap<u64>,
    steps: u32,
    allowed_failures: u8,
    current_failures: u8,
}

impl Pathfinder {
    pub closed spec fn start_spec(&self) -> WorldCoordinates {
        self.start@
    }

    pub closed spec fn target_spec(&self) -> WorldCoordinates {
        self.target
    }

    /// The queued nodes with their priorities.
    pub closed spec fn frontier_view(&self) -> Map<(i32, i32, i32), u64> {
        frontier_entries(self.frontier)
    }

    /// For each reached node, the node it was reached from (none for the
    /// start).
    pub closed spec fn came_from_view(&self) -> Map<(i32, i32, i32), Option<WorldCoordinates>> {
        self.came_from@
    }

    /// The cheapest cost found so far for each reached node.
    pub closed spec fn cost_view(&self) -> Map<(i32, i32, i32), u64> {
        self.cost_so_far@
    }

    pub closed spec fn failures_spec(&self) -> u8 {
        self.current_failures
    }

    pub closed spec fn steps_spec(&self) -> u32 {
        self.steps
    }

    /// How many missing-chunk failures the search tolerates.
    pub closed spec fn budget_spec(&self) -> u8 {
        self.allowed_failures
    }

    pub open spec fn maps(&self) -> SearchMaps {
        (self.frontier_view(), self.cost_view(), self.came_from_view())
    }

    /// A fresh search from `start` to `target`.
    pub open spec fn is_new_search(&self, start: WorldCoordinates, target: WorldCoordinates) -> bool {
        &&& self.start_spec() == start
        &&& self.target_spec() == target
        &&& self.frontier_view() == Map::<(i32, i32, i32), u64>::empty().insert(start.key(), 0)
        &&& self.cost_view() == Map::<(i32, i32, i32), u64>::empty().insert(start.key(), 0)
        &&& self.came_from_view() == Map::<(i32, i32, i32), Option<WorldCoordinates>>::empty().insert(
            start.key(),
            None,
        )
        &&& self.failures_spec() == 0
        &&& self.steps_spec() == 0
        &&& self.budget_spec() == ALLOWED_FAILURES
    }

    #[verifier::opaque]
    pub closed spec fn wf(&self) -> bool {
        &&& self.came_from@.dom() == self.cost_so_far@.dom()
        &&& forall|k: (i32, i32, i32)| #[trigger]
            frontier_entries(self.frontier).contains_key(k) ==> self.cost_so_far@.contains_key(k)
        &&& self.came_from@.contains_key(self.start@.key())
        &&& self.came_from@[self.start@.key()] is None
        &&& self.cost_so_far@[self.start@.key()] == 0
        &&& forall|k: (i32, i32, i32)| #[trigger]
            self.came_from@.contains_key(k) ==> match self.came_from@[k] {
                None => k == self.start@.key(),
                Some(p) => {
                    &&& self.cost_so_far@.contains_key(p.key())
                    &&& is_neighbor(p, at(k))
                    &&& self.cost_so_far@[p.key()] + edge_weight(p, at(k))
                        <= self.cost_so_far@[k]
                },
            }
        &&& self.allowed_failures == ALLOWED_FAILURES
    }

    /// Every node reached from another is a floor block of `world`.
    #[verifier::opaque]
    pub closed spec fn walkable_in(&self, world: &WorldMap) -> bool {
        forall|k: (i32, i32, i32)| #[trigger]
            self.came_from@.contains_key(k) && self.came_from@[k] is Some ==> is_floor_spec(
                world,
                at(k),
            )
    }

    /// A search from `start` to `target`, with only `start` queued, at cost
    /// zero.
    pub fn new(start: WorldCoordinates, target: WorldCoordinates) -> (r: Pathfinder)
        ensures
            r.wf(),
            r.is_new_search(start, target),
            forall|w: &WorldMap| r.walkable_in(w),
    {
        let k = (start.x, start.y, start.z);
        let mut frontier = frontier_new();
        frontier_push(&mut frontier, k, 0);
        let mut came_from = CoordMap::new();
        came_from.insert(k, None);
        let mut cost_so_far = CoordMap::new();
        cost_so_far.insert(k, 0);
        let r = Pathfinder {
            start: Ghost(start),
            target,
            frontier,
            came_from,
            cost_so_far,
            steps: 0,
            allowed_failures: ALLOWED_FAILURES,
            current_failures: 0,
        };
        assert(r.came_from@.dom() =~= r.cost_so_far@.dom());
        assert(r.came_from@ =~= Map::<(i32, i32, i32), Option<WorldCoordinates>>::empty().insert(
            start.key(),
            None,
        ));
        reveal(Pathfinder::wf);
        reveal(Pathfinder::walkable_in);
        r
    }

    /// Whether a worker can stand at `neighbor`; an error where it or the
    /// block below lies in a chunk that does not exist yet:
    /// `Unreachable` once the failure budget is spent, `NotEnoughChunks`
    /// before.
    fn is_floor_block(&self, world: &WorldMap, neighbor: WorldCoordinates) -> (r: Result<
        bool,
        PathfindingErrors,
    >)
        requires
            world.wf(),
            neighbor.z > i32::MIN,
        ensures
            match r {
                Ok(b) => {
                    &&& world.raw_block_spec(neighbor) is Some
                    &&& world.raw_block_spec(below(neighbor)) is Some
                    &&& b == is_floor_spec(world, neighbor)
                },
                Err(e) => {
                    &&& (world.raw_block_spec(neighbor) is None || world.raw_block_spec(
                        below(neighbor),
                    ) is None)
                    &&& e == if self.current_failures >= self.allowed_failures {
                        PathfindingErrors::Unreachable
                    } else {
                        PathfindingErrors::NotEnoughChunks
                    }
                },
            },
    {
        let error = if self.current_failures >= self.allowed_failures {
            PathfindingErrors::Unreachable
        } else {
            PathfindingErrors::NotEnoughChunks
        };
        let block = match world.get_raw_block(neighbor) {
            Some(b) => b,
            None => return Err(error),
        };
        let under = WorldCoordinates { x: neighbor.x, y: neighbor.y, z: neighbor.z - 1 };
        let block_below = match world.get_raw_block(under) {
            Some(b) => b,
            None => return Err(error),
        };
        Ok(block == BlockType::Empty && block_below.is_solid())
    }

    proof fn lemma_link(&self, c: WorldCoordinates, p: WorldCoordinates)
        requires
            self.wf(),
            self.came_from@.contains_key(c.key()),
            self.came_from@[c.key()] == Some(p),
        ensures
            self.cost_so_far@.contains_key(p.key()),
            self.came_from@.contains_key(p.key()),
            self.cost_so_far@.contains_key(c.key()),
            is_neighbor(p, c),
            self.cost_so_far@[p.key()] + edge_weight(p, c) <= self.cost_so_far@[c.key()],
            1 <= edge_weight(p, c) <= 3,
    {
        reveal(Pathfinder::wf);
        assert(at(c.key()) == c);
        lemma_edge_weight_bounds(p, c);
    }

    /// A search that differs from a well-formed one only in its counters
    /// and in queued nodes that have a cost is well-formed.
    proof fn lemma_same_search(&self, before: Pathfinder)
        requires
            before.wf(),
            self.start == before.start,
            self.came_from@ == before.came_from@,
            self.cost_so_far@ == before.cost_so_far@,
            self.allowed_failures == before.allowed_failures,
            forall|k: (i32, i32, i32)| #[trigger]
                frontier_entries(self.frontier).contains_key(k) ==> before.cost_so_far@.contains_key(k),
        ensures
            self.wf(),
            forall|w: &WorldMap| before.walkable_in(w) ==> #[trigger] self.walkable_in(w),
    {
        reveal(Pathfinder::wf);
        reveal(Pathfinder::walkable_in);
    }

    proof fn lemma_facts(&self)
        requires
            self.wf(),
        ensures
            self.came_from@.dom() == self.cost_so_far@.dom(),
            forall|k: (i32, i32, i32)| #[trigger]
                frontier_entries(self.frontier).contains_key(k) ==> self.cost_so_far@.contains_key(k),
            self.came_from@.contains_key(self.start@.key()),
            self.cost_so_far@[self.start@.key()] == 0,
            forall|k: (i32, i32, i32)| #[trigger]
                self.came_from@.contains_key(k) && self.came_from@[k] is None ==> k == self.start@.key(),
            self.allowed_failures == ALLOWED_FAILURES,
    {
        reveal(Pathfinder::wf);
        assert forall|k: (i32, i32, i32)| #[trigger]
            self.came_from@.contains_key(k) && self.came_from@[k] is None implies k == self.start@.key() by {
        }
    }

    /// Walks the came-from links back from the target to the start and
    /// returns the route in walking order, with its weight.
    #[verifier::rlimit(40)]
    fn to_path(&self) -> (r: Path)
        requires
            self.wf(),
            self.came_from@.contains_key(self.target.key()),
        ensures
            r.waypoints@.len() >= 1,
            r.waypoints@[0] == self.start@,
            r.waypoints@.last() == self.target,
            forall|i: int|
                1 <= i < r.waypoints@.len() ==> self.came_from@[(#[trigger] r.waypoints@[i]).key()]
                    == Some(r.waypoints@[i - 1]),
            forall|i: int|
                0 <= i < r.waypoints@.len() ==> self.came_from@.contains_key(
                    (#[trigger] r.waypoints@[i]).key(),
                ),
            is_route(r.waypoints@),
            forall|i: int, j: int|
                0 <= i < j < r.waypoints@.len() ==> #[trigger] r.waypoints@[i]
                    != #[trigger] r.waypoints@[j],
            r.weight == route_weight(r.waypoints@),
            r.current_index == 0,
            r.current_t == 0,
    {
        proof {
            self.lemma_facts();
        }
        let mut back: Vec<WorldCoordinates> = Vec::new();
        back.push(self.target);
        let mut next = self.target;
        loop
            invariant
                self.wf(),
                back@.len() >= 1,
                back@[0] == self.target,
                back@.last() == next,
                forall|j: int|
                    0 <= j < back@.len() ==> self.came_from@.contains_key(
                        (#[trigger] back@[j]).key(),
                    ),
                forall|j: int|
                    0 <= j < back@.len() - 1 ==> self.came_from@[(#[trigger] back@[j]).key()]
                        == Some(back@[j + 1]),
            ensures
                back@.len() >= 1,
                back@[0] == self.target,
                back@.last() == next,
                forall|j: int|
                    0 <= j < back@.len() ==> self.came_from@.contains_key(
                        (#[trigger] back@[j]).key(),
                    ),
                forall|j: int|
                    0 <= j < back@.len() - 1 ==> self.came_from@[(#[trigger] back@[j]).key()]
                        == Some(back@[j + 1]),
                self.came_from@[next.key()] is None,
            decreases self.cost_so_far@[next.key()],
        {
            proof {
                assert(back@[back@.len() - 1] == next);
            }
            let link: Option<WorldCoordinates> = match self.came_from.get(
                (next.x, next.y, next.z),
            ) {
                Some(l) => *l,
                None => None,
            };
            match link {
                Some(p) => {
                    proof {
                        self.lemma_link(next, p);
                    }
                    back.push(p);
                    next = p;
                },
                None => {
                    break ;
                },
            }
        }
        assert(self.came_from@[next.key()] is None);
        assert(next == self.start@);
        let n = back.len();
        let ghost costs = self.cost_so_far@;
        proof {
            assert forall|j: int| 0 <= j < n - 1 implies {
                &&& is_neighbor(back@[j + 1], #[trigger] back@[j])
                &&& costs[back@[j + 1].key()] + edge_weight(back@[j + 1], back@[j])
                    <= costs[back@[j].key()]
            } by {
                self.lemma_link(back@[j], back@[j + 1]);
            }
        }
        let mut waypoints: Vec<WorldCoordinates> = Vec::new();
        let mut weight: u64 = 0;
        let mut i: usize = n;
        while i > 0
            invariant
                n == back@.len(),
                n >= 1,
                forall|j: int| 0 <= j < n ==> #[trigger] costs[back@[j].key()] <= u64::MAX,
                forall|j: int|
                    0 <= j < n - 1 ==> {
                        &&& is_neighbor(back@[j + 1], #[trigger] back@[j])
                        &&& costs[back@[j + 1].key()] + edge_weight(back@[j + 1], back@[j])
                            <= costs[back@[j].key()]
                    },
                0 <= i <= n,
                waypoints@.len() == n - i,
                forall|m: int| 0 <= m < n - i ==> #[trigger] waypoints@[m] == back@[n - 1 - m],
                is_route(waypoints@),
                weight == route_weight(waypoints@),
                waypoints@.len() > 0 ==> weight <= costs[waypoints@.last().key()],
                forall|a: int, b: int|
                    0 <= a < b < waypoints@.len() ==> costs[(#[trigger] waypoints@[a]).key()]
                        < costs[(#[trigger] waypoints@[b]).key()],
                forall|a: int|
                    0 <= a < waypoints@.len() ==> costs[(#[trigger] waypoints@[a]).key()]
                        <= costs[waypoints@.last().key()],
            decreases i,
        {
            let x = back[i - 1];
            let ghost before = waypoints@;
            if waypoints.len() > 0 {
                let last = waypoints[waypoints.len() - 1];
                proof {
                    let j = i - 1;
                    assert(last == back@[j + 1]);
                    assert(is_neighbor(back@[j + 1], back@[j]));
                    assert(costs[x.key()] <= u64::MAX);
                    lemma_edge_weight_bounds(last, x);
                }
                weight = weight + edge_cost(last, x);
                waypoints.push(x);
                proof {
                    assert(waypoints@.drop_last() =~= before);
                    assert(costs[last.key()] < costs[x.key()]);
                    assert forall|a: int, b: int|
                        0 <= a < b < waypoints@.len() implies costs[(#[trigger] waypoints@[a]).key()]
                            < costs[(#[trigger] waypoints@[b]).key()] by {
                        assert(waypoints@[a] == before[a] || a == before.len());
                        if b < before.len() {
                            assert(waypoints@[b] == before[b]);
                            assert(waypoints@[a] == before[a]);
                        } else {
                            assert(waypoints@[a] == before[a]);
                            assert(costs[before[a].key()] <= costs[before.last().key()]);
                        }
                    }
                    assert forall|a: int|
                        0 <= a < waypoints@.len() implies costs[(#[trigger] waypoints@[a]).key()]
                            <= costs[waypoints@.last().key()] by {
                        if a < before.len() {
                            assert(waypoints@[a] == before[a]);
                            assert(costs[before[a].key()] <= costs[before.last().key()]);
                        }
                    }
                }
            } else {
                waypoints.push(x);
                proof {
                    assert(costs[back@[i - 1].key()] <= u64::MAX);
                }
            }
            i = i - 1;
            proof {
                assert forall|m: int| 0 <= m < waypoints@.len() - 1 implies is_neighbor(
                    #[trigger] waypoints@[m],
                    waypoints@[m + 1],
                ) by {
                    if m < before.len() - 1 {
                        assert(waypoints@[m] == before[m]);
                        assert(waypoints@[m + 1] == before[m + 1]);
                    } else {
                        assert(waypoints@[m] == back@[n - 1 - m]);
                        assert(waypoints@[m + 1] == back@[n - 2 - m]);
                    }
                }
            }
        }
        proof {
            assert forall|m: int| 1 <= m < waypoints@.len() implies self.came_from@[(
            #[trigger] waypoints@[m]).key()] == Some(waypoints@[m - 1]) by {
                let j = n - 1 - m;
                assert(waypoints@[m] == back@[j]);
                assert(waypoints@[m - 1] == back@[j + 1]);
            }
            assert forall|m: int| 0 <= m < waypoints@.len() implies self.came_from@.contains_key(
            (#[trigger] waypoints@[m]).key()) by {
                assert(waypoints@[m] == back@[n - 1 - m]);
            }
            assert(waypoints@[0] == back@[n - 1]);
            assert forall|a: int, b: int|
                0 <= a < b < waypoints@.len() implies #[trigger] waypoints@[a]
                    != #[trigger] waypoints@[b] by {
                assert(costs[waypoints@[a].key()] < costs[waypoints@[b].key()]);
            }
        }
        Path::new(waypoints, weight)
    }

    /// Expands one node: pops the cheapest queued node; completes with the
    /// route where it is the target; otherwise relaxes each neighbour a
    /// worker can stand on, queueing it at its new cost plus heuristic plus
    /// squared distance to the target. A neighbour in a chunk not generated
    /// yet puts the node back, counts a failure and ends the step with an
    /// error. An empty frontier means the target cannot be reached.
    #[verifier::rlimit(60)]
    pub fn calculate_step(&mut self, world: &WorldMap) -> (r: PathfindingState)
        requires
            old(self).wf(),
            world.wf(),
        ensures
            final(self).wf(),
            old(self).walkable_in(world) ==> final(self).walkable_in(world),
            step_outcome(*old(self), *final(self), world, r),
    {
        let popped = frontier_pop(&mut self.frontier);
        let (ck, priority_of_current) = match popped {
            Some(entry) => entry,
            None => {
                proof {
                    old(self).lemma_facts();
                    self.lemma_same_search(*old(self));
                }
                return PathfindingState::Failed(PathfindingErrors::Unreachable);
            },
        };
        let current = WorldCoordinates { x: ck.0, y: ck.1, z: ck.2 };
        let ghost popped_maps = (
            old(self).frontier_view().remove(ck),
            old(self).cost_view(),
            old(self).came_from_view(),
        );
        proof {
            old(self).lemma_facts();
            assert(current.key() == ck);
            assert(at(ck) == current);
            assert(self.cost_so_far@.contains_key(ck));
            self.lemma_same_search(*old(self));
            assert(self.maps() == popped_maps);
            assert(old(self).frontier_view().contains_key(ck));
        }
        if current == self.target {
            let path = self.to_path();
            proof {
                reveal(Pathfinder::walkable_in);
                if old(self).walkable_in(world) {
                    assert forall|i: int|
                        1 <= i < path.waypoints@.len() implies is_floor_spec(
                        world,
                        #[trigger] path.waypoints@[i],
                    ) by {
                        let k = path.waypoints@[i].key();
                        assert(self.came_from@.contains_key(k));
                        assert(at(k) == path.waypoints@[i]);
                    }
                }
                assert(route_of(*old(self), world, path));
            }
            let r = PathfindingState::Complete(path);
            proof {
                assert(step_from(*old(self), *self, world, at(ck), r));
            }
            return r;
        }
        if !(i32::MIN < current.x && current.x < i32::MAX && i32::MIN < current.y && current.y
            < i32::MAX && i32::MIN + 1 < current.z && current.z < i32::MAX) {
            let ghost before = *self;
            if self.steps < u32::MAX {
                self.steps = self.steps + 1;
            }
            proof {
                before.lemma_facts();
                self.lemma_same_search(before);
                assert(step_from(*old(self), *self, world, at(ck), PathfindingState::Calculating));
            }
            return PathfindingState::Calculating;
        }
        let current_cost: u64 = match self.cost_so_far.get(ck) {
            Some(c) => *c,
            None => 0,
        };
        let h = heuristic(world);
        let neighbors = current.all_neighbors();
        proof {
            lemma_all_neighbors(current);
        }
        let mut i: usize = 0;
        while i < neighbors.len()
            invariant
                self.wf(),
                world.wf(),
                old(self).walkable_in(world) ==> self.walkable_in(world),
                self.start@ == old(self).start@,
                self.target == old(self).target,
                self.current_failures == old(self).current_failures,
                self.allowed_failures == old(self).allowed_failures,
                self.steps == old(self).steps,
                current.key() == ck,
                at(ck) == current,
                current != self.target,
                expandable(current),
                self.cost_so_far@.contains_key(ck),
                self.cost_so_far@[ck] == current_cost,
                current_cost == old(self).cost_view()[ck],
                neighbors@ == all_neighbors_spec(current),
                forall|j: int|
                    0 <= j < 26 ==> {
                        let e = #[trigger] all_neighbors_spec(current)[j];
                        &&& is_neighbor(current, e.0)
                        &&& e.1 as int == edge_weight(current, e.0)
                        &&& e.0.z >= current.z - 1
                    },
                0 <= i <= 26,
                h == 1,
                self.maps() == relax_upto(popped_maps, world, current, current_cost, self.target, i as nat),
                ready_upto(world, current, i as int),
                old(self).frontier_view().contains_key(ck),
                old(self).frontier_view()[ck] == priority_of_current,
                old(self).allowed_failures == ALLOWED_FAILURES,
                forall|k: (i32, i32, i32)| #[trigger]
                    old(self).frontier_view().contains_key(k) ==> old(self).frontier_view()[ck]
                        <= old(self).frontier_view()[k],
                popped_maps == (
                    old(self).frontier_view().remove(ck),
                    old(self).cost_view(),
                    old(self).came_from_view(),
                ),
            decreases 26 - i,
        {
            let (n, w) = neighbors[i];
            proof {
                let e = all_neighbors_spec(current)[i as int];
                assert(e == (n, w));
            }
            match self.relax_neighbor(world, current, current_cost, n, w, h) {
                Err(e) => {
                    let ghost after = *self;
                    self.current_failures = self.current_failures.saturating_add(1);
                    frontier_push(&mut self.frontier, ck, priority_of_current);
                    proof {
                        after.lemma_facts();
                        assert forall|k: (i32, i32, i32)| #[trigger]
                            frontier_entries(self.frontier).contains_key(k) implies after.cost_so_far@.contains_key(k) by {
                            if k != ck {
                                assert(frontier_entries(after.frontier).contains_key(k));
                            }
                        }
                        self.lemma_same_search(after);
                        assert(!chunks_ready(world, all_neighbors_spec(current)[i as int].0));
                        let m = relax_upto(popped_maps, world, current, current_cost, self.target, i as nat);
                        assert(self.maps() == (m.0.insert(ck, old(self).frontier_view()[ck]), m.1, m.2));
                        lemma_step_error(*old(self), *self, world, current, i as int, e);
                        assert(old(self).frontier_view() != Map::<(i32, i32, i32), u64>::empty());
                    }
                    return PathfindingState::Failed(e);
                },
                Ok(()) => {},
            }
            i = i + 1;
        }
        let ghost before = *self;
        if self.steps < u32::MAX {
            self.steps = self.steps + 1;
        }
        proof {
            before.lemma_facts();
            self.lemma_same_search(before);
            assert(step_from(*old(self), *self, world, at(ck), PathfindingState::Calculating));
        }
        PathfindingState::Calculating
    }

    /// Relaxes one neighbour `n` of `current`, reached at `current_cost`
    /// over an edge of weight `w`; an error, with nothing changed, where a
    /// block it needs is in a chunk not generated yet.
    fn relax_neighbor(
        &mut self,
        world: &WorldMap,
        current: WorldCoordinates,
        current_cost: u64,
        n: WorldCoordinates,
        w: u32,
        h: u64,
    ) -> (r: Result<(), PathfindingErrors>)
        requires
            old(self).wf(),
            world.wf(),
            old(self).cost_so_far@.contains_key(current.key()),
            old(self).cost_so_far@[current.key()] == current_cost,
            is_neighbor(current, n),
            w as int == edge_weight(current, n),
            n.z > i32::MIN,
            h == 1,
        ensures
            final(self).wf(),
            final(self).start@ == old(self).start@,
            final(self).target == old(self).target,
            final(self).current_failures == old(self).current_failures,
            final(self).allowed_failures == old(self).allowed_failures,
            final(self).steps == old(self).steps,
            old(self).walkable_in(world) ==> final(self).walkable_in(world),
            final(self).cost_so_far@.contains_key(current.key()),
            final(self).cost_so_far@[current.key()] == current_cost,
            match r {
                Err(e) => {
                    &&& e == budget_error(old(self).current_failures)
                    &&& !chunks_ready(world, n)
                    &&& *final(self) == *old(self)
                },
                Ok(()) => {
                    &&& chunks_ready(world, n)
                    &&& final(self).maps() == relax_one(
                        old(self).maps(),
                        world,
                        current,
                        current_cost,
                        n,
                        w,
                        old(self).target,
                    )
                },
            },
    {
        proof {
            self.lemma_facts();
        }
        match self.is_floor_block(world, n) {
            Err(e) => Err(e),
            Ok(false) => Ok(()),
            Ok(true) => {
                proof {
                    lemma_edge_weight_bounds(current, n);
                }
                if current_cost <= u64::MAX - 3 {
                    let new_cost = current_cost + w as u64;
                    let nk = (n.x, n.y, n.z);
                    let improves = match self.cost_so_far.get(nk) {
                        Some(c) => new_cost < *c,
                        None => true,
                    };
                    if improves {
                        proof {
                            assert(at(nk) == n);
                            assert(nk != current.key());
                            if nk == self.start@.key() {
                                assert(self.cost_so_far@[nk] == 0);
                            }
                        }
                        let ghost before = *self;
                        self.cost_so_far.insert(nk, new_cost);
                        let p = priority(new_cost, h, n, self.target);
                        frontier_push(&mut self.frontier, nk, p);
                        self.came_from.insert(nk, Some(current));
                        proof {
                            assert(frontier_entries(self.frontier).dom() =~= frontier_entries(
                                before.frontier,
                            ).dom().insert(nk));
                            self.lemma_relax_keeps_wf(before, world, current, n, new_cost);
                        }
                    }
                }
                Ok(())
            },
        }
    }

    proof fn lemma_relax_keeps_wf(
        &self,
        before: Pathfinder,
        world: &WorldMap,
        current: WorldCoordinates,
        n: WorldCoordinates,
        new_cost: u64,
    )
        requires
            before.wf(),
            before.cost_so_far@.contains_key(current.key()),
            is_neighbor(current, n),
            before.cost_so_far@[current.key()] + edge_weight(current, n) == new_cost,
            !before.cost_so_far@.contains_key(n.key()) || new_cost < before.cost_so_far@[n.key()],
            n.key() != before.start@.key(),
            self.start == before.start,
            self.target == before.target,
            self.allowed_failures == before.allowed_failures,
            self.cost_so_far@ == before.cost_so_far@.insert(n.key(), new_cost),
            self.came_from@ == before.came_from@.insert(n.key(), Some(current)),
            frontier_entries(self.frontier).dom() == frontier_entries(before.frontier).dom().insert(
                n.key(),
            ),
        ensures
            self.wf(),
            before.walkable_in(world) && is_floor_spec(world, n) ==> self.walkable_in(world),
    {
        reveal(Pathfinder::wf);
        reveal(Pathfinder::walkable_in);
        let nk = n.key();
        assert(self.came_from@.dom() =~= self.cost_so_far@.dom());
        assert forall|k: (i32, i32, i32)| #[trigger]
            frontier_entries(self.frontier).contains_key(k) implies self.cost_so_far@.contains_key(
            k,
        ) by {
            assert(frontier_entries(self.frontier).dom().contains(k));
            if k != nk {
                assert(frontier_entries(before.frontier).contains_key(k));
            }
        }
        assert forall|k: (i32, i32, i32)| #[trigger] self.came_from@.contains_key(k) implies match self.came_from@[k] {
            None => k == self.start@.key(),
            Some(p) => {
                &&& self.cost_so_far@.contains_key(p.key())
                &&& is_neighbor(p, at(k))
                &&& self.cost_so_far@[p.key()] + edge_weight(p, at(k)) <= self.cost_so_far@[k]
            },
        } by {
            if k == nk {
                assert(at(k) == n);
            } else {
                assert(before.came_from@.contains_key(k));
                assert(self.came_from@[k] == before.came_from@[k]);
                assert(self.cost_so_far@[k] == before.cost_so_far@[k]);
            }
        }
        if before.walkable_in(world) && is_floor_spec(world, n) {
            assert forall|k: (i32, i32, i32)| #[trigger]
                self.came_from@.contains_key(k) && self.came_from@[k] is Some implies is_floor_spec(
                world,
                at(k),
            ) by {
                if k == nk {
                    assert(at(k) == n);
                } else {
                    assert(before.came_from@.contains_key(k));
                }
            }
        }
    }
}

} // verus!
