//! A solved route and the cursor of the worker that follows it.
use vstd::prelude::*;

use crate::coordinates::WorldCoordinates;

verus! {

/// Time that a worker takes for one segment of a path, in milliseconds.
pub const SEGMENT_MILLIS: u64 = 1000;

/// Whether `b` is one of the twenty-six blocks around `a`.
pub open spec fn is_neighbor(a: WorldCoordinates, b: WorldCoordinates) -> bool {
    &&& -1 <= b.x - a.x <= 1
    &&& -1 <= b.y - a.y <= 1
    &&& -1 <= b.z - a.z <= 1
    &&& a != b
}

/// The cost of a step from `a` to a neighbour `b`: the squared distance,
/// so 1 along an axis, 2 across one diagonal, 3 across two.
pub open spec fn edge_weight(a: WorldCoordinates, b: WorldCoordinates) -> int {
    (b.x - a.x) * (b.x - a.x) + (b.y - a.y) * (b.y - a.y) + (b.z - a.z) * (b.z - a.z)
}

/// Consecutive waypoints are neighbours.
pub open spec fn is_route(w: Seq<WorldCoordinates>) -> bool {
    forall|i: int| 0 <= i < w.len() - 1 ==> is_neighbor(#[trigger] w[i], w[i + 1])
}

/// The sum of the edge weights along `w`.
pub open spec fn route_weight(w: Seq<WorldCoordinates>) -> int
    decreases w.len(),
{
    if w.len() <= 1 {
        0
    } else {
        route_weight(w.drop_last()) + edge_weight(w[w.len() - 2], w[w.len() - 1])
    }
}

/// `p` advanced by `delta` milliseconds (the sums held at the type's
/// largest value).
pub open spec fn tick_spec(p: Path, delta: u64) -> Path {
    let t = if p.current_t + delta > u64::MAX {
        u64::MAX as int
    } else {
        p.current_t + delta
    };
    if t > SEGMENT_MILLIS {
        Path {
            waypoints: p.waypoints,
            weight: p.weight,
            current_index: if p.current_index == usize::MAX {
                usize::MAX
            } else {
                (p.current_index + 1) as usize
            },
            current_t: 0,
        }
    } else {
        Path {
            waypoints: p.waypoints,
            weight: p.weight,
            current_index: p.current_index,
            current_t: t as u64,
        }
    }
}

/// A route and how far along it its follower is.
#[derive(Clone, Debug)]
pub struct Path {
    pub waypoints: Vec<WorldCoordinates>,
    /// The sum of the edge weights along the waypoints.
    pub weight: u64,
    /// The segment being walked: from waypoint `current_index` to the next.
    pub current_index: usize,
    /// How much of the segment is done, in milliseconds of `SEGMENT_MILLIS`.
    pub current_t: u64,
}

impl Path {
    /// A path at its first waypoint.
    pub fn new(waypoints: Vec<WorldCoordinates>, weight: u64) -> (r: Path)
        ensures
            r.waypoints@ == waypoints@,
            r.weight == weight,
            r.current_index == 0,
            r.current_t == 0,
    {
        Path { waypoints, weight, current_index: 0, current_t: 0 }
    }

    /// Advances the cursor by `delta_millis`; once more than a whole segment
    /// is done, the cursor moves to the next segment and starts it afresh.
    pub fn tick(&mut self, delta_millis: u64)
        ensures
            *final(self) == tick_spec(*old(self), delta_millis),
    {
        self.current_t = self.current_t.saturating_add(delta_millis);
        if self.current_t > SEGMENT_MILLIS {
            self.current_index = self.current_index.saturating_add(1);
            self.current_t = 0;
        }
    }

    /// Whether the cursor has passed the last waypoint.
    pub fn complete(&self) -> (r: bool)
        ensures
            r == (self.current_index >= self.waypoints@.len()),
    {
        self.current_index >= self.waypoints.len()
    }

    /// The segment being walked and the fraction of it done: the waypoint
    /// left, the waypoint ahead and the milliseconds spent. Past the last
    /// segment both waypoints are the last one.
    pub fn current_segment(&self) -> (r: (WorldCoordinates, WorldCoordinates, u64))
        requires
            self.waypoints@.len() > 0,
        ensures
            self.current_index + 1 >= self.waypoints@.len() ==> r == (
                self.waypoints@.last(),
                self.waypoints@.last(),
                0u64,
            ),
            self.current_index + 1 < self.waypoints@.len() ==> r == (
                self.waypoints@[self.current_index as int],
                self.waypoints@[self.current_index + 1],
                self.current_t,
            ),
    {
        let n = self.waypoints.len();
        if self.current_index >= n - 1 {
            let last = self.waypoints[n - 1];
            (last, last, 0)
        } else {
            (
                self.waypoints[self.current_index],
                self.waypoints[self.current_index + 1],
                self.current_t,
            )
        }
    }
}

} // verus!
