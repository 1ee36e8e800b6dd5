//! Fan-out searches: several sibling searches towards alternative targets,
//! of which the first to complete wins.
use vstd::prelude::*;

use crate::coordinates::{same_layer_neighbors_spec, WorldCoordinates};
use crate::path::Path;
use crate::pathfinder::{step_outcome, PathfindingErrors, PathfindingState, Pathfinder};
use crate::world_map::WorldMap;

verus! {

/// What a listener reports after a round of steps.
#[derive(Debug)]
pub enum PathEvent {
    /// Searches are still running.
    Pending,
    /// A search completed; its path is handed over and every search is
    /// dropped.
    Completed(Path),
    /// Every search failed; none is left.
    CalculationFailed,
}

/// Sibling searches from one start, grouped so that the first success is
/// kept.
pub struct PathfinderListener {
    pub searches: Vec<Pathfinder>,
}

pub open spec fn all_wf(s: Seq<Pathfinder>) -> bool {
    forall|i: int| 0 <= i < s.len() ==> (#[trigger] s[i]).wf()
}

pub open spec fn all_walkable(s: Seq<Pathfinder>, world: &WorldMap) -> bool {
    forall|i: int| 0 <= i < s.len() ==> (#[trigger] s[i]).walkable_in(world)
}

/// The searches of a round that go on: each search after its step, but
/// those whose step found the target unreachable.
pub open spec fn survivors(after: Seq<Pathfinder>, results: Seq<PathfindingState>) -> Seq<
    Pathfinder,
>
    decreases after.len(),
{
    if after.len() == 0 {
        Seq::empty()
    } else {
        let s = survivors(after.drop_last(), results.drop_last());
        if results.last() == PathfindingState::Failed(PathfindingErrors::Unreachable) {
            s
        } else {
            s.push(after.last())
        }
    }
}

/// The first `after.len()` searches of `olds` each took one step, to
/// `after[i]` with result `results[i]`, and none but perhaps the last
/// completed.
pub open spec fn round_trace(
    olds: Seq<Pathfinder>,
    after: Seq<Pathfinder>,
    results: Seq<PathfindingState>,
    world: &WorldMap,
) -> bool {
    &&& after.len() == results.len()
    &&& after.len() <= olds.len()
    &&& forall|i: int|
        0 <= i < after.len() ==> step_outcome(olds[i], #[trigger] after[i], world, results[i])
    &&& forall|i: int| 0 <= i < after.len() - 1 ==> !(#[trigger] results[i] is Complete)
}

/// One round of a listener: its searches step in order until one
/// completes, which hands over its path and drops every search; searches
/// that find their target unreachable are dropped; when every search has
/// stepped and none is left, the round fails.
pub open spec fn round_outcome(
    old: PathfinderListener,
    new: PathfinderListener,
    world: &WorldMap,
    r: PathEvent,
) -> bool {
    exists|after: Seq<Pathfinder>, results: Seq<PathfindingState>|
        #[trigger] round_trace(old.searches@, after, results, world) && match r {
            PathEvent::Completed(p) => {
                &&& after.len() >= 1
                &&& results.last() == PathfindingState::Complete(p)
                &&& new.searches@.len() == 0
            },
            PathEvent::Pending => {
                &&& after.len() == old.searches@.len()
                &&& after.len() > 0 ==> !(results.last() is Complete)
                &&& new.searches@ == survivors(after, results)
                &&& new.searches@.len() > 0
            },
            PathEvent::CalculationFailed => {
                &&& after.len() == old.searches@.len()
                &&& after.len() > 0 ==> !(results.last() is Complete)
                &&& survivors(after, results).len() == 0
                &&& new.searches@.len() == 0
            },
        }
}

impl Pathfinder {
    /// A listener with one search, for a worker that must land exactly on
    /// `target`.
    pub fn exact(start: WorldCoordinates, target: WorldCoordinates) -> (r: PathfinderListener)
        ensures
            r.wf(),
            r.searches@.len() == 1,
            r.searches@[0].is_new_search(start, target),
            forall|w: &WorldMap| all_walkable(r.searches@, w),
    {
        let mut searches = Vec::new();
        searches.push(Pathfinder::new(start, target));
        PathfinderListener { searches }
    }

    /// A listener with one search towards each of the eight blocks around
    /// `target` on its layer, for a worker that must come next to it.
    pub fn nearest(start: WorldCoordinates, target: WorldCoordinates) -> (r: PathfinderListener)
        requires
            target.inner_xy(),
        ensures
            r.wf(),
            r.searches@.len() == 8,
            forall|i: int|
                0 <= i < 8 ==> (#[trigger] r.searches@[i]).is_new_search(
                    start,
                    same_layer_neighbors_spec(target)[i].0,
                ),
            forall|w: &WorldMap| all_walkable(r.searches@, w),
    {
        let neighbors = target.same_layer_neighbors();
        let mut searches: Vec<Pathfinder> = Vec::new();
        let mut i: usize = 0;
        while i < neighbors.len()
            invariant
                neighbors@ == same_layer_neighbors_spec(target),
                0 <= i <= neighbors@.len(),
                searches@.len() == i,
                all_wf(searches@),
                forall|w: &WorldMap| all_walkable(searches@, w),
                forall|j: int|
                    0 <= j < i ==> (#[trigger] searches@[j]).is_new_search(start, neighbors@[j].0),
            decreases neighbors.len() - i,
        {
            let f = Pathfinder::new(start, neighbors[i].0);
            let ghost prev = searches@;
            searches.push(f);
            i = i + 1;
            assert forall|w: &WorldMap| all_walkable(searches@, w) by {
                assert(all_walkable(prev, w));
                assert forall|j: int| 0 <= j < searches@.len() implies (
                #[trigger] searches@[j]).walkable_in(w) by {
                    if j < searches@.len() - 1 {
                        assert(searches@[j] == prev[j]);
                    }
                }
            }
        }
        PathfinderListener { searches }
    }
}

impl PathfinderListener {
    pub open spec fn wf(&self) -> bool {
        all_wf(self.searches@)
    }


    /// Runs one step of each search in order. The first search to complete
    /// hands over its path and every search is dropped; a search that finds
    /// its target unreachable is dropped; when none is left the listener
    /// reports failure.
    pub fn step(&mut self, world: &WorldMap) -> (r: PathEvent)
        requires
            old(self).wf(),
            world.wf(),
        ensures
            final(self).wf(),
            all_walkable(old(self).searches@, world) ==> all_walkable(final(self).searches@, world),
            round_outcome(*old(self), *final(self), world, r),
    {
        let mut pending: Vec<Pathfinder> = Vec::new();
        std::mem::swap(&mut pending, &mut self.searches);
        let ghost orig = pending@;
        let mut kept: Vec<Pathfinder> = Vec::new();
        let ghost mut after: Seq<Pathfinder> = Seq::empty();
        let ghost mut results: Seq<PathfindingState> = Seq::empty();
        while pending.len() > 0
            invariant
                world.wf(),
                orig == old(self).searches@,
                all_wf(orig),
                0 <= after.len() <= orig.len(),
                pending@ == orig.subrange(after.len() as int, orig.len() as int),
                pending@.len() == orig.len() - after.len(),
                all_wf(kept@),
                self.searches@.len() == 0,
                all_walkable(orig, world) ==> all_walkable(kept@, world),
                round_trace(orig, after, results, world),
                after.len() > 0 ==> !(results.last() is Complete),
                kept@ == survivors(after, results),
            decreases pending.len(),
        {
            let mut search = pending.remove(0);
            let ghost before = search;
            let ghost i = after.len() as int;
            assert(before == orig[i]);
            let state = search.calculate_step(world);
            let ghost st = state;
            proof {
                let a0 = after;
                let r0 = results;
                after = after.push(search);
                results = results.push(st);
                assert(after.drop_last() =~= a0);
                assert(results.drop_last() =~= r0);
                assert forall|k: int| 0 <= k < after.len() implies step_outcome(
                    orig[k],
                    #[trigger] after[k],
                    world,
                    results[k],
                ) by {
                    if k < i {
                        assert(after[k] == a0[k]);
                        assert(results[k] == r0[k]);
                    }
                }
                assert forall|k: int| 0 <= k < after.len() - 1 implies !(
                #[trigger] results[k] is Complete) by {
                    assert(results[k] == r0[k]);
                    if k == r0.len() - 1 {
                        assert(r0.last() == r0[k]);
                    }
                }
            }
            match state {
                PathfindingState::Complete(path) => {
                    proof {
                        assert(round_trace(orig, after, results, world));
                        assert(results.last() == PathfindingState::Complete(path));
                    }
                    return PathEvent::Completed(path);
                },
                PathfindingState::Failed(PathfindingErrors::Unreachable) => {
                    proof {
                        assert(survivors(after, results) == kept@);
                    }
                },
                _ => {
                    let ghost kept_before = kept@;
                    kept.push(search);
                    proof {
                        assert(survivors(after, results) == kept@);
                        if all_walkable(orig, world) {
                            assert(before.walkable_in(world));
                            assert forall|k: int| 0 <= k < kept@.len() implies (
                            #[trigger] kept@[k]).walkable_in(world) by {
                                if k < kept_before.len() {
                                    assert(kept@[k] == kept_before[k]);
                                }
                            }
                        }
                    }
                },
            }
        }
        proof {
            assert(after.len() == orig.len());
            assert(round_trace(orig, after, results, world));
        }
        let failed = kept.len() == 0;
        self.searches = kept;
        if failed {
            PathEvent::CalculationFailed
        } else {
            PathEvent::Pending
        }
    }
}

} // verus!
