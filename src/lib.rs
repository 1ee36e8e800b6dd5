//! The simulation core of a voxel colony game: a lazily generated chunked
//! world, an incremental A* pathfinder over it, and the work-order and task
//! dispatch that drives workers through multi-step jobs.
pub mod coordinates;
pub mod coord_map;
pub mod block;
pub mod chunk;
pub mod world_map;
pub mod frontier;
pub mod path;
pub mod pathfinder;
pub mod listener;
pub mod work;
pub mod dispatch;
pub mod states;
