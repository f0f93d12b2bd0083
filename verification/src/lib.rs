//! A sparse simulation of Conway's Game of Life.
//!
//! The world tracks only "interesting" cells: live cells and their dead
//! frontier (dead cells with at least one live neighbor). Each stored cell
//! carries a cached count of its live Moore neighbors, kept correct
//! incrementally at every mutation instead of being recomputed per tick.

pub mod arith;
pub mod camera;
pub mod cellmap;
pub mod laws;
pub mod life;
pub mod model;
pub mod rng;
pub mod state;

pub use camera::Camera;
pub use life::LifeCell;
pub use life::LifePattern;
pub use life::LifeWorld;
pub use state::Command;
pub use state::InvalidCommand;
pub use state::State;
pub use model::is_nbr;
pub use model::next_live;
pub use model::pair_count;
pub use model::spec_get;
pub use model::step_cell;
