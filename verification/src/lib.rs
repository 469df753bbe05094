//! Search for the cheapest whole-object reorientations to insert into a fixed
//! sequence of face turns on a 3x3x3 twisty puzzle, so that the sequence still
//! ends solved (or one turn from solved) while using as few reorientations as
//! possible, and among those, the lowest physical cost.

pub mod moves;
pub mod orientation;
pub mod reorient;
pub mod state;
pub mod solution;
pub mod notation;
pub mod search;

pub use moves::Axis;
pub use moves::TurnMultiple;
pub use moves::Move;
pub use orientation::Orientation;
pub use reorient::Reorient;
pub use state::CubeState;
pub use solution::Solution;
pub use notation::parse_moves;
pub use notation::display_move;
pub use search::dfs;
pub use search::iddfs;
pub use search::filter_min_cost;
pub use notation::cheap_mask;
