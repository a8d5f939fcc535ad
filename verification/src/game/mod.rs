//! The maze games: mazes on the BCC lattice, shortest walks through them,
//! and the rules of the A* race and bloodhound survival modes.

pub mod bloodhound;
pub mod maze;
pub mod pathfind;
pub mod play;
pub mod rng;
pub mod stats;
