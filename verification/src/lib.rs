//! A solver for the 3x3x3 twisty cube: a cubie-level cube state with a
//! constant-time turn engine, standard move notation, and a two-phase
//! iterative-deepening A* search driven by pattern databases.
pub mod cli;
pub mod cube;
pub mod solver;
