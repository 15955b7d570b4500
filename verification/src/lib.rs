//! An artificial bee colony for the symmetric travelling salesman problem.
//!
//! A colony keeps a population of tours. In each iteration every member
//! makes a few neighbours of its tour by one kind of move, a tournament
//! picks one of them as the member's trial tour, and the member takes the
//! trial tour over where it is shorter. A member that has not improved for
//! too long starts again from a random tour. The best tour that any member
//! has held is kept, and the run ends once it improves by less than a given
//! share or after a given number of iterations.
//!
//! The library computes with whole numbers throughout. Cities are points on
//! a grid that the caller chooses, a distance is the Euclidean distance in
//! grid steps, rounded down, and the length of a tour is a `u64`. The
//! improvement threshold is a decimal number counted in billionths.
//!
//! Every function is verified against its contract. The calls into `rand`,
//! `rayon` and `num_cpus` stand behind a few small functions whose
//! contracts are taken on trust; each says so.

pub mod arguments;
pub mod colony;
pub mod config;
pub mod distance;
pub mod error;
pub mod neighbor;
pub mod parallel;
pub mod random;
pub mod selection;
pub mod text;
pub mod tour;
