//! The verified core of a two-dimensional Verlet particle solver.
//!
//! The solver keeps particles in one buffer, finds those that may touch with a uniform
//! grid, pushes overlapping ones apart, pulls linked ones together, moves every
//! particle one step and keeps it in its region. This crate holds the state and
//! decides everything that is a matter of indices and order:
//!
//! - [`grid`], [`index`]: the grid of bounded cells and what it holds once rebuilt;
//! - [`pairs`]: the candidate pairs that the grid yields, in the order of the sweep;
//! - [`stripes`], [`task`], [`schedule`]: the cut of the grid into slabs for workers
//!   that run side by side, and the proof that they may;
//! - [`link`]: the table of links and its pruning;
//! - [`particle`], [`order`]: the particle, its history, and its confinement;
//! - [`solver`]: the simulation and the plan of one tick.
//!
//! Numbers are single-precision. The crate compares them, by their bit patterns, but
//! never computes with them: sums, products and roots are the caller's to work out.

pub mod grid;
pub mod index;
pub mod link;
pub mod order;
pub mod pairs;
pub mod particle;
pub mod schedule;
mod sequences;
pub mod solver;
pub mod stripes;
pub mod task;
