//! Program synthesis for grid-transformation puzzles: a DSL of grid
//! primitives, a feature-driven primitive selector, a description-length
//! scorer, and a cascade of search strategies that find a program
//! reproducing every example pair of a task.

pub mod grid;
pub mod model;
pub mod prims_basic;
pub mod prims_scan;
pub mod reach;
pub mod labels;
pub mod objects;
pub mod analysis;
pub mod dsl;
pub mod compression;
pub mod fxmap;
pub mod fingerprint;
pub mod smart;
pub mod heuristics;
pub mod enumerate;
pub mod evolve;
pub mod bidir;
pub mod dag;
pub mod cellular;
pub mod task;
pub mod arc;
pub mod laws;
pub mod types;
pub mod binary;
pub mod partition;
