//! Bookkeeping core of a two-dimensional particle simulation.
//!
//! The numeric kernels of a simulation (force formulas, integration) work on
//! real-valued state that lives with the embedding application. This crate
//! holds everything around them that is discrete: which presets exist, how
//! species pairs map to force laws, which law is evaluated for which pair, how
//! particles are bucketed in space and found again, and how the particle store
//! grows and shrinks.
pub mod config;
pub mod forces;
pub mod grid;
pub mod particle;
pub mod presets;
pub mod quadtree;
pub mod sequences;
pub mod spatial;
pub mod text;
pub mod tree_laws;
