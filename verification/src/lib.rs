//! Ranking, filtering and interaction logic of the `fj` directory jumper.
//!
//! The engine scores candidate directories (from the frecency database and
//! from a disk walk), keeps the best few in a sorted list, and the
//! interactive front end moves a selection over that list.

pub mod engine;
pub mod text;
pub mod app;
pub mod cli;
