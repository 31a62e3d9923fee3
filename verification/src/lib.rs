//! A terminal chess game: the rules engine, the session logic around it and
//! the small computations that the interface needs, with their contracts.

pub mod ai;
pub mod app;
pub mod config;
pub mod engine;
pub mod states;
pub mod ui;
pub mod utils;
