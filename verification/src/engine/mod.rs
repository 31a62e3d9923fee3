pub mod board;
pub mod fen;
pub mod game;
pub mod geometry;
pub mod laws;
pub mod moves;
pub mod rules;
pub mod soundness;
