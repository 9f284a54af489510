use vstd::prelude::*;

pub mod bits;
pub mod topology;
pub mod game;
pub mod engine;
pub mod evaluator;
pub mod laws;
pub mod status;
