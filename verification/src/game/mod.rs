pub mod controller;
pub mod evaluator;
