pub mod analyzer;
pub mod board_interactions;
pub mod session;
pub mod navigation;
pub mod assistant;
