pub mod analyzer;
pub mod database;
pub mod desktop;
pub mod engine;
pub mod etc;
pub mod game;
pub mod server;
pub mod text;
