pub mod server;
pub mod quote;
pub mod commands;
