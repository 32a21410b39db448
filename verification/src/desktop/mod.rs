pub mod engine_link;
pub mod screens;
pub mod click;
pub mod edits;
