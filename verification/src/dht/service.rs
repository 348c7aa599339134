pub mod lifecycle;
pub mod state;
pub mod monitor;
pub mod planner;
pub mod subscribers;
pub mod commands;
