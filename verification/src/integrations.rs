//! Glue between the client and its surroundings: the command line and
//! watched folders.
pub mod cli;
pub mod rss_url_safety;
pub mod watcher;
