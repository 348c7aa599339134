//! Verified core of a BitTorrent client: piece and block bookkeeping,
//! wire-protocol framing, transport packet codecs and the state machines
//! that drive a torrent session.

pub mod command;
pub mod torrent_manager;
pub mod persistence;
pub mod networking;
pub mod dht;
pub mod integrations;
pub mod config;
pub mod torrent_identity;
pub mod config_reconcile;
pub mod torrent_file;
pub mod storage;
pub mod theme;
