//! The DHT side of the client: announce tokens and the decisions of the DHT
//! service actor.
use vstd::prelude::*;

pub mod token;
pub mod service;

verus! {

/// A torrent's info hash as the DHT addresses it.
pub type InfoHash = [u8; 20];

} // verus!
