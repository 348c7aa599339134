//! Commands for the DHT runtime: which work each command turns into. Parking
//! or finalizing demand lookups frees lookup slots, so those also ask for the
//! due demands to be started.
//!
//! Reply channels and shared lookup lists are the caller's; the commands
//! carry the caller's handles for them.
use vstd::prelude::*;
use crate::dht::InfoHash;
use crate::dht::service::planner::invariants::{DemandSliceClass, LookupId};

verus! {

/// The IP version a lookup runs over.
#[derive(Debug, Clone, Copy, PartialEq, Eq, Structural)]
pub enum AddressFamily {
    Ipv4,
    Ipv6,
}

/// A lookup for one address family, to be attached to a running lookup.
#[derive(Debug, Clone, PartialEq, Eq)]
pub struct DhtRuntimeLookupFamilyRequest {
    pub info_hash: InfoHash,
    pub family: AddressFamily,
    pub slice_class: DemandSliceClass,
    pub record_metrics: bool,
    /// The caller's handle on the lookup's peer channel, id list and flags.
    pub handle: u64,
}

/// A command to the DHT runtime. `S` says why a demand slice stopped.
#[derive(Debug, Clone, PartialEq, Eq)]
pub enum DhtRuntimeCommandAction<S> {
    StartGetPeers { info_hash: InfoHash, response_handle: u64 },
    StartGetPeersFamily(DhtRuntimeLookupFamilyRequest),
    CancelLookups { lookup_ids: Vec<LookupId> },
    ParkDemandLookups {
        info_hash: InfoHash,
        slice_class: DemandSliceClass,
        stop_reason: S,
        total_peers: usize,
        /// The distinct peers found, as (address, port).
        unique_peers: Vec<(String, u16)>,
        lookup_ids_handle: u64,
    },
    FinalizeDrainedDemandLookups { info_hash: InfoHash },
    AnnouncePeer { info_hash: InfoHash, port: Option<u16>, response_handle: u64 },
}

/// Work for the runtime.
#[derive(Debug, Clone, PartialEq, Eq)]
pub enum DhtRuntimeCommandEffect<S> {
    StartGetPeers { info_hash: InfoHash, response_handle: u64 },
    AttachLookupFamily(DhtRuntimeLookupFamilyRequest),
    CancelLookups { lookup_ids: Vec<LookupId> },
    ParkDemandLookups {
        info_hash: InfoHash,
        slice_class: DemandSliceClass,
        stop_reason: S,
        total_peers: usize,
        unique_peers: Vec<(String, u16)>,
        lookup_ids_handle: u64,
    },
    FinalizeDrainedDemandLookups { info_hash: InfoHash },
    AnnouncePeer { info_hash: InfoHash, port: Option<u16>, response_handle: u64 },
    StartDueDemands,
}

/// The work a command turns into.
#[derive(Debug)]
pub struct DhtRuntimeCommandReduction<S> {
    pub effects: Vec<DhtRuntimeCommandEffect<S>>,
}

/// The work each command turns into: the command itself, followed by
/// starting the due demands when it frees lookup slots.
pub open spec fn command_effects<S>(action: DhtRuntimeCommandAction<S>) -> Seq<DhtRuntimeCommandEffect<S>> {
    match action {
        DhtRuntimeCommandAction::StartGetPeers { info_hash, response_handle } => seq![
            DhtRuntimeCommandEffect::StartGetPeers { info_hash, response_handle },
        ],
        DhtRuntimeCommandAction::StartGetPeersFamily(request) => seq![DhtRuntimeCommandEffect::AttachLookupFamily(request)],
        DhtRuntimeCommandAction::CancelLookups { lookup_ids } => seq![DhtRuntimeCommandEffect::CancelLookups { lookup_ids }],
        DhtRuntimeCommandAction::ParkDemandLookups {
            info_hash,
            slice_class,
            stop_reason,
            total_peers,
            unique_peers,
            lookup_ids_handle,
        } => seq![
            DhtRuntimeCommandEffect::ParkDemandLookups {
                info_hash,
                slice_class,
                stop_reason,
                total_peers,
                unique_peers,
                lookup_ids_handle,
            },
            DhtRuntimeCommandEffect::StartDueDemands,
        ],
        DhtRuntimeCommandAction::FinalizeDrainedDemandLookups { info_hash } => seq![
            DhtRuntimeCommandEffect::FinalizeDrainedDemandLookups { info_hash },
            DhtRuntimeCommandEffect::StartDueDemands,
        ],
        DhtRuntimeCommandAction::AnnouncePeer { info_hash, port, response_handle } => seq![
            DhtRuntimeCommandEffect::AnnouncePeer { info_hash, port, response_handle },
        ],
    }
}

/// The command reducer.
pub struct DhtRuntimeCommandModel;

impl DhtRuntimeCommandModel {
    /// The work `action` turns into (see `command_effects`).
    pub fn update<S>(action: DhtRuntimeCommandAction<S>) -> (r: DhtRuntimeCommandReduction<S>)
        ensures
            r.effects@ == command_effects(action),
    {
        let ghost a = action;
        let mut effects: Vec<DhtRuntimeCommandEffect<S>> = Vec::new();
        match action {
            DhtRuntimeCommandAction::StartGetPeers { info_hash, response_handle } => {
                effects.push(DhtRuntimeCommandEffect::StartGetPeers { info_hash, response_handle });
            },
            DhtRuntimeCommandAction::StartGetPeersFamily(request) => {
                effects.push(DhtRuntimeCommandEffect::AttachLookupFamily(request));
            },
            DhtRuntimeCommandAction::CancelLookups { lookup_ids } => {
                effects.push(DhtRuntimeCommandEffect::CancelLookups { lookup_ids });
            },
            DhtRuntimeCommandAction::ParkDemandLookups {
                info_hash,
                slice_class,
                stop_reason,
                total_peers,
                unique_peers,
                lookup_ids_handle,
            } => {
                effects.push(
                    DhtRuntimeCommandEffect::ParkDemandLookups {
                        info_hash,
                        slice_class,
                        stop_reason,
                        total_peers,
                        unique_peers,
                        lookup_ids_handle,
                    },
                );
                effects.push(DhtRuntimeCommandEffect::StartDueDemands);
            },
            DhtRuntimeCommandAction::FinalizeDrainedDemandLookups { info_hash } => {
                effects.push(DhtRuntimeCommandEffect::FinalizeDrainedDemandLookups { info_hash });
                effects.push(DhtRuntimeCommandEffect::StartDueDemands);
            },
            DhtRuntimeCommandAction::AnnouncePeer { info_hash, port, response_handle } => {
                effects.push(DhtRuntimeCommandEffect::AnnouncePeer { info_hash, port, response_handle });
            },
        }
        assert(effects@ =~= command_effects(a));
        DhtRuntimeCommandReduction { effects }
    }
}

} // verus!
