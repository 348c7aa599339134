use superseedr_core::dht::service::commands::{
    AddressFamily, DhtRuntimeCommandAction, DhtRuntimeCommandEffect, DhtRuntimeCommandModel,
    DhtRuntimeLookupFamilyRequest,
};
use superseedr_core::dht::service::planner::invariants::{DemandSliceClass, LookupId};

#[test]
fn start_and_cancel_commands_pass_through() {
    let r = DhtRuntimeCommandModel::update::<u8>(DhtRuntimeCommandAction::StartGetPeers {
        info_hash: [3; 20],
        response_handle: 9,
    });
    assert_eq!(
        r.effects,
        vec![DhtRuntimeCommandEffect::StartGetPeers { info_hash: [3; 20], response_handle: 9 }]
    );
    let r = DhtRuntimeCommandModel::update::<u8>(DhtRuntimeCommandAction::CancelLookups {
        lookup_ids: vec![LookupId(4), LookupId(5)],
    });
    assert_eq!(
        r.effects,
        vec![DhtRuntimeCommandEffect::CancelLookups { lookup_ids: vec![LookupId(4), LookupId(5)] }]
    );
    let request = DhtRuntimeLookupFamilyRequest {
        info_hash: [1; 20],
        family: AddressFamily::Ipv6,
        slice_class: DemandSliceClass::RoutineRefresh,
        record_metrics: true,
        handle: 2,
    };
    let r = DhtRuntimeCommandModel::update::<u8>(DhtRuntimeCommandAction::StartGetPeersFamily(request.clone()));
    assert_eq!(r.effects, vec![DhtRuntimeCommandEffect::AttachLookupFamily(request)]);
}

#[test]
fn freeing_slots_starts_due_demands() {
    let r = DhtRuntimeCommandModel::update(DhtRuntimeCommandAction::ParkDemandLookups {
        info_hash: [2; 20],
        slice_class: DemandSliceClass::NoConnectedPeers,
        stop_reason: "slice expired",
        total_peers: 7,
        unique_peers: vec![("10.0.0.2".to_string(), 51413)],
        lookup_ids_handle: 11,
    });
    assert_eq!(r.effects.len(), 2);
    assert!(matches!(
        &r.effects[0],
        DhtRuntimeCommandEffect::ParkDemandLookups { total_peers: 7, stop_reason: "slice expired", lookup_ids_handle: 11, .. }
    ));
    assert_eq!(r.effects[1], DhtRuntimeCommandEffect::StartDueDemands);
    let r = DhtRuntimeCommandModel::update::<u8>(DhtRuntimeCommandAction::FinalizeDrainedDemandLookups {
        info_hash: [2; 20],
    });
    assert_eq!(
        r.effects,
        vec![
            DhtRuntimeCommandEffect::FinalizeDrainedDemandLookups { info_hash: [2; 20] },
            DhtRuntimeCommandEffect::StartDueDemands,
        ]
    );
    let r = DhtRuntimeCommandModel::update::<u8>(DhtRuntimeCommandAction::AnnouncePeer {
        info_hash: [2; 20],
        port: Some(6881),
        response_handle: 1,
    });
    assert_eq!(
        r.effects,
        vec![DhtRuntimeCommandEffect::AnnouncePeer { info_hash: [2; 20], port: Some(6881), response_handle: 1 }]
    );
}
