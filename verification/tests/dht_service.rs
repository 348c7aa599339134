use superseedr_core::dht::service::lifecycle::{
    DhtLifecycleAction, DhtLifecycleEffect, DhtLifecycleModel,
};
use superseedr_core::dht::service::monitor::{
    action_effect_snapshot, trace_env_names_enabled, DHT_ACTOR_MONITOR_ENV,
    DHT_PLANNER_MONITOR_ENV, DHT_TRACE_ENV,
};
use superseedr_core::dht::service::planner::invariants::{
    check_demand_planner_invariants, drain_virtual_slot_count, ActiveDemandLookup,
    DemandPlannerAction, DemandPlannerModel, DemandSliceClass, DhtDemandState, DrainingDemand,
    LookupId, PlannerInvariant,
};
use superseedr_core::dht::service::state::{DhtServiceAction, DhtServiceEffect, DhtServiceModel};
use superseedr_core::dht::InfoHash;

fn hash_index(index: u32) -> InfoHash {
    let mut hash = [0u8; 20];
    hash[..4].copy_from_slice(&index.to_be_bytes());
    hash
}

fn active_lookup(lookup_id: LookupId, slice_class: DemandSliceClass) -> ActiveDemandLookup {
    ActiveDemandLookup {
        lookup_ids: vec![lookup_id],
        slice_class,
    }
}

fn insert_synthetic_drain(
    drains: &mut Vec<(InfoHash, DrainingDemand)>,
    info_hash: InfoHash,
    unique_peers: usize,
    lookup_id: LookupId,
    slice_class: DemandSliceClass,
    initial_inflight_queries: usize,
    now: u64,
) {
    drains.push((
        info_hash,
        DrainingDemand {
            lookup_ids: vec![lookup_id],
            slice_class,
            started_at: now,
            deadline: now + 5_000,
            no_late_yield_deadline: now + 2_000,
            initial_unique_peers: unique_peers,
            unique_peer_count: unique_peers,
            total_peers: unique_peers,
            initial_inflight_queries,
        },
    ));
}

fn registered(planner: &mut DemandPlannerModel, info_hash: InfoHash, now: u64) {
    planner.update(DemandPlannerAction::DemandRegistered {
        info_hash,
        demand: DhtDemandState {
            awaiting_metadata: false,
            connected_peers: 0,
        },
        now,
    });
}

#[test]
fn action_effect_snapshot_records_reduction_shape() {
    let snapshot =
        action_effect_snapshot("service", "reconfigure_requested", vec!["build_runtime"]);

    assert_eq!(snapshot.domain, "service");
    assert_eq!(snapshot.action, "reconfigure_requested");
    assert_eq!(snapshot.effect_count, 1);
    assert_eq!(snapshot.effects, vec!["build_runtime"]);
}

#[test]
fn trace_env_switches_support_global_actor_and_legacy_planner_flags() {
    assert!(trace_env_names_enabled(&[DHT_TRACE_ENV], |name| name == DHT_TRACE_ENV));
    assert!(trace_env_names_enabled(
        &[DHT_ACTOR_MONITOR_ENV, DHT_PLANNER_MONITOR_ENV],
        |name| name == DHT_ACTOR_MONITOR_ENV
    ));
    assert!(trace_env_names_enabled(
        &[DHT_ACTOR_MONITOR_ENV, DHT_PLANNER_MONITOR_ENV],
        |name| name == DHT_PLANNER_MONITOR_ENV
    ));
    assert!(!trace_env_names_enabled(
        &[DHT_ACTOR_MONITOR_ENV, DHT_PLANNER_MONITOR_ENV],
        |_| false
    ));
}

#[test]
fn demand_planner_invariants_accept_normal_active_and_draining_state() {
    let now = 1_000;
    let mut planner = DemandPlannerModel::new(now);
    let active_hash = hash_index(100);
    let drain_hash = hash_index(101);

    registered(&mut planner, active_hash, now);
    registered(&mut planner, drain_hash, now);
    assert!(planner.scheduler.mark_in_progress(&active_hash));
    assert!(planner.scheduler.mark_in_progress(&drain_hash));
    planner.active.push((
        active_hash,
        active_lookup(LookupId(100), DemandSliceClass::NoConnectedPeers),
    ));
    insert_synthetic_drain(
        &mut planner.draining_demands,
        drain_hash,
        101,
        LookupId(101),
        DemandSliceClass::NoConnectedPeers,
        2,
        now,
    );

    check_demand_planner_invariants(&planner).expect("valid planner invariants");
}

#[test]
fn demand_planner_invariants_reject_active_without_scheduler_entry() {
    let now = 1_000;
    let mut planner = DemandPlannerModel::new(now);
    let info_hash = hash_index(102);
    planner.active.push((
        info_hash,
        active_lookup(LookupId(102), DemandSliceClass::NoConnectedPeers),
    ));

    let violation =
        check_demand_planner_invariants(&planner).expect_err("expected invariant violation");

    assert_eq!(violation.kind.as_str(), "active_without_scheduler_entry");
    assert_eq!(violation.info_hash, Some(info_hash));
}

#[test]
fn demand_planner_invariants_reject_duplicate_lookup_id() {
    let now = 1_000;
    let mut planner = DemandPlannerModel::new(now);
    let left_hash = hash_index(103);
    let right_hash = hash_index(104);

    for info_hash in [left_hash, right_hash] {
        registered(&mut planner, info_hash, now);
        assert!(planner.scheduler.mark_in_progress(&info_hash));
        planner.active.push((
            info_hash,
            active_lookup(LookupId(103), DemandSliceClass::NoConnectedPeers),
        ));
    }

    let violation =
        check_demand_planner_invariants(&planner).expect_err("expected invariant violation");

    assert_eq!(violation.kind.as_str(), "duplicate_lookup_id");
}

#[test]
fn demand_planner_invariants_reject_scheduler_in_progress_without_lookup_state() {
    let now = 1_000;
    let mut planner = DemandPlannerModel::new(now);
    let info_hash = hash_index(105);
    registered(&mut planner, info_hash, now);
    assert!(planner.scheduler.mark_in_progress(&info_hash));

    let violation =
        check_demand_planner_invariants(&planner).expect_err("expected invariant violation");

    assert_eq!(violation.kind.as_str(), "scheduler_in_progress_without_lookup");
    assert_eq!(violation.info_hash, Some(info_hash));
}

#[test]
fn planner_rejects_drain_with_broken_deadlines_and_budget() {
    let now = 1_000;
    let mut planner = DemandPlannerModel::new(now);
    let h = hash_index(7);
    registered(&mut planner, h, now);
    assert!(planner.scheduler.mark_in_progress(&h));
    insert_synthetic_drain(
        &mut planner.draining_demands,
        h,
        0,
        LookupId(7),
        DemandSliceClass::RoutineRefresh,
        0,
        now,
    );
    let v = check_demand_planner_invariants(&planner).unwrap_err();
    assert_eq!(v.kind, PlannerInvariant::DrainWithoutInitialInflight);
    planner.draining_demands[0].1.initial_inflight_queries = 1;
    planner.draining_demands[0].1.deadline = now - 1;
    let v = check_demand_planner_invariants(&planner).unwrap_err();
    assert_eq!(v.kind, PlannerInvariant::DrainDeadlineBeforeStart);
    planner.draining_demands[0].1.deadline = now + 5_000;
    assert!(check_demand_planner_invariants(&planner).is_ok());

    planner.limits.demand_lookup_slot_count = 0;
    let v = check_demand_planner_invariants(&planner).unwrap_err();
    assert_eq!(v.kind, PlannerInvariant::LookupSlotBudgetExceeded);
    assert_eq!(v.info_hash, None);
}

#[test]
fn planner_counts_metadata_waiters_and_subscribers() {
    let now = 0;
    let mut planner = DemandPlannerModel::new(now);
    let h = hash_index(9);
    planner.update(DemandPlannerAction::DemandRegistered {
        info_hash: h,
        demand: DhtDemandState {
            awaiting_metadata: true,
            connected_peers: 0,
        },
        now,
    });
    assert_eq!(planner.metadata_waiter_count(), 1);
    registered(&mut planner, h, now);
    assert_eq!(planner.metadata_waiter_count(), 0);
    assert_eq!(planner.scheduler.entries.len(), 1);
    assert_eq!(planner.scheduler.entries[0].subscriber_count, 2);
    assert!(check_demand_planner_invariants(&planner).is_ok());
    assert!(planner.scheduler.mark_in_progress(&h));
    assert!(!planner.scheduler.mark_in_progress(&h));
    assert!(!planner.scheduler.mark_in_progress(&hash_index(10)));
    planner.metadata_waiters = 3;
    planner.scheduler.entries[0].in_progress = false;
    assert_eq!(
        check_demand_planner_invariants(&planner).unwrap_err().kind,
        PlannerInvariant::MetadataWaiterCountMismatch
    );
}

#[test]
fn drain_slots_round_up() {
    let planner = DemandPlannerModel::new(0);
    assert_eq!(drain_virtual_slot_count(&planner.limits, 0), 0);
    assert_eq!(drain_virtual_slot_count(&planner.limits, 3), 2);
    assert_eq!(drain_virtual_slot_count(&planner.limits, 4), 2);
}

#[test]
fn lifecycle_bootstrap_waits_for_due_time_and_idle_lookups() {
    let due = DhtLifecycleModel::update(DhtLifecycleAction::StartupBootstrapDue {
        now: 10,
        due: 10,
        active_user_lookup_count: 0,
    });
    assert_eq!(due.effects, vec![DhtLifecycleEffect::RunStartupBootstrap]);
    let busy = DhtLifecycleModel::update(DhtLifecycleAction::StartupBootstrapDue {
        now: 10,
        due: 5,
        active_user_lookup_count: 1,
    });
    assert!(busy.effects.is_empty());
    let early = DhtLifecycleModel::update(DhtLifecycleAction::StartupBootstrapDue {
        now: 4,
        due: 5,
        active_user_lookup_count: 0,
    });
    assert!(early.effects.is_empty());
    let failed = DhtLifecycleModel::update(DhtLifecycleAction::StartupBootstrapFailed {
        warning: "w".to_string(),
        retry_at: 99,
    });
    assert_eq!(
        failed.effects,
        vec![
            DhtLifecycleEffect::RecordRuntimeWarning {
                warning: "w".to_string(),
                publish_status: false
            },
            DhtLifecycleEffect::SetStartupBootstrapDue(99),
        ]
    );
    assert_eq!(
        DhtLifecycleModel::update(DhtLifecycleAction::MaintenanceTick {
            active_user_lookup_count: Some(0)
        })
        .effects,
        vec![DhtLifecycleEffect::RunMaintenance]
    );
    assert!(DhtLifecycleModel::update(DhtLifecycleAction::MaintenanceTick {
        active_user_lookup_count: None
    })
    .effects
    .is_empty());
    assert_eq!(
        DhtLifecycleModel::update(DhtLifecycleAction::HealthTick).effects,
        vec![
            DhtLifecycleEffect::PublishStatus,
            DhtLifecycleEffect::ExpireRecentUniquePeers,
            DhtLifecycleEffect::SaveRuntimeState,
        ]
    );
    assert_eq!(
        DhtLifecycleModel::update(DhtLifecycleAction::Shutdown).effects,
        vec![DhtLifecycleEffect::SaveRuntimeState]
    );
}

#[test]
fn service_model_tracks_generation_and_warnings() {
    let mut model = DhtServiceModel::new(1u32, u64::MAX - 1, None);
    let r = model.update(DhtServiceAction::ReconfigureSucceeded {
        config: 2,
        warning: Some("slow".to_string()),
    });
    assert_eq!(
        r.effects,
        vec![
            DhtServiceEffect::ResetDemandPlanner,
            DhtServiceEffect::PublishStatus,
            DhtServiceEffect::StartDueDemands,
        ]
    );
    assert_eq!(*model.config(), 2);
    assert_eq!(model.generation(), u64::MAX);
    model.update(DhtServiceAction::ReconfigureSucceeded {
        config: 3,
        warning: None,
    });
    assert_eq!(model.generation(), u64::MAX);
    assert_eq!(model.warning_owned(), None);
    let r = model.update(DhtServiceAction::RuntimeWarning {
        warning: "lost".to_string(),
    });
    assert_eq!(r.effects, vec![DhtServiceEffect::PublishStatus]);
    assert_eq!(model.warning_owned(), Some("lost".to_string()));
    model.update(DhtServiceAction::ReconfigureFailed {
        warning: "bad".to_string(),
    });
    assert_eq!(*model.config(), 3);
    assert_eq!(model.warning_owned(), Some("bad".to_string()));
}
