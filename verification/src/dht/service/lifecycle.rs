//! When the DHT runtime bootstraps, runs maintenance and saves its state.
//! Instants are monotonic milliseconds.
use vstd::prelude::*;

verus! {

/// Something that happened to the DHT runtime.
#[derive(Debug, Clone, PartialEq, Eq)]
pub enum DhtLifecycleAction {
    StartupBootstrapDue { now: u64, due: u64, active_user_lookup_count: usize },
    StartupBootstrapSucceeded,
    StartupBootstrapFailed { warning: String, retry_at: u64 },
    MaintenanceTick { active_user_lookup_count: Option<usize> },
    MaintenanceFailed { warning: String },
    HealthTick,
    RuntimeStepFailed { warning: String },
    Shutdown,
}

/// What the service does in answer.
#[derive(Debug, Clone, PartialEq, Eq)]
pub enum DhtLifecycleEffect {
    RunStartupBootstrap,
    ClearStartupBootstrapDue,
    SetStartupBootstrapDue(u64),
    RunMaintenance,
    RecordRuntimeWarning { warning: String, publish_status: bool },
    PublishStatus,
    ExpireRecentUniquePeers,
    SaveRuntimeState,
}

/// The effects of one lifecycle action, in order.
#[derive(Debug, Default, PartialEq, Eq)]
pub struct DhtLifecycleReduction {
    pub effects: Vec<DhtLifecycleEffect>,
}

/// The effects an action calls for: bootstrap only once it is due and no user
/// lookup runs, maintenance only when no user lookup runs, warnings recorded
/// (published unless they come from a failed bootstrap), status, peer expiry
/// and a save on every health tick, a save on shutdown.
pub open spec fn lifecycle_effects(action: DhtLifecycleAction) -> Seq<DhtLifecycleEffect> {
    match action {
        DhtLifecycleAction::StartupBootstrapDue { now, due, active_user_lookup_count } => {
            if now >= due && active_user_lookup_count == 0 {
                seq![DhtLifecycleEffect::RunStartupBootstrap]
            } else {
                seq![]
            }
        },
        DhtLifecycleAction::StartupBootstrapSucceeded => seq![
            DhtLifecycleEffect::ClearStartupBootstrapDue,
        ],
        DhtLifecycleAction::StartupBootstrapFailed { warning, retry_at } => seq![
            DhtLifecycleEffect::RecordRuntimeWarning { warning, publish_status: false },
            DhtLifecycleEffect::SetStartupBootstrapDue(retry_at),
        ],
        DhtLifecycleAction::MaintenanceTick { active_user_lookup_count } => {
            if active_user_lookup_count == Some(0usize) {
                seq![DhtLifecycleEffect::RunMaintenance]
            } else {
                seq![]
            }
        },
        DhtLifecycleAction::MaintenanceFailed { warning } => seq![
            DhtLifecycleEffect::RecordRuntimeWarning { warning, publish_status: true },
        ],
        DhtLifecycleAction::RuntimeStepFailed { warning } => seq![
            DhtLifecycleEffect::RecordRuntimeWarning { warning, publish_status: true },
        ],
        DhtLifecycleAction::HealthTick => seq![
            DhtLifecycleEffect::PublishStatus,
            DhtLifecycleEffect::ExpireRecentUniquePeers,
            DhtLifecycleEffect::SaveRuntimeState,
        ],
        DhtLifecycleAction::Shutdown => seq![DhtLifecycleEffect::SaveRuntimeState],
    }
}

/// The lifecycle reducer: it holds no state of its own.
pub struct DhtLifecycleModel;

impl DhtLifecycleModel {
    pub fn update(action: DhtLifecycleAction) -> (r: DhtLifecycleReduction)
        ensures
            r.effects@ == lifecycle_effects(action),
    {
        let effects = match action {
            DhtLifecycleAction::StartupBootstrapDue { now, due, active_user_lookup_count } => {
                if now >= due && active_user_lookup_count == 0 {
                    vec![DhtLifecycleEffect::RunStartupBootstrap]
                } else {
                    Vec::new()
                }
            },
            DhtLifecycleAction::StartupBootstrapSucceeded => {
                vec![DhtLifecycleEffect::ClearStartupBootstrapDue]
            },
            DhtLifecycleAction::StartupBootstrapFailed { warning, retry_at } => {
                vec![
                    DhtLifecycleEffect::RecordRuntimeWarning { warning, publish_status: false },
                    DhtLifecycleEffect::SetStartupBootstrapDue(retry_at),
                ]
            },
            DhtLifecycleAction::MaintenanceTick { active_user_lookup_count } => {
                match active_user_lookup_count {
                    Some(0) => vec![DhtLifecycleEffect::RunMaintenance],
                    _ => Vec::new(),
                }
            },
            DhtLifecycleAction::MaintenanceFailed { warning } => {
                vec![DhtLifecycleEffect::RecordRuntimeWarning { warning, publish_status: true }]
            },
            DhtLifecycleAction::RuntimeStepFailed { warning } => {
                vec![DhtLifecycleEffect::RecordRuntimeWarning { warning, publish_status: true }]
            },
            DhtLifecycleAction::HealthTick => vec![
                DhtLifecycleEffect::PublishStatus,
                DhtLifecycleEffect::ExpireRecentUniquePeers,
                DhtLifecycleEffect::SaveRuntimeState,
            ],
            DhtLifecycleAction::Shutdown => vec![DhtLifecycleEffect::SaveRuntimeState],
        };
        DhtLifecycleReduction { effects }
    }
}

} // verus!
