//! The DHT demand planner: which torrents want peers from the DHT, which
//! lookups run for them, which are draining, and the invariants that tie the
//! scheduler to the lookups.
//!
//! Instants are monotonic milliseconds.
use vstd::prelude::*;
use crate::dht::InfoHash;

verus! {

broadcast use vstd::array::group_array_axioms;

/// Identifies one running DHT lookup.
#[derive(Debug, Clone, Copy, PartialEq, Eq, Hash, Structural)]
pub struct LookupId(pub u64);

/// Why a demand holds a lookup slot.
#[derive(Debug, Clone, Copy, PartialEq, Eq, Structural)]
pub enum DemandSliceClass {
    AwaitingMetadata,
    NoConnectedPeers,
    RoutineRefresh,
}

/// What a torrent needs from the DHT.
#[derive(Debug, Clone, Copy, PartialEq, Eq, Structural)]
pub struct DhtDemandState {
    pub awaiting_metadata: bool,
    pub connected_peers: usize,
}

/// Lookups running for a demand that holds a slot.
#[derive(Debug, Clone)]
pub struct ActiveDemandLookup {
    pub lookup_ids: Vec<LookupId>,
    pub slice_class: DemandSliceClass,
}

/// Lookups of a demand whose slice ended, left to finish until a deadline.
#[derive(Debug, Clone)]
pub struct DrainingDemand {
    pub lookup_ids: Vec<LookupId>,
    pub slice_class: DemandSliceClass,
    pub started_at: u64,
    pub deadline: u64,
    pub no_late_yield_deadline: u64,
    pub initial_unique_peers: usize,
    pub unique_peer_count: usize,
    pub total_peers: usize,
    pub initial_inflight_queries: usize,
}

/// The scheduler's record of one demand.
#[derive(Debug, Clone, Copy)]
pub struct SchedulerEntrySnapshot {
    pub info_hash: InfoHash,
    pub demand: DhtDemandState,
    pub subscriber_count: usize,
    pub in_progress: bool,
}

/// The demands known to the scheduler, in registration order.
#[derive(Debug, Clone)]
pub struct DemandScheduler {
    pub entries: Vec<SchedulerEntrySnapshot>,
}

/// The slot budget of the planner.
#[derive(Debug, Clone, Copy, PartialEq, Eq, Structural)]
pub struct DemandPlannerLimits {
    pub demand_lookup_slot_count: usize,
    pub awaiting_metadata_slot_cap: usize,
    pub no_connected_peers_slot_cap: usize,
    pub routine_lookup_slot_cap: usize,
    /// Draining demands that share one virtual slot.
    pub drains_per_virtual_slot: usize,
}

/// The planner: scheduler, active lookups and draining ones.
#[derive(Debug, Clone)]
pub struct DemandPlannerModel {
    pub scheduler: DemandScheduler,
    pub active: Vec<(InfoHash, ActiveDemandLookup)>,
    pub draining_demands: Vec<(InfoHash, DrainingDemand)>,
    pub metadata_waiters: usize,
    pub limits: DemandPlannerLimits,
    pub created_at: u64,
}

/// Something that happened to the planner.
#[derive(Debug, Clone)]
pub enum DemandPlannerAction {
    DemandRegistered { info_hash: InfoHash, demand: DhtDemandState, now: u64 },
}

/// The planner invariants, each named as the checker reports it.
#[derive(Debug, Clone, Copy, PartialEq, Eq, Structural)]
pub enum PlannerInvariant {
    DuplicateActiveOrDrainingDemand,
    ActiveWithoutSchedulerEntry,
    ActiveSchedulerNotInProgress,
    ActiveWithoutLookupIds,
    DuplicateLookupId,
    DrainingWithoutSchedulerEntry,
    DrainingSchedulerNotInProgress,
    DrainingWithoutLookupIds,
    DrainDeadlineBeforeStart,
    DrainNoLateYieldAfterDeadline,
    DrainUniqueCountBelowInitial,
    DrainTotalBelowUnique,
    DrainWithoutInitialInflight,
    SchedulerEntryWithoutSubscribers,
    SchedulerInProgressWithoutLookup,
    SchedulerIdleWithLookup,
    MetadataWaiterCountMismatch,
    AwaitingMetadataSlotCapExceeded,
    NoConnectedPeersSlotCapExceeded,
    RoutineRefreshSlotCapExceeded,
    LookupSlotBudgetExceeded,
}

/// The name a violation of `k` is logged under.
pub open spec fn invariant_name(k: PlannerInvariant) -> Seq<char> {
    match k {
        PlannerInvariant::DuplicateActiveOrDrainingDemand => "duplicate_active_or_draining_demand"@,
        PlannerInvariant::ActiveWithoutSchedulerEntry => "active_without_scheduler_entry"@,
        PlannerInvariant::ActiveSchedulerNotInProgress => "active_scheduler_not_in_progress"@,
        PlannerInvariant::ActiveWithoutLookupIds => "active_without_lookup_ids"@,
        PlannerInvariant::DuplicateLookupId => "duplicate_lookup_id"@,
        PlannerInvariant::DrainingWithoutSchedulerEntry => "draining_without_scheduler_entry"@,
        PlannerInvariant::DrainingSchedulerNotInProgress => "draining_scheduler_not_in_progress"@,
        PlannerInvariant::DrainingWithoutLookupIds => "draining_without_lookup_ids"@,
        PlannerInvariant::DrainDeadlineBeforeStart => "drain_deadline_before_start"@,
        PlannerInvariant::DrainNoLateYieldAfterDeadline => "drain_no_late_yield_after_deadline"@,
        PlannerInvariant::DrainUniqueCountBelowInitial => "drain_unique_count_below_initial"@,
        PlannerInvariant::DrainTotalBelowUnique => "drain_total_below_unique"@,
        PlannerInvariant::DrainWithoutInitialInflight => "drain_without_initial_inflight"@,
        PlannerInvariant::SchedulerEntryWithoutSubscribers => "scheduler_entry_without_subscribers"@,
        PlannerInvariant::SchedulerInProgressWithoutLookup => "scheduler_in_progress_without_lookup"@,
        PlannerInvariant::SchedulerIdleWithLookup => "scheduler_idle_with_lookup"@,
        PlannerInvariant::MetadataWaiterCountMismatch => "metadata_waiter_count_mismatch"@,
        PlannerInvariant::AwaitingMetadataSlotCapExceeded => "awaiting_metadata_slot_cap_exceeded"@,
        PlannerInvariant::NoConnectedPeersSlotCapExceeded => "no_connected_peers_slot_cap_exceeded"@,
        PlannerInvariant::RoutineRefreshSlotCapExceeded => "routine_refresh_slot_cap_exceeded"@,
        PlannerInvariant::LookupSlotBudgetExceeded => "lookup_slot_budget_exceeded"@,
    }
}

impl PlannerInvariant {
    /// The name under which the violation is logged.
    pub fn as_str(&self) -> (r: &'static str)
        ensures
            r@ == invariant_name(*self),
    {
        match self {
            PlannerInvariant::DuplicateActiveOrDrainingDemand => "duplicate_active_or_draining_demand",
            PlannerInvariant::ActiveWithoutSchedulerEntry => "active_without_scheduler_entry",
            PlannerInvariant::ActiveSchedulerNotInProgress => "active_scheduler_not_in_progress",
            PlannerInvariant::ActiveWithoutLookupIds => "active_without_lookup_ids",
            PlannerInvariant::DuplicateLookupId => "duplicate_lookup_id",
            PlannerInvariant::DrainingWithoutSchedulerEntry => "draining_without_scheduler_entry",
            PlannerInvariant::DrainingSchedulerNotInProgress => "draining_scheduler_not_in_progress",
            PlannerInvariant::DrainingWithoutLookupIds => "draining_without_lookup_ids",
            PlannerInvariant::DrainDeadlineBeforeStart => "drain_deadline_before_start",
            PlannerInvariant::DrainNoLateYieldAfterDeadline => "drain_no_late_yield_after_deadline",
            PlannerInvariant::DrainUniqueCountBelowInitial => "drain_unique_count_below_initial",
            PlannerInvariant::DrainTotalBelowUnique => "drain_total_below_unique",
            PlannerInvariant::DrainWithoutInitialInflight => "drain_without_initial_inflight",
            PlannerInvariant::SchedulerEntryWithoutSubscribers => "scheduler_entry_without_subscribers",
            PlannerInvariant::SchedulerInProgressWithoutLookup => "scheduler_in_progress_without_lookup",
            PlannerInvariant::SchedulerIdleWithLookup => "scheduler_idle_with_lookup",
            PlannerInvariant::MetadataWaiterCountMismatch => "metadata_waiter_count_mismatch",
            PlannerInvariant::AwaitingMetadataSlotCapExceeded => "awaiting_metadata_slot_cap_exceeded",
            PlannerInvariant::NoConnectedPeersSlotCapExceeded => "no_connected_peers_slot_cap_exceeded",
            PlannerInvariant::RoutineRefreshSlotCapExceeded => "routine_refresh_slot_cap_exceeded",
            PlannerInvariant::LookupSlotBudgetExceeded => "lookup_slot_budget_exceeded",
        }
    }
}

/// A broken planner invariant, with the demand it concerns when there is one.
#[derive(Debug, Clone, Copy, PartialEq, Eq)]
pub struct DemandPlannerInvariantViolation {
    pub kind: PlannerInvariant,
    pub info_hash: Option<InfoHash>,
}

// ----- the model as sequences -----

/// Active demands, then draining ones.
pub open spec fn n_demands(m: DemandPlannerModel) -> int {
    (m.active@.len() + m.draining_demands@.len()) as int
}

/// The info hash of demand `k` (active first, then draining).
pub open spec fn demand_hash(m: DemandPlannerModel, k: int) -> InfoHash {
    if k < m.active@.len() {
        m.active@[k].0
    } else {
        m.draining_demands@[k - m.active@.len()].0
    }
}

/// The lookups of demand `k`.
pub open spec fn demand_lookups(m: DemandPlannerModel, k: int) -> Seq<LookupId> {
    if k < m.active@.len() {
        m.active@[k].1.lookup_ids@
    } else {
        m.draining_demands@[k - m.active@.len()].1.lookup_ids@
    }
}

/// The lookups of the first `k` demands, in order.
pub open spec fn lookups_upto(m: DemandPlannerModel, k: int) -> Seq<LookupId>
    decreases k,
{
    if k <= 0 {
        seq![]
    } else {
        lookups_upto(m, k - 1) + demand_lookups(m, k - 1)
    }
}

/// Whether some active or draining demand is for `h`.
pub open spec fn is_tracked(m: DemandPlannerModel, h: InfoHash) -> bool {
    exists|k: int| 0 <= k < n_demands(m) && #[trigger] demand_hash(m, k) == h
}

/// The scheduler entry for `h` from position `i` on.
pub open spec fn entry_from(s: Seq<SchedulerEntrySnapshot>, h: InfoHash, i: int) -> Option<
    SchedulerEntrySnapshot,
>
    decreases s.len() - i,
{
    if i < 0 || i >= s.len() {
        None
    } else if s[i].info_hash == h {
        Some(s[i])
    } else {
        entry_from(s, h, i + 1)
    }
}

/// The scheduler entry for `h`.
pub open spec fn entry_of(m: DemandPlannerModel, h: InfoHash) -> Option<SchedulerEntrySnapshot> {
    entry_from(m.scheduler.entries@, h, 0)
}

/// Whether the scheduler runs `h`.
pub open spec fn runs(m: DemandPlannerModel, h: InfoHash) -> bool {
    entry_of(m, h) matches Some(e) && e.in_progress
}

/// Scheduler entries awaiting metadata among the first `k`.
pub open spec fn awaiting_count(s: Seq<SchedulerEntrySnapshot>, k: int) -> int
    decreases k,
{
    if k <= 0 {
        0
    } else {
        awaiting_count(s, k - 1) + if s[k - 1].demand.awaiting_metadata {
            1int
        } else {
            0int
        }
    }
}

/// Active demands of class `c` among the first `k`.
pub open spec fn class_count(a: Seq<(InfoHash, ActiveDemandLookup)>, c: DemandSliceClass, k: int) -> int
    decreases k,
{
    if k <= 0 {
        0
    } else {
        class_count(a, c, k - 1) + if a[k - 1].1.slice_class == c {
            1int
        } else {
            0int
        }
    }
}

/// The slots draining demands take.
pub open spec fn drain_virtual_slots(limits: DemandPlannerLimits, draining: int) -> int {
    let per = limits.drains_per_virtual_slot as int;
    if per == 0 {
        draining
    } else {
        draining / per + if draining % per == 0 {
            0int
        } else {
            1int
        }
    }
}

/// Whether draining demand `j` is consistent on its own.
pub open spec fn drain_consistent(d: DrainingDemand) -> bool {
    &&& d.deadline >= d.started_at
    &&& d.no_late_yield_deadline <= d.deadline
    &&& d.unique_peer_count >= d.initial_unique_peers
    &&& d.total_peers >= d.unique_peer_count
    &&& d.initial_inflight_queries > 0
}

/// Whether the planner holds every invariant: no demand is both active and
/// draining (or twice either), every one of them is run by the scheduler and
/// has lookups, no lookup belongs to two demands, draining demands have sane
/// deadlines and counts, every scheduler entry has subscribers and runs
/// exactly when lookups are tracked for it, the metadata waiter count matches
/// the scheduler, and the slot caps and budget are respected.
pub open spec fn planner_invariants_hold(m: DemandPlannerModel) -> bool {
    let a = m.active@;
    let d = m.draining_demands@;
    let s = m.scheduler.entries@;
    &&& forall|k1: int, k2: int|
        0 <= k1 < k2 < n_demands(m) ==> #[trigger] demand_hash(m, k1) != #[trigger] demand_hash(
            m,
            k2,
        )
    &&& forall|k: int| 0 <= k < n_demands(m) ==> #[trigger] runs(m, demand_hash(m, k))
    &&& forall|k: int| 0 <= k < n_demands(m) ==> #[trigger] demand_lookups(m, k).len() > 0
    &&& lookups_upto(m, n_demands(m)).no_duplicates()
    &&& forall|j: int| 0 <= j < d.len() ==> #[trigger] drain_consistent(d[j].1)
    &&& forall|i: int|
        0 <= i < s.len() ==> (#[trigger] s[i]).subscriber_count > 0 && (s[i].in_progress
            <==> is_tracked(m, s[i].info_hash))
    &&& m.metadata_waiters == awaiting_count(s, s.len() as int)
    &&& class_count(a, DemandSliceClass::AwaitingMetadata, a.len() as int)
        <= m.limits.awaiting_metadata_slot_cap
    &&& class_count(a, DemandSliceClass::NoConnectedPeers, a.len() as int)
        <= m.limits.no_connected_peers_slot_cap
    &&& class_count(a, DemandSliceClass::RoutineRefresh, a.len() as int)
        <= m.limits.routine_lookup_slot_cap
    &&& a.len() + drain_virtual_slots(m.limits, d.len() as int) <= m.limits.demand_lookup_slot_count
}

/// Whether the violation names an invariant that indeed fails, for a demand
/// or scheduler entry of that info hash where the invariant concerns one.
pub open spec fn violation_holds(m: DemandPlannerModel, v: DemandPlannerInvariantViolation) -> bool {
    let a = m.active@;
    let d = m.draining_demands@;
    let s = m.scheduler.entries@;
    let na = a.len() as int;
    match v.kind {
        PlannerInvariant::DuplicateActiveOrDrainingDemand => exists|k1: int, k2: int|
            0 <= k1 < k2 < n_demands(m) && v.info_hash == Some(demand_hash(m, k2)) && #[trigger] demand_hash(
                m,
                k1,
            ) == #[trigger] demand_hash(m, k2),
        PlannerInvariant::ActiveWithoutSchedulerEntry => exists|k: int|
            0 <= k < na && v.info_hash == Some(#[trigger] demand_hash(m, k)) && entry_of(
                m,
                demand_hash(m, k),
            ) is None,
        PlannerInvariant::ActiveSchedulerNotInProgress => exists|k: int|
            0 <= k < na && v.info_hash == Some(#[trigger] demand_hash(m, k)) && !runs(
                m,
                demand_hash(m, k),
            ),
        PlannerInvariant::ActiveWithoutLookupIds => exists|k: int|
            0 <= k < na && v.info_hash == Some(#[trigger] demand_hash(m, k)) && demand_lookups(
                m,
                k,
            ).len() == 0,
        PlannerInvariant::DuplicateLookupId => !lookups_upto(m, n_demands(m)).no_duplicates()
            && exists|k: int|
            0 <= k < n_demands(m) && v.info_hash == Some(#[trigger] demand_hash(m, k)),
        PlannerInvariant::DrainingWithoutSchedulerEntry => exists|k: int|
            na <= k < n_demands(m) && v.info_hash == Some(#[trigger] demand_hash(m, k)) && entry_of(
                m,
                demand_hash(m, k),
            ) is None,
        PlannerInvariant::DrainingSchedulerNotInProgress => exists|k: int|
            na <= k < n_demands(m) && v.info_hash == Some(#[trigger] demand_hash(m, k)) && !runs(
                m,
                demand_hash(m, k),
            ),
        PlannerInvariant::DrainingWithoutLookupIds => exists|k: int|
            na <= k < n_demands(m) && v.info_hash == Some(#[trigger] demand_hash(m, k))
                && demand_lookups(m, k).len() == 0,
        PlannerInvariant::DrainDeadlineBeforeStart => exists|j: int|
            0 <= j < d.len() && v.info_hash == Some((#[trigger] d[j]).0) && d[j].1.deadline
                < d[j].1.started_at,
        PlannerInvariant::DrainNoLateYieldAfterDeadline => exists|j: int|
            0 <= j < d.len() && v.info_hash == Some((#[trigger] d[j]).0)
                && d[j].1.no_late_yield_deadline > d[j].1.deadline,
        PlannerInvariant::DrainUniqueCountBelowInitial => exists|j: int|
            0 <= j < d.len() && v.info_hash == Some((#[trigger] d[j]).0)
                && d[j].1.unique_peer_count < d[j].1.initial_unique_peers,
        PlannerInvariant::DrainTotalBelowUnique => exists|j: int|
            0 <= j < d.len() && v.info_hash == Some((#[trigger] d[j]).0) && d[j].1.total_peers
                < d[j].1.unique_peer_count,
        PlannerInvariant::DrainWithoutInitialInflight => exists|j: int|
            0 <= j < d.len() && v.info_hash == Some((#[trigger] d[j]).0)
                && d[j].1.initial_inflight_queries == 0,
        PlannerInvariant::SchedulerEntryWithoutSubscribers => exists|i: int|
            0 <= i < s.len() && v.info_hash == Some((#[trigger] s[i]).info_hash)
                && s[i].subscriber_count == 0,
        PlannerInvariant::SchedulerInProgressWithoutLookup => exists|i: int|
            0 <= i < s.len() && v.info_hash == Some((#[trigger] s[i]).info_hash) && s[i].in_progress
                && !is_tracked(m, s[i].info_hash),
        PlannerInvariant::SchedulerIdleWithLookup => exists|i: int|
            0 <= i < s.len() && v.info_hash == Some((#[trigger] s[i]).info_hash) && !s[i].in_progress
                && is_tracked(m, s[i].info_hash),
        PlannerInvariant::MetadataWaiterCountMismatch => v.info_hash is None && m.metadata_waiters
            != awaiting_count(s, s.len() as int),
        PlannerInvariant::AwaitingMetadataSlotCapExceeded => v.info_hash is None && class_count(
            a,
            DemandSliceClass::AwaitingMetadata,
            na,
        ) > m.limits.awaiting_metadata_slot_cap,
        PlannerInvariant::NoConnectedPeersSlotCapExceeded => v.info_hash is None && class_count(
            a,
            DemandSliceClass::NoConnectedPeers,
            na,
        ) > m.limits.no_connected_peers_slot_cap,
        PlannerInvariant::RoutineRefreshSlotCapExceeded => v.info_hash is None && class_count(
            a,
            DemandSliceClass::RoutineRefresh,
            na,
        ) > m.limits.routine_lookup_slot_cap,
        PlannerInvariant::LookupSlotBudgetExceeded => v.info_hash is None && na
            + drain_virtual_slots(m.limits, d.len() as int) > m.limits.demand_lookup_slot_count,
    }
}

// ----- the order of the checks -----

/// The first check that demand `k` fails, in the order the checks run: a
/// repeated info hash, no scheduler entry, an entry not in progress, no
/// lookups, a lookup already seen (among demands up to `k`), then, for a
/// draining demand, its deadlines and counts.
pub open spec fn demand_violation(m: DemandPlannerModel, k: int) -> Option<PlannerInvariant> {
    let h = demand_hash(m, k);
    let active = k < m.active@.len();
    let d = m.draining_demands@[k - m.active@.len()].1;
    if exists|q: int| 0 <= q < k && #[trigger] demand_hash(m, q) == h {
        Some(PlannerInvariant::DuplicateActiveOrDrainingDemand)
    } else if entry_of(m, h) is None {
        Some(
            if active {
                PlannerInvariant::ActiveWithoutSchedulerEntry
            } else {
                PlannerInvariant::DrainingWithoutSchedulerEntry
            },
        )
    } else if !runs(m, h) {
        Some(
            if active {
                PlannerInvariant::ActiveSchedulerNotInProgress
            } else {
                PlannerInvariant::DrainingSchedulerNotInProgress
            },
        )
    } else if demand_lookups(m, k).len() == 0 {
        Some(
            if active {
                PlannerInvariant::ActiveWithoutLookupIds
            } else {
                PlannerInvariant::DrainingWithoutLookupIds
            },
        )
    } else if !lookups_upto(m, k + 1).no_duplicates() {
        Some(PlannerInvariant::DuplicateLookupId)
    } else if active {
        None
    } else if d.deadline < d.started_at {
        Some(PlannerInvariant::DrainDeadlineBeforeStart)
    } else if d.no_late_yield_deadline > d.deadline {
        Some(PlannerInvariant::DrainNoLateYieldAfterDeadline)
    } else if d.unique_peer_count < d.initial_unique_peers {
        Some(PlannerInvariant::DrainUniqueCountBelowInitial)
    } else if d.total_peers < d.unique_peer_count {
        Some(PlannerInvariant::DrainTotalBelowUnique)
    } else if d.initial_inflight_queries == 0 {
        Some(PlannerInvariant::DrainWithoutInitialInflight)
    } else {
        None
    }
}

/// The first demand from `k` on that fails a check, with what it fails.
pub open spec fn first_demand_violation_from(m: DemandPlannerModel, k: int) -> Option<
    (PlannerInvariant, Option<InfoHash>),
>
    decreases n_demands(m) - k,
{
    if k < 0 || k >= n_demands(m) {
        None
    } else {
        match demand_violation(m, k) {
            Some(kind) => Some((kind, Some(demand_hash(m, k)))),
            None => first_demand_violation_from(m, k + 1),
        }
    }
}

/// The first check that scheduler entry `i` fails: no subscribers, running
/// with no demand tracked, or idle with one tracked.
pub open spec fn entry_violation(m: DemandPlannerModel, i: int) -> Option<PlannerInvariant> {
    let e = m.scheduler.entries@[i];
    if e.subscriber_count == 0 {
        Some(PlannerInvariant::SchedulerEntryWithoutSubscribers)
    } else if e.in_progress && !is_tracked(m, e.info_hash) {
        Some(PlannerInvariant::SchedulerInProgressWithoutLookup)
    } else if !e.in_progress && is_tracked(m, e.info_hash) {
        Some(PlannerInvariant::SchedulerIdleWithLookup)
    } else {
        None
    }
}

/// The first scheduler entry from `i` on that fails a check.
pub open spec fn first_entry_violation_from(m: DemandPlannerModel, i: int) -> Option<
    (PlannerInvariant, Option<InfoHash>),
>
    decreases m.scheduler.entries@.len() - i,
{
    if i < 0 || i >= m.scheduler.entries@.len() {
        None
    } else {
        match entry_violation(m, i) {
            Some(kind) => Some((kind, Some(m.scheduler.entries@[i].info_hash))),
            None => first_entry_violation_from(m, i + 1),
        }
    }
}

/// The first of the planner-wide checks that fails: the metadata waiter
/// count, the three slot caps, then the slot budget.
pub open spec fn global_violation(m: DemandPlannerModel) -> Option<PlannerInvariant> {
    let a = m.active@;
    let na = a.len() as int;
    if m.metadata_waiters != awaiting_count(m.scheduler.entries@, m.scheduler.entries@.len() as int) {
        Some(PlannerInvariant::MetadataWaiterCountMismatch)
    } else if class_count(a, DemandSliceClass::AwaitingMetadata, na) > m.limits.awaiting_metadata_slot_cap {
        Some(PlannerInvariant::AwaitingMetadataSlotCapExceeded)
    } else if class_count(a, DemandSliceClass::NoConnectedPeers, na) > m.limits.no_connected_peers_slot_cap {
        Some(PlannerInvariant::NoConnectedPeersSlotCapExceeded)
    } else if class_count(a, DemandSliceClass::RoutineRefresh, na) > m.limits.routine_lookup_slot_cap {
        Some(PlannerInvariant::RoutineRefreshSlotCapExceeded)
    } else if na + drain_virtual_slots(m.limits, m.draining_demands@.len() as int)
        > m.limits.demand_lookup_slot_count {
        Some(PlannerInvariant::LookupSlotBudgetExceeded)
    } else {
        None
    }
}

/// The violation the check reports: the first failing check over the active
/// demands, then the draining ones, then the scheduler entries, then the
/// planner-wide counts, caps and budget; `None` when every check passes.
pub open spec fn first_violation(m: DemandPlannerModel) -> Option<(PlannerInvariant, Option<InfoHash>)> {
    match first_demand_violation_from(m, 0) {
        Some(v) => Some(v),
        None => match first_entry_violation_from(m, 0) {
            Some(v) => Some(v),
            None => match global_violation(m) {
                Some(kind) => Some((kind, None)),
                None => None,
            },
        },
    }
}

proof fn lemma_first_demand_skip(m: DemandPlannerModel, k: int)
    requires
        0 <= k <= n_demands(m),
        forall|q: int| 0 <= q < k ==> #[trigger] demand_violation(m, q) is None,
    ensures
        first_demand_violation_from(m, 0) == first_demand_violation_from(m, k),
    decreases k,
{
    if k > 0 {
        lemma_first_demand_skip(m, k - 1);
        assert(demand_violation(m, k - 1) is None);
    }
}

proof fn lemma_first_entry_skip(m: DemandPlannerModel, i: int)
    requires
        0 <= i <= m.scheduler.entries@.len(),
        forall|q: int| 0 <= q < i ==> #[trigger] entry_violation(m, q) is None,
    ensures
        first_entry_violation_from(m, 0) == first_entry_violation_from(m, i),
    decreases i,
{
    if i > 0 {
        lemma_first_entry_skip(m, i - 1);
        assert(entry_violation(m, i - 1) is None);
    }
}

// ----- executable helpers -----

/// Whether two info hashes are equal.
pub fn same_hash(a: &InfoHash, b: &InfoHash) -> (r: bool)
    ensures
        r == (*a == *b),
{
    let mut i: usize = 0;
    while i < 20
        invariant
            i <= 20,
            forall|j: int| 0 <= j < i ==> a[j] == b[j],
        decreases 20 - i,
    {
        if a[i] != b[i] {
            assert(*a != *b);
            return false;
        }
        i = i + 1;
    }
    assert(*a =~= *b);
    true
}

fn violation(kind: PlannerInvariant, info_hash: Option<InfoHash>) -> (r:
    DemandPlannerInvariantViolation)
    ensures
        r.kind == kind,
        r.info_hash == info_hash,
{
    DemandPlannerInvariantViolation { kind, info_hash }
}

impl DemandScheduler {
    /// The record of `info_hash`, if the scheduler knows it.
    pub fn entry_snapshot(&self, info_hash: &InfoHash) -> (r: Option<SchedulerEntrySnapshot>)
        ensures
            r == entry_from(self.entries@, *info_hash, 0),
    {
        let mut i: usize = 0;
        while i < self.entries.len()
            invariant
                i <= self.entries@.len(),
                entry_from(self.entries@, *info_hash, 0) == entry_from(
                    self.entries@,
                    *info_hash,
                    i as int,
                ),
            decreases self.entries@.len() - i,
        {
            if same_hash(&self.entries[i].info_hash, info_hash) {
                return Some(self.entries[i]);
            }
            i = i + 1;
        }
        None
    }

    /// Where the record of `info_hash` stands, if the scheduler knows it.
    pub fn entry_index(&self, info_hash: &InfoHash) -> (r: Option<usize>)
        ensures
            match r {
                Some(i) => i < self.entries@.len() && self.entries@[i as int].info_hash == *info_hash
                    && forall|j: int| 0 <= j < i ==> self.entries@[j].info_hash != *info_hash,
                None => forall|j: int|
                    0 <= j < self.entries@.len() ==> self.entries@[j].info_hash != *info_hash,
            },
            r is None <==> entry_from(self.entries@, *info_hash, 0) is None,
    {
        let mut i: usize = 0;
        while i < self.entries.len()
            invariant
                i <= self.entries@.len(),
                entry_from(self.entries@, *info_hash, 0) == entry_from(
                    self.entries@,
                    *info_hash,
                    i as int,
                ),
                forall|j: int| 0 <= j < i ==> self.entries@[j].info_hash != *info_hash,
            decreases self.entries@.len() - i,
        {
            if same_hash(&self.entries[i].info_hash, info_hash) {
                return Some(i);
            }
            i = i + 1;
        }
        None
    }

    /// Every record, in order.
    pub fn entry_snapshots(&self) -> (r: Vec<SchedulerEntrySnapshot>)
        ensures
            r@ == self.entries@,
    {
        let mut r: Vec<SchedulerEntrySnapshot> = Vec::new();
        let mut i: usize = 0;
        while i < self.entries.len()
            invariant
                i <= self.entries@.len(),
                r@ == self.entries@.subrange(0, i as int),
            decreases self.entries@.len() - i,
        {
            r.push(self.entries[i]);
            i = i + 1;
            assert(self.entries@.subrange(0, i as int) == self.entries@.subrange(0, i - 1)
                + seq![self.entries@[i - 1]]);
        }
        assert(self.entries@.subrange(0, i as int) == self.entries@);
        r
    }

    /// Marks the demand for `info_hash` as running; false when the scheduler
    /// does not know it or it already runs.
    pub fn mark_in_progress(&mut self, info_hash: &InfoHash) -> (r: bool)
        ensures
            r == (entry_from(old(self).entries@, *info_hash, 0) matches Some(e) && !e.in_progress),
            final(self).entries@.len() == old(self).entries@.len(),
            r ==> entry_from(final(self).entries@, *info_hash, 0) == Some(
                SchedulerEntrySnapshot {
                    in_progress: true,
                    ..entry_from(old(self).entries@, *info_hash, 0)->0
                },
            ),
            !r ==> final(self).entries@ == old(self).entries@,
            forall|j: int|
                0 <= j < old(self).entries@.len() && old(self).entries@[j].info_hash != *info_hash
                    ==> final(self).entries@[j] == old(self).entries@[j],
            forall|j: int|
                0 <= j < old(self).entries@.len() ==> final(self).entries@[j] == (SchedulerEntrySnapshot {
                    in_progress: final(self).entries@[j].in_progress,
                    ..old(self).entries@[j]
                }),
            awaiting_count(final(self).entries@, final(self).entries@.len() as int) == awaiting_count(
                old(self).entries@,
                old(self).entries@.len() as int,
            ),
    {
        let mut i: usize = 0;
        while i < self.entries.len()
            invariant
                i <= self.entries@.len(),
                self.entries@ == old(self).entries@,
                entry_from(self.entries@, *info_hash, 0) == entry_from(
                    self.entries@,
                    *info_hash,
                    i as int,
                ),
                forall|j: int| 0 <= j < i ==> self.entries@[j].info_hash != *info_hash,
            decreases self.entries@.len() - i,
        {
            if same_hash(&self.entries[i].info_hash, info_hash) {
                let e = self.entries[i];
                if e.in_progress {
                    return false;
                }
                let ghost before = self.entries@;
                self.entries.set(i, SchedulerEntrySnapshot { in_progress: true, ..e });
                proof {
                    lemma_entry_from_prefix(before, self.entries@, *info_hash, i as int);
                    lemma_awaiting_update(before, i as int, SchedulerEntrySnapshot { in_progress: true, ..e }, before.len() as int);
                    assert(self.entries@ == before.update(i as int, SchedulerEntrySnapshot { in_progress: true, ..e }));
                }
                return true;
            }
            i = i + 1;
        }
        false
    }
}

proof fn lemma_entry_from_prefix(
    before: Seq<SchedulerEntrySnapshot>,
    after: Seq<SchedulerEntrySnapshot>,
    h: InfoHash,
    i: int,
)
    requires
        0 <= i < before.len(),
        after.len() == before.len(),
        forall|j: int| 0 <= j < i ==> before[j].info_hash != h,
        forall|j: int| 0 <= j < i ==> after[j] == before[j],
        after[i].info_hash == h,
    ensures
        entry_from(after, h, 0) == Some(after[i]),
{
    lemma_entry_from_skip(after, h, 0, i);
}

/// The waiter count of the first `k` entries lies between 0 and `k`.
proof fn lemma_awaiting_bound(s: Seq<SchedulerEntrySnapshot>, k: int)
    requires
        0 <= k <= s.len(),
    ensures
        0 <= awaiting_count(s, k) <= k,
    decreases k,
{
    if k > 0 {
        lemma_awaiting_bound(s, k - 1);
    }
}

/// Replacing entry `i` changes the waiter count of a prefix holding it by
/// the difference of the two entries' flags.
proof fn lemma_awaiting_update(s: Seq<SchedulerEntrySnapshot>, i: int, e: SchedulerEntrySnapshot, k: int)
    requires
        0 <= i < s.len(),
        0 <= k <= s.len(),
    ensures
        awaiting_count(s.update(i, e), k) == awaiting_count(s, k) + if k > i {
            (if e.demand.awaiting_metadata { 1int } else { 0int }) - (if s[i].demand.awaiting_metadata {
                1int
            } else {
                0int
            })
        } else {
            0int
        },
    decreases k,
{
    if k > 0 {
        lemma_awaiting_update(s, i, e, k - 1);
    }
}

/// Appending an entry leaves the waiter count of the old prefixes alone.
proof fn lemma_awaiting_push(s: Seq<SchedulerEntrySnapshot>, e: SchedulerEntrySnapshot, k: int)
    requires
        0 <= k <= s.len(),
    ensures
        awaiting_count(s.push(e), k) == awaiting_count(s, k),
    decreases k,
{
    if k > 0 {
        lemma_awaiting_push(s, e, k - 1);
    }
}

proof fn lemma_entry_from_skip(s: Seq<SchedulerEntrySnapshot>, h: InfoHash, from: int, i: int)
    requires
        0 <= from <= i < s.len(),
        forall|j: int| from <= j < i ==> s[j].info_hash != h,
        s[i].info_hash == h,
    ensures
        entry_from(s, h, from) == Some(s[i]),
    decreases i - from,
{
    if from < i {
        lemma_entry_from_skip(s, h, from + 1, i);
    }
}

impl DemandPlannerModel {
    /// An empty planner with the standard slot budget.
    pub fn new(now: u64) -> (r: Self)
        ensures
            r.scheduler.entries@.len() == 0,
            r.active@.len() == 0,
            r.draining_demands@.len() == 0,
            r.metadata_waiters == 0,
            r.limits == default_planner_limits(),
            r.created_at == now,
    {
        DemandPlannerModel {
            scheduler: DemandScheduler { entries: Vec::new() },
            active: Vec::new(),
            draining_demands: Vec::new(),
            metadata_waiters: 0,
            limits: DemandPlannerLimits {
                demand_lookup_slot_count: 8,
                awaiting_metadata_slot_cap: 4,
                no_connected_peers_slot_cap: 4,
                routine_lookup_slot_cap: 2,
                drains_per_virtual_slot: 2,
            },
            created_at: now,
        }
    }

    /// Metadata waiters the planner counts.
    pub fn metadata_waiter_count(&self) -> (r: usize)
        ensures
            r == self.metadata_waiters,
    {
        self.metadata_waiters
    }

    /// Registers a demand: a new info hash gets a scheduler entry with one
    /// subscriber, not running; a known one gains a subscriber and takes the
    /// new demand state. The metadata waiter count follows.
    pub fn update(&mut self, action: DemandPlannerAction)
        ensures
            match action {
                DemandPlannerAction::DemandRegistered { info_hash, demand, now } => {
                    &&& old(self).metadata_waiters == awaiting_count(
                        old(self).scheduler.entries@,
                        old(self).scheduler.entries@.len() as int,
                    ) ==> final(self).metadata_waiters == awaiting_count(
                        final(self).scheduler.entries@,
                        final(self).scheduler.entries@.len() as int,
                    )
                    &&& forall|j: int|
                        0 <= j < old(self).scheduler.entries@.len()
                            && old(self).scheduler.entries@[j].info_hash != info_hash
                            ==> final(self).scheduler.entries@[j] == old(self).scheduler.entries@[j]
                    &&& final(self).created_at == old(self).created_at
                    &&& final(self).active@ == old(self).active@
                    &&& final(self).draining_demands@ == old(self).draining_demands@
                    &&& final(self).limits == old(self).limits
                    &&& entry_of(*final(self), info_hash) matches Some(e) && e.demand == demand
                        && e.subscriber_count >= 1 && e.in_progress == (
                    entry_of(*old(self), info_hash) matches Some(o) && o.in_progress)
                    &&& final(self).scheduler.entries@.len() == old(
                        self,
                    ).scheduler.entries@.len() + if entry_of(*old(self), info_hash) is None {
                        1int
                    } else {
                        0int
                    }
                },
            },
    {
        match action {
            DemandPlannerAction::DemandRegistered { info_hash, demand, now } => {
                let ghost old_entries = self.scheduler.entries@;
                match self.scheduler.entry_index(&info_hash) {
                    Some(i) => {
                        let e = self.scheduler.entries[i];
                        let w0 = self.metadata_waiters;
                        let w1 = if e.demand.awaiting_metadata && w0 > 0 {
                            w0 - 1
                        } else {
                            w0
                        };
                        let w2 = if demand.awaiting_metadata {
                            w1.saturating_add(1)
                        } else {
                            w1
                        };
                        proof {
                            assert(w0 == old(self).metadata_waiters);
                            assert(old_entries.len() == self.scheduler.entries.len());
                            assert(w1 == w0 - (if e.demand.awaiting_metadata && w0 > 0 { 1int } else { 0int }));
                            assert(w1 < usize::MAX ==> w2 == w1 + (if demand.awaiting_metadata { 1int } else { 0int }));
                        }
                        self.metadata_waiters = w2;
                        let updated = SchedulerEntrySnapshot {
                            info_hash: e.info_hash,
                            demand,
                            subscriber_count: e.subscriber_count.saturating_add(1),
                            in_progress: e.in_progress,
                        };
                        self.scheduler.entries.set(i, updated);
                        proof {
                            lemma_awaiting_update(old_entries, i as int, updated, old_entries.len() as int);
                            let idle = SchedulerEntrySnapshot {
                                demand: DhtDemandState { awaiting_metadata: false, ..e.demand },
                                ..e
                            };
                            lemma_awaiting_update(old_entries, i as int, idle, old_entries.len() as int);
                            lemma_awaiting_bound(old_entries.update(i as int, idle), old_entries.len() as int);
                            lemma_awaiting_bound(old_entries, old_entries.len() as int);
                            lemma_awaiting_bound(self.scheduler.entries@, old_entries.len() as int);
                            assert(self.scheduler.entries@ == old_entries.update(i as int, updated));
                            let c = awaiting_count(old_entries, old_entries.len() as int);
                            assert(e == old_entries[i as int]);
                            assert(e.demand.awaiting_metadata ==> c >= 1);
                            assert(awaiting_count(self.scheduler.entries@, old_entries.len() as int) == c
                                + (if demand.awaiting_metadata { 1int } else { 0int })
                                - (if e.demand.awaiting_metadata { 1int } else { 0int }));
                            assert(awaiting_count(self.scheduler.entries@, old_entries.len() as int) <= old_entries.len());
                            if old(self).metadata_waiters == c {
                                assert(self.metadata_waiters == awaiting_count(self.scheduler.entries@, old_entries.len() as int));
                            }
                            lemma_entry_from_skip(old_entries, info_hash, 0, i as int);
                            lemma_entry_from_prefix(
                                old_entries,
                                self.scheduler.entries@,
                                info_hash,
                                i as int,
                            );
                        }
                    },
                    None => {
                        self.scheduler.entries.push(
                            SchedulerEntrySnapshot {
                                info_hash,
                                demand,
                                subscriber_count: 1,
                                in_progress: false,
                            },
                        );
                        if demand.awaiting_metadata {
                            self.metadata_waiters = self.metadata_waiters.saturating_add(1);
                        }
                        proof {
                            let added = SchedulerEntrySnapshot {
                                info_hash,
                                demand,
                                subscriber_count: 1,
                                in_progress: false,
                            };
                            assert(self.scheduler.entries@ == old_entries.push(added));
                            lemma_awaiting_push(old_entries, added, old_entries.len() as int);
                            lemma_awaiting_bound(old_entries, old_entries.len() as int);
                            assert(awaiting_count(self.scheduler.entries@, self.scheduler.entries@.len() as int)
                                == awaiting_count(old_entries, old_entries.len() as int) + if demand.awaiting_metadata {
                                1int
                            } else {
                                0int
                            });
                            // The grown list's length is a `usize`, so the old one is below its maximum.
                            assert(self.scheduler.entries@.len() == self.scheduler.entries.len());
                            assert(forall|j: int|
                                0 <= j < old_entries.len() ==> self.scheduler.entries@[j]
                                    == old_entries[j]);
                            lemma_entry_from_skip(
                                self.scheduler.entries@,
                                info_hash,
                                0,
                                old_entries.len() as int,
                            );
                        }
                    },
                }
            },
        }
    }
}

/// The slot budget `DemandPlannerModel::new` uses.
pub open spec fn default_planner_limits() -> DemandPlannerLimits {
    DemandPlannerLimits {
        demand_lookup_slot_count: 8,
        awaiting_metadata_slot_cap: 4,
        no_connected_peers_slot_cap: 4,
        routine_lookup_slot_cap: 2,
        drains_per_virtual_slot: 2,
    }
}

/// Whether demand `k` is consistent: its info hash is not already an earlier
/// demand's, the scheduler runs it, it has lookups, and a draining one has
/// sane deadlines and counts.
pub open spec fn demand_ok(m: DemandPlannerModel, k: int) -> bool {
    &&& forall|q: int| 0 <= q < k ==> #[trigger] demand_hash(m, q) != demand_hash(m, k)
    &&& runs(m, demand_hash(m, k))
    &&& demand_lookups(m, k).len() > 0
    &&& k >= m.active@.len() ==> drain_consistent(m.draining_demands@[k - m.active@.len()].1)
}

proof fn lemma_lookups_prefix(m: DemandPlannerModel, k: int, n: int)
    requires
        0 <= k <= n,
    ensures
        lookups_upto(m, k).len() <= lookups_upto(m, n).len(),
        lookups_upto(m, n).subrange(0, lookups_upto(m, k).len() as int) == lookups_upto(m, k),
    decreases n - k,
{
    if k < n {
        lemma_lookups_prefix(m, k, n - 1);
        let a = lookups_upto(m, n - 1);
        assert(lookups_upto(m, n) == a + demand_lookups(m, n - 1));
        assert((a + demand_lookups(m, n - 1)).subrange(0, lookups_upto(m, k).len() as int)
            == a.subrange(0, lookups_upto(m, k).len() as int));
    } else {
        assert(lookups_upto(m, n).subrange(0, lookups_upto(m, n).len() as int) == lookups_upto(
            m,
            n,
        ));
    }
}

fn contains_lookup(seen: &Vec<LookupId>, x: LookupId) -> (r: bool)
    ensures
        r == seen@.contains(x),
{
    let mut i: usize = 0;
    while i < seen.len()
        invariant
            i <= seen@.len(),
            forall|j: int| 0 <= j < i ==> seen@[j] != x,
        decreases seen@.len() - i,
    {
        if seen[i] == x {
            assert(seen@[i as int] == x);
            return true;
        }
        i = i + 1;
    }
    false
}

fn contains_hash(hashes: &Vec<InfoHash>, h: &InfoHash) -> (r: bool)
    ensures
        r == hashes@.contains(*h),
{
    let mut i: usize = 0;
    while i < hashes.len()
        invariant
            i <= hashes@.len(),
            forall|j: int| 0 <= j < i ==> hashes@[j] != *h,
        decreases hashes@.len() - i,
    {
        if same_hash(&hashes[i], h) {
            assert(hashes@[i as int] == *h);
            return true;
        }
        i = i + 1;
    }
    false
}

/// Checks the lookups of demand `k` against those of the demands before it.
fn check_lookups(
    m: &DemandPlannerModel,
    k: usize,
    lookups: &Vec<LookupId>,
    seen: &mut Vec<LookupId>,
) -> (r: Result<(), DemandPlannerInvariantViolation>)
    requires
        k < n_demands(*m),
        lookups@ == demand_lookups(*m, k as int),
        old(seen)@ == lookups_upto(*m, k as int),
        old(seen)@.no_duplicates(),
    ensures
        match r {
            Ok(()) => final(seen)@ == lookups_upto(*m, k + 1) && final(seen)@.no_duplicates(),
            Err(v) => v.kind == PlannerInvariant::DuplicateLookupId && v.info_hash == Some(
                demand_hash(*m, k as int),
            ) && !lookups_upto(*m, n_demands(*m)).no_duplicates() && !lookups_upto(
                *m,
                k + 1,
            ).no_duplicates(),
        },
        lookups_upto(*m, n_demands(*m)).no_duplicates() ==> r is Ok,
{
    let ghost start = seen@;
    let ghost n = n_demands(*m);
    proof {
        lemma_lookups_prefix(*m, k + 1, n);
        assert(lookups_upto(*m, k + 1) == start + lookups@);
    }
    let h = if k < m.active.len() {
        m.active[k].0
    } else {
        m.draining_demands[k - m.active.len()].0
    };
    let mut p: usize = 0;
    while p < lookups.len()
        invariant
            p <= lookups@.len(),
            k < n,
            n == n_demands(*m),
            h == demand_hash(*m, k as int),
            lookups@ == demand_lookups(*m, k as int),
            start == lookups_upto(*m, k as int),
            lookups_upto(*m, k + 1) == start + lookups@,
            lookups_upto(*m, k + 1).len() <= lookups_upto(*m, n).len(),
            lookups_upto(*m, n).subrange(0, lookups_upto(*m, k + 1).len() as int) == lookups_upto(
                *m,
                k + 1,
            ),
            seen@ == start + lookups@.subrange(0, p as int),
            seen@.no_duplicates(),
        decreases lookups@.len() - p,
    {
        let x = lookups[p];
        if contains_lookup(seen, x) {
            proof {
                let all = lookups_upto(*m, n);
                let i = choose|i: int| 0 <= i < seen@.len() && seen@[i] == x;
                let j = seen@.len() as int;
                assert(all[j] == (start + lookups@)[j]);
                assert(all[i] == (start + lookups@)[i]);
                assert(seen@[i] == (start + lookups@)[i]);
                assert(all[i] == all[j] && i != j);
                let upto = lookups_upto(*m, k + 1);
                assert(upto[i] == upto[j] && i != j && j < upto.len());
            }
            return Err(violation(PlannerInvariant::DuplicateLookupId, Some(h)));
        }
        seen.push(x);
        p = p + 1;
        proof {
            assert(lookups@.subrange(0, p as int) == lookups@.subrange(0, p - 1) + seq![x]);
            assert(seen@.no_duplicates());
        }
    }
    proof {
        assert(lookups@.subrange(0, p as int) == lookups@);
    }
    Ok(())
}

/// Checks every active and draining demand, in that order.
fn check_demands(m: &DemandPlannerModel) -> (r: Result<(), DemandPlannerInvariantViolation>)
    requires
        n_demands(*m) <= usize::MAX,
    ensures
        match r {
            Ok(()) => (forall|k: int| 0 <= k < n_demands(*m) ==> #[trigger] demand_ok(*m, k))
                && lookups_upto(*m, n_demands(*m)).no_duplicates() && first_demand_violation_from(
                *m,
                0,
            ) is None,
            Err(v) => violation_holds(*m, v) && first_demand_violation_from(*m, 0) == Some(
                (v.kind, v.info_hash),
            ),
        },
        (forall|k: int| 0 <= k < n_demands(*m) ==> #[trigger] demand_ok(*m, k)) && lookups_upto(
            *m,
            n_demands(*m),
        ).no_duplicates() ==> r is Ok,
{
    let na = m.active.len();
    let n = m.active.len() + m.draining_demands.len();
    let mut occupied: Vec<InfoHash> = Vec::new();
    let mut seen: Vec<LookupId> = Vec::new();
    let mut k: usize = 0;
    while k < n
        invariant
            na == m.active@.len(),
            n == n_demands(*m),
            k <= n,
            occupied@.len() == k,
            forall|q: int| 0 <= q < k ==> occupied@[q] == demand_hash(*m, q),
            seen@ == lookups_upto(*m, k as int),
            seen@.no_duplicates(),
            forall|q: int| 0 <= q < k ==> #[trigger] demand_ok(*m, q),
            forall|q: int| 0 <= q < k ==> #[trigger] demand_violation(*m, q) is None,
        decreases n - k,
    {
        proof {
            lemma_first_demand_skip(*m, k as int);
        }
        let is_active = k < na;
        let h = if is_active {
            m.active[k].0
        } else {
            m.draining_demands[k - na].0
        };
        if contains_hash(&occupied, &h) {
            proof {
                let q = choose|q: int| 0 <= q < occupied@.len() && occupied@[q] == h;
                assert(demand_hash(*m, q) == demand_hash(*m, k as int));
                assert(!demand_ok(*m, k as int));
            }
            return Err(violation(PlannerInvariant::DuplicateActiveOrDrainingDemand, Some(h)));
        }
        occupied.push(h);
        match m.scheduler.entry_snapshot(&h) {
            None => {
                assert(!demand_ok(*m, k as int));
                if is_active {
                    return Err(violation(PlannerInvariant::ActiveWithoutSchedulerEntry, Some(h)));
                } else {
                    return Err(violation(PlannerInvariant::DrainingWithoutSchedulerEntry, Some(h)));
                }
            },
            Some(snapshot) => {
                if !snapshot.in_progress {
                    assert(!demand_ok(*m, k as int));
                    if is_active {
                        return Err(
                            violation(PlannerInvariant::ActiveSchedulerNotInProgress, Some(h)),
                        );
                    } else {
                        return Err(
                            violation(PlannerInvariant::DrainingSchedulerNotInProgress, Some(h)),
                        );
                    }
                }
            },
        }
        let lookups = if is_active {
            &m.active[k].1.lookup_ids
        } else {
            &m.draining_demands[k - na].1.lookup_ids
        };
        if lookups.len() == 0 {
            assert(!demand_ok(*m, k as int));
            if is_active {
                return Err(violation(PlannerInvariant::ActiveWithoutLookupIds, Some(h)));
            } else {
                return Err(violation(PlannerInvariant::DrainingWithoutLookupIds, Some(h)));
            }
        }
        match check_lookups(m, k, lookups, &mut seen) {
            Err(v) => {
                return Err(v);
            },
            Ok(()) => {},
        }
        if !is_active {
            let d = &m.draining_demands[k - na].1;
            let ghost j = k - na;
            if d.deadline < d.started_at {
                assert(!demand_ok(*m, k as int));
                return Err(violation(PlannerInvariant::DrainDeadlineBeforeStart, Some(h)));
            }
            if d.no_late_yield_deadline > d.deadline {
                assert(!demand_ok(*m, k as int));
                return Err(violation(PlannerInvariant::DrainNoLateYieldAfterDeadline, Some(h)));
            }
            if d.unique_peer_count < d.initial_unique_peers {
                assert(!demand_ok(*m, k as int));
                return Err(violation(PlannerInvariant::DrainUniqueCountBelowInitial, Some(h)));
            }
            if d.total_peers < d.unique_peer_count {
                assert(!demand_ok(*m, k as int));
                return Err(violation(PlannerInvariant::DrainTotalBelowUnique, Some(h)));
            }
            if d.initial_inflight_queries == 0 {
                assert(!demand_ok(*m, k as int));
                return Err(violation(PlannerInvariant::DrainWithoutInitialInflight, Some(h)));
            }
        }
        assert(demand_ok(*m, k as int));
        assert(demand_violation(*m, k as int) is None);
        k = k + 1;
    }
    proof {
        lemma_first_demand_skip(*m, k as int);
    }
    Ok(())
}

/// Whether an active or draining demand is for `h`.
fn tracks(m: &DemandPlannerModel, h: &InfoHash) -> (r: bool)
    ensures
        r == is_tracked(*m, *h),
{
    let mut i: usize = 0;
    while i < m.active.len()
        invariant
            i <= m.active@.len(),
            forall|q: int| 0 <= q < i ==> demand_hash(*m, q) != *h,
        decreases m.active@.len() - i,
    {
        if same_hash(&m.active[i].0, h) {
            assert(demand_hash(*m, i as int) == *h);
            return true;
        }
        i = i + 1;
    }
    let mut j: usize = 0;
    while j < m.draining_demands.len()
        invariant
            j <= m.draining_demands@.len(),
            forall|q: int| 0 <= q < m.active@.len() ==> demand_hash(*m, q) != *h,
            forall|q: int|
                m.active@.len() <= q < m.active@.len() + j ==> demand_hash(*m, q) != *h,
        decreases m.draining_demands@.len() - j,
    {
        if same_hash(&m.draining_demands[j].0, h) {
            assert(demand_hash(*m, m.active@.len() + j) == *h);
            return true;
        }
        j = j + 1;
    }
    assert forall|k: int| 0 <= k < n_demands(*m) implies #[trigger] demand_hash(*m, k) != *h by {
        if k < m.active@.len() {
        } else {
        }
    }
    false
}

/// Checks every scheduler entry against the tracked demands.
fn check_scheduler(m: &DemandPlannerModel) -> (r: Result<(), DemandPlannerInvariantViolation>)
    ensures
        match r {
            Ok(()) => forall|i: int|
                0 <= i < m.scheduler.entries@.len() ==> (#[trigger] m.scheduler.entries@[i]).subscriber_count
                    > 0 && (m.scheduler.entries@[i].in_progress <==> is_tracked(
                    *m,
                    m.scheduler.entries@[i].info_hash,
                )),
            Err(v) => violation_holds(*m, v) && exists|i: int|
                0 <= i < m.scheduler.entries@.len() && !((#[trigger] m.scheduler.entries@[i]).subscriber_count
                    > 0 && (m.scheduler.entries@[i].in_progress <==> is_tracked(
                    *m,
                    m.scheduler.entries@[i].info_hash,
                ))),
        },
        match r {
            Ok(()) => first_entry_violation_from(*m, 0) is None,
            Err(v) => first_entry_violation_from(*m, 0) == Some((v.kind, v.info_hash)),
        },
{
    let mut i: usize = 0;
    while i < m.scheduler.entries.len()
        invariant
            i <= m.scheduler.entries@.len(),
            forall|q: int|
                0 <= q < i ==> (#[trigger] m.scheduler.entries@[q]).subscriber_count > 0 && (
                m.scheduler.entries@[q].in_progress <==> is_tracked(
                    *m,
                    m.scheduler.entries@[q].info_hash,
                )),
            forall|q: int| 0 <= q < i ==> #[trigger] entry_violation(*m, q) is None,
        decreases m.scheduler.entries@.len() - i,
    {
        proof {
            lemma_first_entry_skip(*m, i as int);
        }
        let snapshot = m.scheduler.entries[i];
        if snapshot.subscriber_count == 0 {
            return Err(
                violation(PlannerInvariant::SchedulerEntryWithoutSubscribers, Some(snapshot.info_hash)),
            );
        }
        let has_lookups = tracks(m, &snapshot.info_hash);
        if snapshot.in_progress && !has_lookups {
            return Err(
                violation(PlannerInvariant::SchedulerInProgressWithoutLookup, Some(snapshot.info_hash)),
            );
        }
        if !snapshot.in_progress && has_lookups {
            return Err(violation(PlannerInvariant::SchedulerIdleWithLookup, Some(snapshot.info_hash)));
        }
        assert(entry_violation(*m, i as int) is None);
        i = i + 1;
    }
    proof {
        lemma_first_entry_skip(*m, i as int);
    }
    Ok(())
}

/// Scheduler entries awaiting metadata.
fn count_awaiting(entries: &Vec<SchedulerEntrySnapshot>) -> (r: usize)
    ensures
        r == awaiting_count(entries@, entries@.len() as int),
{
    let mut count: usize = 0;
    let mut i: usize = 0;
    while i < entries.len()
        invariant
            i <= entries@.len(),
            count == awaiting_count(entries@, i as int),
            count <= i,
        decreases entries@.len() - i,
    {
        if entries[i].demand.awaiting_metadata {
            count = count + 1;
        }
        i = i + 1;
    }
    count
}

/// Active demands of each class: awaiting metadata, without peers, routine.
fn count_classes(active: &Vec<(InfoHash, ActiveDemandLookup)>) -> (r: (usize, usize, usize))
    ensures
        r.0 == class_count(active@, DemandSliceClass::AwaitingMetadata, active@.len() as int),
        r.1 == class_count(active@, DemandSliceClass::NoConnectedPeers, active@.len() as int),
        r.2 == class_count(active@, DemandSliceClass::RoutineRefresh, active@.len() as int),
{
    let mut awaiting: usize = 0;
    let mut no_peers: usize = 0;
    let mut routine: usize = 0;
    let mut i: usize = 0;
    while i < active.len()
        invariant
            i <= active@.len(),
            awaiting == class_count(active@, DemandSliceClass::AwaitingMetadata, i as int),
            no_peers == class_count(active@, DemandSliceClass::NoConnectedPeers, i as int),
            routine == class_count(active@, DemandSliceClass::RoutineRefresh, i as int),
            awaiting + no_peers + routine == i,
        decreases active@.len() - i,
    {
        match active[i].1.slice_class {
            DemandSliceClass::AwaitingMetadata => {
                awaiting = awaiting + 1;
            },
            DemandSliceClass::NoConnectedPeers => {
                no_peers = no_peers + 1;
            },
            DemandSliceClass::RoutineRefresh => {
                routine = routine + 1;
            },
        }
        i = i + 1;
    }
    (awaiting, no_peers, routine)
}

/// Slots the draining demands take.
pub fn drain_virtual_slot_count(limits: &DemandPlannerLimits, draining: usize) -> (r: usize)
    ensures
        r == drain_virtual_slots(*limits, draining as int),
{
    let per = limits.drains_per_virtual_slot;
    if per == 0 {
        draining
    } else {
        proof {
            assert(draining / per <= draining) by (nonlinear_arith)
                requires
                    per > 0,
            ;
            assert(draining % per == 0 || draining / per < draining) by (nonlinear_arith)
                requires
                    per > 0,
            ;
        }
        draining / per + if draining % per == 0 {
            0
        } else {
            1
        }
    }
}

proof fn lemma_demands_ok_iff(m: DemandPlannerModel)
    ensures
        (forall|k: int| 0 <= k < n_demands(m) ==> #[trigger] demand_ok(m, k)) <==> ({
            &&& forall|k1: int, k2: int|
                0 <= k1 < k2 < n_demands(m) ==> #[trigger] demand_hash(m, k1) != #[trigger] demand_hash(
                    m,
                    k2,
                )
            &&& forall|k: int| 0 <= k < n_demands(m) ==> #[trigger] runs(m, demand_hash(m, k))
            &&& forall|k: int| 0 <= k < n_demands(m) ==> #[trigger] demand_lookups(m, k).len() > 0
            &&& forall|j: int|
                0 <= j < m.draining_demands@.len() ==> #[trigger] drain_consistent(
                    m.draining_demands@[j].1,
                )
        }),
{
    let na = m.active@.len() as int;
    if forall|k: int| 0 <= k < n_demands(m) ==> #[trigger] demand_ok(m, k) {
        assert forall|j: int| 0 <= j < m.draining_demands@.len() implies #[trigger] drain_consistent(
            m.draining_demands@[j].1,
        ) by {
            assert(demand_ok(m, na + j));
        }
        assert forall|k1: int, k2: int| 0 <= k1 < k2 < n_demands(m) implies #[trigger] demand_hash(
            m,
            k1,
        ) != #[trigger] demand_hash(m, k2) by {
            assert(demand_ok(m, k2));
        }
        assert forall|k: int| 0 <= k < n_demands(m) implies #[trigger] runs(m, demand_hash(m, k)) by {
            assert(demand_ok(m, k));
        }
        assert forall|k: int| 0 <= k < n_demands(m) implies #[trigger] demand_lookups(m, k).len()
            > 0 by {
            assert(demand_ok(m, k));
        }
    }
    if ({
        &&& forall|k1: int, k2: int|
            0 <= k1 < k2 < n_demands(m) ==> #[trigger] demand_hash(m, k1) != #[trigger] demand_hash(
                m,
                k2,
            )
        &&& forall|k: int| 0 <= k < n_demands(m) ==> #[trigger] runs(m, demand_hash(m, k))
        &&& forall|k: int| 0 <= k < n_demands(m) ==> #[trigger] demand_lookups(m, k).len() > 0
        &&& forall|j: int|
            0 <= j < m.draining_demands@.len() ==> #[trigger] drain_consistent(
                m.draining_demands@[j].1,
            )
    }) {
        assert forall|k: int| 0 <= k < n_demands(m) implies #[trigger] demand_ok(m, k) by {
            assert(runs(m, demand_hash(m, k)));
            assert(demand_lookups(m, k).len() > 0);
            if k >= na {
                assert(drain_consistent(m.draining_demands@[k - na].1));
            }
            assert forall|q: int| 0 <= q < k implies #[trigger] demand_hash(m, q) != demand_hash(
                m,
                k,
            ) by {
                assert(demand_hash(m, q) != demand_hash(m, k));
            }
        }
    }
}

/// Checks every planner invariant. `Ok` exactly when all hold; otherwise
/// the first violation found, checking active demands, draining ones, the
/// scheduler entries, the metadata waiter count, the slot caps and the slot
/// budget in that order.
pub fn check_demand_planner_invariants(model: &DemandPlannerModel) -> (r: Result<
    (),
    DemandPlannerInvariantViolation,
>)
    requires
        model.active@.len() + model.draining_demands@.len() <= usize::MAX,
    ensures
        r is Ok <==> planner_invariants_hold(*model),
        r matches Err(v) ==> violation_holds(*model, v),
        match r {
            Ok(()) => first_violation(*model) is None,
            Err(v) => first_violation(*model) == Some((v.kind, v.info_hash)),
        },
{
    proof {
        lemma_demands_ok_iff(*model);
    }
    match check_demands(model) {
        Err(v) => {
            return Err(v);
        },
        Ok(()) => {},
    }
    match check_scheduler(model) {
        Err(v) => {
            return Err(v);
        },
        Ok(()) => {},
    }
    let expected_metadata_waiters = count_awaiting(&model.scheduler.entries);
    if model.metadata_waiter_count() != expected_metadata_waiters {
        return Err(violation(PlannerInvariant::MetadataWaiterCountMismatch, None));
    }
    let (awaiting, no_peers, routine) = count_classes(&model.active);
    if awaiting > model.limits.awaiting_metadata_slot_cap {
        return Err(violation(PlannerInvariant::AwaitingMetadataSlotCapExceeded, None));
    }
    if no_peers > model.limits.no_connected_peers_slot_cap {
        return Err(violation(PlannerInvariant::NoConnectedPeersSlotCapExceeded, None));
    }
    if routine > model.limits.routine_lookup_slot_cap {
        return Err(violation(PlannerInvariant::RoutineRefreshSlotCapExceeded, None));
    }
    let drain_slots = drain_virtual_slot_count(&model.limits, model.draining_demands.len());
    if (model.active.len() as u128) + (drain_slots as u128)
        > model.limits.demand_lookup_slot_count as u128 {
        return Err(violation(PlannerInvariant::LookupSlotBudgetExceeded, None));
    }
    Ok(())
}

} // verus!
