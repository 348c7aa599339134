use vstd::prelude::*;
use crate::config::{join_path, path_join};

verus! {

/// Version of the persisted network history layout.
pub const NETWORK_HISTORY_SCHEMA_VERSION: u32 = 1;

/// One hour of one-second samples.
pub const SECOND_1S_CAP: usize = 3600;

/// 48 hours of one-minute samples.
pub const MINUTE_1M_CAP: usize = 2880;

/// 30 days of fifteen-minute samples.
pub const MINUTE_15M_CAP: usize = 2880;

/// 365 days of one-hour samples.
pub const HOUR_1H_CAP: usize = 8760;

/// Seconds folded into one minute point.
pub const SECONDS_PER_MINUTE_POINT: u32 = 60;

/// Minute points folded into one fifteen-minute point.
pub const MINUTES_PER_15M_POINT: u32 = 15;

/// Fifteen-minute points folded into one hour point.
pub const QUARTERS_PER_HOUR_POINT: u32 = 4;

/// One sample of network activity.
#[derive(Debug, Clone, Copy, PartialEq, Eq, Default, Structural)]
pub struct NetworkHistoryPoint {
    pub ts_unix: u64,
    pub download_bps: u64,
    pub upload_bps: u64,
    pub backoff_ms_max: u64,
}

/// The samples kept at each resolution, oldest first.
#[derive(Debug, Clone, PartialEq, Eq, Default)]
pub struct NetworkHistoryTiers {
    pub second_1s: Vec<NetworkHistoryPoint>,
    pub minute_1m: Vec<NetworkHistoryPoint>,
    pub minute_15m: Vec<NetworkHistoryPoint>,
    pub hour_1h: Vec<NetworkHistoryPoint>,
}

/// The network history as it is saved to disk.
#[derive(Debug, Clone, PartialEq, Eq)]
pub struct NetworkHistoryPersistedState {
    pub schema_version: u32,
    pub updated_at_unix: u64,
    pub tiers: NetworkHistoryTiers,
}

impl Default for NetworkHistoryPersistedState {
    fn default() -> (r: Self)
        ensures
            r.schema_version == NETWORK_HISTORY_SCHEMA_VERSION,
            r.updated_at_unix == 0,
            r.tiers.second_1s@.len() == 0,
            r.tiers.minute_1m@.len() == 0,
            r.tiers.minute_15m@.len() == 0,
            r.tiers.hour_1h@.len() == 0,
    {
        NetworkHistoryPersistedState {
            schema_version: NETWORK_HISTORY_SCHEMA_VERSION,
            updated_at_unix: 0,
            tiers: NetworkHistoryTiers {
                second_1s: Vec::new(),
                minute_1m: Vec::new(),
                minute_15m: Vec::new(),
                hour_1h: Vec::new(),
            },
        }
    }
}

/// The newest `cap` elements of `s` (all of them when there are fewer).
pub open spec fn keep_newest(s: Seq<NetworkHistoryPoint>, cap: int) -> Seq<NetworkHistoryPoint> {
    if s.len() > cap {
        s.subrange(s.len() - cap, s.len() as int)
    } else {
        s
    }
}

/// Running totals of the samples folded so far into the next coarser point.
pub struct RollupTotals {
    pub count: nat,
    pub dl_sum: nat,
    pub ul_sum: nat,
    pub backoff_max: nat,
}

/// `acc` with one more sample folded in.
pub open spec fn totals_push(acc: RollupTotals, p: NetworkHistoryPoint) -> RollupTotals {
    RollupTotals {
        count: acc.count + 1,
        dl_sum: (acc.dl_sum + p.download_bps) as nat,
        ul_sum: (acc.ul_sum + p.upload_bps) as nat,
        backoff_max: if acc.backoff_max >= p.backoff_ms_max {
            acc.backoff_max
        } else {
            p.backoff_ms_max as nat
        },
    }
}

/// No sample folded in yet.
pub open spec fn totals_empty() -> RollupTotals {
    RollupTotals { count: 0, dl_sum: 0, ul_sum: 0, backoff_max: 0 }
}

/// The point summarizing `acc` at time `ts`: mean rates (rounded down) and the maximal backoff.
pub open spec fn rollup_point(acc: RollupTotals, ts: u64) -> NetworkHistoryPoint {
    if acc.count == 0 {
        NetworkHistoryPoint { ts_unix: ts, download_bps: 0, upload_bps: 0, backoff_ms_max: 0 }
    } else {
        NetworkHistoryPoint {
            ts_unix: ts,
            download_bps: (acc.dl_sum / acc.count) as u64,
            upload_bps: (acc.ul_sum / acc.count) as u64,
            backoff_ms_max: acc.backoff_max as u64,
        }
    }
}

#[derive(Debug, Clone, Copy)]
struct RollupAccumulator {
    count: u32,
    dl_sum: u128,
    ul_sum: u128,
    backoff_max: u64,
}

impl RollupAccumulator {
    spec fn view(&self) -> RollupTotals {
        RollupTotals {
            count: self.count as nat,
            dl_sum: self.dl_sum as nat,
            ul_sum: self.ul_sum as nat,
            backoff_max: self.backoff_max as nat,
        }
    }

    /// Sums stay within what `count` samples of `u64` rates can add up to.
    spec fn bounded(&self, limit: u32) -> bool {
        &&& self.count < limit
        &&& self.dl_sum <= self.count as int * u64::MAX as int
        &&& self.ul_sum <= self.count as int * u64::MAX as int
    }

    fn empty() -> (r: Self)
        ensures
            r.view() == totals_empty(),
            r.bounded(4),
    {
        RollupAccumulator { count: 0, dl_sum: 0, ul_sum: 0, backoff_max: 0 }
    }

    fn push(&mut self, point: &NetworkHistoryPoint)
        requires
            old(self).count < 60,
            old(self).dl_sum <= old(self).count as int * u64::MAX as int,
            old(self).ul_sum <= old(self).count as int * u64::MAX as int,
        ensures
            final(self).view() == totals_push(old(self).view(), *point),
            final(self).count == old(self).count + 1,
            final(self).dl_sum <= final(self).count as int * u64::MAX as int,
            final(self).ul_sum <= final(self).count as int * u64::MAX as int,
    {
        proof {
            let c: int = old(self).count as int;
            assert(c * u64::MAX as int + u64::MAX as int == (c + 1) * u64::MAX as int)
                by (nonlinear_arith);
            assert(c * u64::MAX as int <= 60 * u64::MAX as int) by (nonlinear_arith)
                requires
                    c < 60,
            ;
        }
        self.count = self.count + 1;
        self.dl_sum = self.dl_sum + point.download_bps as u128;
        self.ul_sum = self.ul_sum + point.upload_bps as u128;
        if point.backoff_ms_max > self.backoff_max {
            self.backoff_max = point.backoff_ms_max;
        }
    }
}

/// Summarizes the folded samples as one point stamped `ts_unix`.
fn make_rollup_point(acc: &RollupAccumulator, ts_unix: u64) -> (r: NetworkHistoryPoint)
    requires
        acc.dl_sum <= acc.count as int * u64::MAX as int,
        acc.ul_sum <= acc.count as int * u64::MAX as int,
    ensures
        r == rollup_point(acc.view(), ts_unix),
{
    if acc.count == 0 {
        return NetworkHistoryPoint { ts_unix, download_bps: 0, upload_bps: 0, backoff_ms_max: 0 };
    }
    proof {
        lemma_mean_fits(acc.dl_sum as int, acc.count as int);
        lemma_mean_fits(acc.ul_sum as int, acc.count as int);
    }
    NetworkHistoryPoint {
        ts_unix,
        download_bps: (acc.dl_sum / acc.count as u128) as u64,
        upload_bps: (acc.ul_sum / acc.count as u128) as u64,
        backoff_ms_max: acc.backoff_max,
    }
}

proof fn lemma_mean_fits(sum: int, count: int)
    requires
        count > 0,
        0 <= sum <= count * u64::MAX,
    ensures
        sum / count <= u64::MAX,
{
    assert(sum / count <= u64::MAX) by (nonlinear_arith)
        requires
            count > 0,
            0 <= sum <= count * u64::MAX,
    ;
}

/// Keeps only the newest `cap` points.
fn cap_vec(vec: &mut Vec<NetworkHistoryPoint>, cap: usize)
    ensures
        final(vec)@ == keep_newest(old(vec)@, cap as int),
{
    if vec.len() > cap {
        let overflow = vec.len() - cap;
        let tail = vec.split_off(overflow);
        *vec = tail;
    }
}

/// Trims every tier to its retention cap, dropping the oldest points.
pub fn enforce_retention_caps(state: &mut NetworkHistoryPersistedState)
    ensures
        final(state).tiers.second_1s@ == keep_newest(
            old(state).tiers.second_1s@,
            SECOND_1S_CAP as int,
        ),
        final(state).tiers.minute_1m@ == keep_newest(
            old(state).tiers.minute_1m@,
            MINUTE_1M_CAP as int,
        ),
        final(state).tiers.minute_15m@ == keep_newest(
            old(state).tiers.minute_15m@,
            MINUTE_15M_CAP as int,
        ),
        final(state).tiers.hour_1h@ == keep_newest(old(state).tiers.hour_1h@, HOUR_1H_CAP as int),
        final(state).schema_version == old(state).schema_version,
        final(state).updated_at_unix == old(state).updated_at_unix,
{
    cap_vec(&mut state.tiers.second_1s, SECOND_1S_CAP);
    cap_vec(&mut state.tiers.minute_1m, MINUTE_1M_CAP);
    cap_vec(&mut state.tiers.minute_15m, MINUTE_15M_CAP);
    cap_vec(&mut state.tiers.hour_1h, HOUR_1H_CAP);
}

/// The folding state of the rollup pipeline (seconds into minutes, minutes
/// into quarters of an hour, quarters into hours).
pub struct NetworkHistoryRollupState {
    second_to_minute: RollupAccumulator,
    minute_to_15m: RollupAccumulator,
    m15_to_hour: RollupAccumulator,
}

/// The abstract state of the rollup pipeline.
pub struct RollupView {
    pub second_to_minute: RollupTotals,
    pub minute_to_15m: RollupTotals,
    pub m15_to_hour: RollupTotals,
}

/// Whether a bucket holding `t` is full once it counts `limit` samples.
pub open spec fn roll(t: RollupTotals, limit: nat) -> bool {
    t.count >= limit
}

/// What one second sample does to the persisted tiers and to the rollup state:
/// the sample joins the one-second tier; a bucket that fills up is summarized
/// into the next tier and emptied, and the summary is folded one level up.
pub open spec fn ingest_spec(
    old_state: NetworkHistoryPersistedState,
    new_state: NetworkHistoryPersistedState,
    old_r: RollupView,
    new_r: RollupView,
    ts: u64,
    dl: u64,
    ul: u64,
    backoff: u64,
) -> bool {
    let p = NetworkHistoryPoint { ts_unix: ts, download_bps: dl, upload_bps: ul, backoff_ms_max: backoff };
    let s1 = totals_push(old_r.second_to_minute, p);
    let minute = rollup_point(s1, ts);
    let m1 = totals_push(old_r.minute_to_15m, minute);
    let quarter = rollup_point(m1, ts);
    let h1 = totals_push(old_r.m15_to_hour, quarter);
    let hour = rollup_point(h1, ts);
    &&& new_state.schema_version == old_state.schema_version
    &&& new_state.updated_at_unix == old_state.updated_at_unix
    &&& new_state.tiers.second_1s@ == keep_newest(
        old_state.tiers.second_1s@.push(p),
        SECOND_1S_CAP as int,
    )
    &&& if !roll(s1, SECONDS_PER_MINUTE_POINT as nat) {
        &&& new_r.second_to_minute == s1
        &&& new_r.minute_to_15m == old_r.minute_to_15m
        &&& new_r.m15_to_hour == old_r.m15_to_hour
        &&& new_state.tiers.minute_1m@ == old_state.tiers.minute_1m@
        &&& new_state.tiers.minute_15m@ == old_state.tiers.minute_15m@
        &&& new_state.tiers.hour_1h@ == old_state.tiers.hour_1h@
    } else {
        &&& new_r.second_to_minute == totals_empty()
        &&& new_state.tiers.minute_1m@ == keep_newest(
            old_state.tiers.minute_1m@.push(minute),
            MINUTE_1M_CAP as int,
        )
        &&& if !roll(m1, MINUTES_PER_15M_POINT as nat) {
            &&& new_r.minute_to_15m == m1
            &&& new_r.m15_to_hour == old_r.m15_to_hour
            &&& new_state.tiers.minute_15m@ == old_state.tiers.minute_15m@
            &&& new_state.tiers.hour_1h@ == old_state.tiers.hour_1h@
        } else {
            &&& new_r.minute_to_15m == totals_empty()
            &&& new_state.tiers.minute_15m@ == keep_newest(
                old_state.tiers.minute_15m@.push(quarter),
                MINUTE_15M_CAP as int,
            )
            &&& if !roll(h1, QUARTERS_PER_HOUR_POINT as nat) {
                &&& new_r.m15_to_hour == h1
                &&& new_state.tiers.hour_1h@ == old_state.tiers.hour_1h@
            } else {
                &&& new_r.m15_to_hour == totals_empty()
                &&& new_state.tiers.hour_1h@ == keep_newest(
                    old_state.tiers.hour_1h@.push(hour),
                    HOUR_1H_CAP as int,
                )
            }
        }
    }
}

impl NetworkHistoryRollupState {
    #[verifier::type_invariant]
    spec fn inv(self) -> bool {
        &&& self.second_to_minute.bounded(SECONDS_PER_MINUTE_POINT)
        &&& self.minute_to_15m.bounded(MINUTES_PER_15M_POINT)
        &&& self.m15_to_hour.bounded(QUARTERS_PER_HOUR_POINT)
    }

    pub closed spec fn view(&self) -> RollupView {
        RollupView {
            second_to_minute: self.second_to_minute.view(),
            minute_to_15m: self.minute_to_15m.view(),
            m15_to_hour: self.m15_to_hour.view(),
        }
    }

    /// Whether the pipeline is empty.
    pub open spec fn spec_is_fresh(&self) -> bool {
        &&& self@.second_to_minute == totals_empty()
        &&& self@.minute_to_15m == totals_empty()
        &&& self@.m15_to_hour == totals_empty()
    }

    /// Records one second sample: appends it to the one-second tier, and each
    /// time a coarser bucket fills up, appends its summary to the next tier.
    /// Every tier stays within its retention cap. Always returns `true`.
    pub fn ingest_second_sample(
        &mut self,
        state: &mut NetworkHistoryPersistedState,
        ts_unix: u64,
        download_bps: u64,
        upload_bps: u64,
        backoff_ms_max: u64,
    ) -> (r: bool)
        ensures
            r,
            ingest_spec(
                *old(state),
                *final(state),
                old(self)@,
                final(self)@,
                ts_unix,
                download_bps,
                upload_bps,
                backoff_ms_max,
            ),
    {
        proof {
            use_type_invariant(&*self);
        }
        let second_point = NetworkHistoryPoint {
            ts_unix,
            download_bps,
            upload_bps,
            backoff_ms_max,
        };
        state.tiers.second_1s.push(second_point);
        cap_vec(&mut state.tiers.second_1s, SECOND_1S_CAP);

        let mut s2m = self.second_to_minute;
        s2m.push(&second_point);
        if s2m.count >= 60 {
            let minute_point = make_rollup_point(&s2m, ts_unix);
            self.second_to_minute = RollupAccumulator::empty();

            state.tiers.minute_1m.push(minute_point);
            cap_vec(&mut state.tiers.minute_1m, MINUTE_1M_CAP);

            let mut m2q = self.minute_to_15m;
            m2q.push(&minute_point);
            if m2q.count >= 15 {
                let m15_point = make_rollup_point(&m2q, ts_unix);
                self.minute_to_15m = RollupAccumulator::empty();

                state.tiers.minute_15m.push(m15_point);
                cap_vec(&mut state.tiers.minute_15m, MINUTE_15M_CAP);

                let mut q2h = self.m15_to_hour;
                q2h.push(&m15_point);
                if q2h.count >= 4 {
                    let hour_point = make_rollup_point(&q2h, ts_unix);
                    self.m15_to_hour = RollupAccumulator::empty();

                    state.tiers.hour_1h.push(hour_point);
                    cap_vec(&mut state.tiers.hour_1h, HOUR_1H_CAP);
                } else {
                    self.m15_to_hour = q2h;
                }
            } else {
                self.minute_to_15m = m2q;
            }
        } else {
            self.second_to_minute = s2m;
        }
        true
    }
}

/// Whatever the tiers held before, one ingested sample leaves every tier within
/// its retention cap, with the new sample as the newest one-second point.
pub proof fn lemma_ingest_respects_caps(
    old_state: NetworkHistoryPersistedState,
    new_state: NetworkHistoryPersistedState,
    old_r: RollupView,
    new_r: RollupView,
    ts: u64,
    dl: u64,
    ul: u64,
    backoff: u64,
)
    requires
        ingest_spec(old_state, new_state, old_r, new_r, ts, dl, ul, backoff),
        old_state.tiers.minute_1m@.len() <= MINUTE_1M_CAP,
        old_state.tiers.minute_15m@.len() <= MINUTE_15M_CAP,
        old_state.tiers.hour_1h@.len() <= HOUR_1H_CAP,
    ensures
        new_state.tiers.second_1s@.len() <= SECOND_1S_CAP,
        new_state.tiers.minute_1m@.len() <= MINUTE_1M_CAP,
        new_state.tiers.minute_15m@.len() <= MINUTE_15M_CAP,
        new_state.tiers.hour_1h@.len() <= HOUR_1H_CAP,
        new_state.tiers.second_1s@.last() == (NetworkHistoryPoint {
            ts_unix: ts,
            download_bps: dl,
            upload_bps: ul,
            backoff_ms_max: backoff,
        }),
{
}

/// Trimming is idempotent: a state whose tiers are already within their caps
/// is left as it is.
pub proof fn lemma_retention_idempotent(s: Seq<NetworkHistoryPoint>, cap: int)
    requires
        cap >= 0,
    ensures
        keep_newest(keep_newest(s, cap), cap) == keep_newest(s, cap),
        keep_newest(s, cap).len() <= cap,
        s.len() <= cap ==> keep_newest(s, cap) == s,
{
}

impl Default for NetworkHistoryRollupState {
    fn default() -> (r: Self)
        ensures
            r.spec_is_fresh(),
    {
        NetworkHistoryRollupState {
            second_to_minute: RollupAccumulator::empty(),
            minute_to_15m: RollupAccumulator::empty(),
            m15_to_hour: RollupAccumulator::empty(),
        }
    }
}

/// Where the network history is kept: `persistence/network_history.toml`
/// inside the application's data folder (`app_paths` holds the config and
/// data folders, when they could be found).
pub fn network_history_state_file_path(app_paths: &Option<(String, String)>) -> (r: Option<String>)
    ensures
        match app_paths {
            None => r is None,
            Some((_, data)) => r matches Some(p) && p@ == path_join(
                path_join(data@, "persistence"@),
                "network_history.toml"@,
            ),
        },
{
    match app_paths {
        Some((_, data)) => {
            let dir = join_path(data.as_str(), "persistence");
            Some(join_path(dir.as_str(), "network_history.toml"))
        },
        None => None,
    }
}

} // verus!
