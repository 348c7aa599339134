use superseedr_core::persistence::network_history::{
    enforce_retention_caps, NetworkHistoryPersistedState, NetworkHistoryPoint,
    NetworkHistoryRollupState, NetworkHistoryTiers, HOUR_1H_CAP, MINUTE_15M_CAP, MINUTE_1M_CAP,
    NETWORK_HISTORY_SCHEMA_VERSION, SECOND_1S_CAP,
};

fn points(n: usize) -> Vec<NetworkHistoryPoint> {
    (0..n)
        .map(|i| NetworkHistoryPoint {
            ts_unix: i as u64,
            ..Default::default()
        })
        .collect()
}

#[test]
fn retention_caps_trim_oldest_points() {
    let mut state = NetworkHistoryPersistedState::default();

    state.tiers.second_1s = points(SECOND_1S_CAP + 10);
    state.tiers.minute_1m = points(MINUTE_1M_CAP + 10);
    state.tiers.minute_15m = points(MINUTE_15M_CAP + 10);
    state.tiers.hour_1h = points(HOUR_1H_CAP + 10);

    enforce_retention_caps(&mut state);

    assert_eq!(state.tiers.second_1s.len(), SECOND_1S_CAP);
    assert_eq!(state.tiers.minute_1m.len(), MINUTE_1M_CAP);
    assert_eq!(state.tiers.minute_15m.len(), MINUTE_15M_CAP);
    assert_eq!(state.tiers.hour_1h.len(), HOUR_1H_CAP);
    assert_eq!(state.tiers.second_1s.first().map(|p| p.ts_unix), Some(10));
}

#[test]
fn rollup_pipeline_emits_expected_aggregates() {
    let mut state = NetworkHistoryPersistedState::default();
    let mut rollups = NetworkHistoryRollupState::default();

    // 3600 seconds => 60 minute points => 4 x 15m points => 1 hour point
    for i in 1..=3600_u64 {
        let dl = i;
        let ul = i * 2;
        let backoff = i % 100;
        assert!(rollups.ingest_second_sample(&mut state, i, dl, ul, backoff));
    }

    assert_eq!(state.tiers.second_1s.len(), 3600);
    assert_eq!(state.tiers.minute_1m.len(), 60);
    assert_eq!(state.tiers.minute_15m.len(), 4);
    assert_eq!(state.tiers.hour_1h.len(), 1);

    let minute_1 = &state.tiers.minute_1m[0];
    // average of 1..=60
    assert_eq!(minute_1.download_bps, 30);
    assert_eq!(minute_1.upload_bps, 61);
    assert_eq!(minute_1.backoff_ms_max, 60);

    let hour = &state.tiers.hour_1h[0];
    // average of 1..=3600
    assert_eq!(hour.download_bps, 1800);
    assert_eq!(hour.upload_bps, 3601);
    assert_eq!(hour.backoff_ms_max, 99);
}

#[test]
fn default_state_is_empty_with_current_schema() {
    let state = NetworkHistoryPersistedState::default();
    assert_eq!(state.schema_version, NETWORK_HISTORY_SCHEMA_VERSION);
    assert_eq!(state.updated_at_unix, 0);
    assert_eq!(state.tiers, NetworkHistoryTiers::default());
}

#[test]
fn retention_leaves_short_tiers_alone() {
    let mut state = NetworkHistoryPersistedState::default();
    state.tiers.second_1s = points(5);
    let before = state.clone();
    enforce_retention_caps(&mut state);
    assert_eq!(state, before);
}

#[test]
fn ingest_caps_second_tier_and_keeps_newest() {
    let mut state = NetworkHistoryPersistedState::default();
    let mut rollups = NetworkHistoryRollupState::default();
    for i in 0..(SECOND_1S_CAP as u64 + 5) {
        rollups.ingest_second_sample(&mut state, i, 0, 0, 0);
    }
    assert_eq!(state.tiers.second_1s.len(), SECOND_1S_CAP);
    assert_eq!(state.tiers.second_1s[0].ts_unix, 5);
    assert_eq!(
        state.tiers.second_1s.last().map(|p| p.ts_unix),
        Some(SECOND_1S_CAP as u64 + 4)
    );
}

#[test]
fn partial_minute_emits_nothing() {
    let mut state = NetworkHistoryPersistedState::default();
    let mut rollups = NetworkHistoryRollupState::default();
    for i in 0..59_u64 {
        rollups.ingest_second_sample(&mut state, i, 100, 100, 7);
    }
    assert_eq!(state.tiers.minute_1m.len(), 0);
    rollups.ingest_second_sample(&mut state, 59, 100, 100, 3);
    assert_eq!(state.tiers.minute_1m.len(), 1);
    assert_eq!(state.tiers.minute_1m[0].ts_unix, 59);
    assert_eq!(state.tiers.minute_1m[0].download_bps, 100);
    assert_eq!(state.tiers.minute_1m[0].backoff_ms_max, 7);
}
