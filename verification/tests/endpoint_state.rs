//! The endpoint state machine on concrete observations.

use lol_match_crawler::endpoint::{
    CooldownState, Endpoint, RateLimitBucket, Status, MAX_COOLDOWN_MILLIS,
};
use lol_match_crawler::errors::Error;

fn observed_endpoint(limits: Vec<(u64, u64)>, counts: Vec<(u64, u64)>, t: i64) -> Endpoint {
    let mut ep = Endpoint::new();
    ep.update_buckets(&limits, &counts, t);
    ep
}

#[test]
fn fresh_endpoint_is_unknown() {
    let ep = Endpoint::new();
    assert_eq!(ep.status(), Status::Unknown);
    assert_eq!(ep.bucket_count(), 0);
    assert_eq!(ep.last_update_time(), 0);
    assert_eq!(ep.should_cooldown(), None);
    assert_eq!(ep.most_likely_cd(), None);
}

#[test]
fn update_buckets_rebuilds_table() {
    let ep = observed_endpoint(vec![(20, 1), (100, 120)], vec![(1, 1), (1, 120)], 5_000);
    assert_eq!(ep.bucket_count(), 2);
    assert_eq!(
        ep.bucket(1),
        Some(RateLimitBucket {
            window_seconds: 1,
            count: 1,
            max_count: 20,
            window_start_millis: 5_000,
        })
    );
    assert_eq!(
        ep.bucket(120),
        Some(RateLimitBucket {
            window_seconds: 120,
            count: 1,
            max_count: 100,
            window_start_millis: 5_000,
        })
    );
    assert_eq!(ep.bucket(2), None);
    assert_eq!(ep.last_update_time(), 5_000);
}

#[test]
fn update_buckets_keeps_counts_within_limits() {
    // counts equal to the limits sit exactly at the bound
    let ep = observed_endpoint(vec![(20, 1), (100, 120)], vec![(20, 1), (99, 120)], 1);
    let b1 = ep.bucket(1).unwrap();
    let b120 = ep.bucket(120).unwrap();
    assert!(b1.count <= b1.max_count);
    assert!(b120.count <= b120.max_count);
    // a window with no count entry stays at zero
    let ep2 = observed_endpoint(vec![(20, 1), (100, 120)], vec![(3, 120)], 1);
    assert_eq!(ep2.bucket(1).unwrap().count, 0);
    assert_eq!(ep2.bucket(120).unwrap().count, 3);
}

#[test]
fn ok_fold_with_free_buckets_is_normal() {
    let mut ep = observed_endpoint(vec![(20, 1), (100, 120)], vec![(1, 1), (1, 120)], 1);
    assert_eq!(ep.should_cooldown(), None);
    ep.update_status_200(0);
    assert_eq!(ep.status(), Status::Normal);
    // folding again from Normal stays Normal
    ep.update_status_200(10);
    assert_eq!(ep.status(), Status::Normal);
}

#[test]
fn ok_fold_with_full_bucket_cools_down() {
    let mut ep = observed_endpoint(vec![(20, 1), (100, 120)], vec![(20, 1), (50, 120)], 1);
    assert_eq!(ep.should_cooldown(), Some(1));
    ep.update_status_200(7);
    assert_eq!(
        ep.status(),
        Status::Cooldown(CooldownState { start_millis: 7, duration_millis: 1_000 })
    );
}

#[test]
fn ok_fold_picks_smallest_full_window() {
    let mut ep = observed_endpoint(
        vec![(20, 1), (100, 120)],
        vec![(20, 1), (100, 120)],
        1,
    );
    ep.update_status_200(0);
    // both windows are full; the one-second window decides the duration
    assert_eq!(
        ep.status(),
        Status::Cooldown(CooldownState { start_millis: 0, duration_millis: 1_000 })
    );
}

#[test]
fn pre_query_expires_cooldown_into_probe() {
    let mut ep = Endpoint::new();
    ep.force_cd(1_000, 0);
    ep.update_status_pre_query(999);
    assert_eq!(
        ep.status(),
        Status::Cooldown(CooldownState { start_millis: 0, duration_millis: 1_000 })
    );
    ep.update_status_pre_query(1_000);
    assert_eq!(ep.status(), Status::JustOffCooldown(1_000));
    // repeated application leaves the probe state alone
    ep.update_status_pre_query(2_000);
    assert_eq!(ep.status(), Status::JustOffCooldown(1_000));
}

#[test]
fn probe_and_extend_doubles_cooldown() {
    let mut ep = Endpoint::new();
    ep.force_cd(1_000, 0);
    ep.update_status_pre_query(1_100);
    assert_eq!(ep.status(), Status::JustOffCooldown(1_000));
    ep.update_status_400(1_100);
    assert_eq!(
        ep.status(),
        Status::Cooldown(CooldownState { start_millis: 1_100, duration_millis: 2_000 })
    );
}

#[test]
fn doubling_caps_at_one_hour() {
    let mut ep = Endpoint::new();
    ep.force_cd(3_000_000, 0);
    ep.update_status_pre_query(3_000_000);
    assert_eq!(ep.status(), Status::JustOffCooldown(3_000_000));
    ep.update_status_400(3_000_000);
    assert_eq!(
        ep.status(),
        Status::Cooldown(CooldownState {
            start_millis: 3_000_000,
            duration_millis: MAX_COOLDOWN_MILLIS,
        })
    );
}

#[test]
fn status_429_leaves_other_states_alone() {
    let mut ep = Endpoint::new();
    ep.update_status_400(5);
    assert_eq!(ep.status(), Status::Unknown);
    let mut ep2 = observed_endpoint(vec![(20, 1)], vec![(1, 1)], 1);
    ep2.update_status_200(0);
    ep2.update_status_400(5);
    assert_eq!(ep2.status(), Status::Normal);
}

#[test]
fn cooldown_time_left_and_expiry() {
    let cd = CooldownState::new(100, 1_000);
    assert_eq!(cd.time_left(100), Some(1_000));
    assert_eq!(cd.time_left(600), Some(500));
    assert_eq!(cd.time_left(1_100), None);
    assert_eq!(cd.time_left(5_000), None);
    assert!(!cd.is_expired(1_099));
    assert!(cd.is_expired(1_100));
}

#[test]
fn error_for_status_refuses_only_cooldown() {
    let mut ep = Endpoint::new();
    assert!(ep.error_for_status(0).is_ok());
    ep.force_cd(1_000, 0);
    let err = ep.error_for_status(400).unwrap_err();
    assert_eq!(
        err,
        Error::EndpointNotReady {
            status: Status::Cooldown(CooldownState { start_millis: 0, duration_millis: 1_000 }),
            remaining_millis: 600,
        }
    );
    ep.update_status_pre_query(1_000);
    assert!(ep.error_for_status(1_000).is_ok());
}

#[test]
fn most_likely_cd_takes_least_headroom_then_shortest_window() {
    let ep = observed_endpoint(vec![(20, 1), (100, 120)], vec![(1, 1), (1, 120)], 1);
    assert_eq!(ep.most_likely_cd(), Some((19, 1)));
    let ep2 = observed_endpoint(vec![(20, 10), (20, 5)], vec![(15, 10), (15, 5)], 1);
    // equal headroom: the shorter window wins
    assert_eq!(ep2.most_likely_cd(), Some((5, 5)));
}
