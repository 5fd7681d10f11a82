//! Whole-call flows through admission, response handling and the
//! endpoint table.

use lol_match_crawler::admission::{
    handle_response, prepare_to_query, ResponseHeaders,
};
use lol_match_crawler::endpoint::{CooldownState, RateLimitBucket, Status};
use lol_match_crawler::errors::Error;
use lol_match_crawler::endpoint_id::Region;
use lol_match_crawler::requests::plan_summoner_by_name;
use lol_match_crawler::table::EndpointTable;

fn headers_ok(date: &str, app_limit: &str, app_count: &str) -> ResponseHeaders {
    ResponseHeaders {
        date: Some(date.to_string()),
        app_limit: Some(app_limit.to_string()),
        app_count: Some(app_count.to_string()),
        method_limit: Some("20:1".to_string()),
        method_count: Some("1:1".to_string()),
    }
}

fn no_headers() -> ResponseHeaders {
    ResponseHeaders {
        date: None,
        app_limit: None,
        app_count: None,
        method_limit: None,
        method_count: None,
    }
}

// epoch milliseconds of "Mon, 01 Jan 2024 00:00:00 GMT"
const T0: i64 = 1_704_067_200_000;

#[test]
fn happy_path_builds_region_buckets() {
    let mut table = EndpointTable::new();
    let plan = plan_summoner_by_name(Region::Na1, "hi");
    assert_eq!(
        plan.uri.as_str(),
        "https://na1.api.riotgames.com/lol/summoner/v4/summoners/by-name/hi"
    );
    assert!(prepare_to_query(&mut table, &plan.ids, 0).is_ok());
    let h = headers_ok("Mon, 01 Jan 2024 00:00:00 GMT", "20:1,100:120", "1:1,1:120");
    let r = handle_response(&mut table, &plan.ids, 200, &h, 0);
    assert!(r.is_ok());
    let region = table.get(plan.ids.region).unwrap();
    assert_eq!(region.status(), Status::Normal);
    assert_eq!(region.bucket_count(), 2);
    assert_eq!(
        region.bucket(1),
        Some(RateLimitBucket {
            window_seconds: 1,
            count: 1,
            max_count: 20,
            window_start_millis: T0,
        })
    );
    assert_eq!(
        region.bucket(120),
        Some(RateLimitBucket {
            window_seconds: 120,
            count: 1,
            max_count: 100,
            window_start_millis: T0,
        })
    );
    assert_eq!(region.last_update_time(), T0);
    let service = table.get(plan.ids.service).unwrap();
    assert_eq!(service.status(), Status::Normal);
    assert_eq!(service.bucket_count(), 0);
    assert_eq!(service.should_cooldown(), None);
}

#[test]
fn proactive_cooldown_refuses_the_next_call() {
    let mut table = EndpointTable::new();
    let plan = plan_summoner_by_name(Region::Na1, "hi");
    assert!(prepare_to_query(&mut table, &plan.ids, 0).is_ok());
    let h = headers_ok("Mon, 01 Jan 2024 00:00:00 GMT", "20:1", "20:1");
    // the 200 itself succeeds even though it fills the window
    assert!(handle_response(&mut table, &plan.ids, 200, &h, 0).is_ok());
    let region = table.get(plan.ids.region).unwrap();
    assert_eq!(
        region.status(),
        Status::Cooldown(CooldownState { start_millis: 0, duration_millis: 1_000 })
    );
    // an immediate second call is refused with the remaining cooldown
    let err = prepare_to_query(&mut table, &plan.ids, 10).unwrap_err();
    match err {
        Error::EndpointNotReady { status, remaining_millis } => {
            assert_eq!(
                status,
                Status::Cooldown(CooldownState { start_millis: 0, duration_millis: 1_000 })
            );
            assert!(remaining_millis > 0 && remaining_millis <= 1_000);
            assert_eq!(err.retry_time(), Some(remaining_millis));
            assert!(err.can_retry());
        },
        _ => panic!("expected an admission refusal"),
    }
}

#[test]
fn stale_observation_changes_nothing() {
    let mut table = EndpointTable::new();
    let plan = plan_summoner_by_name(Region::Na1, "hi");
    assert!(prepare_to_query(&mut table, &plan.ids, 0).is_ok());
    let newer = headers_ok("Mon, 01 Jan 2024 00:00:05 GMT", "20:1", "2:1");
    assert!(handle_response(&mut table, &plan.ids, 200, &newer, 0).is_ok());
    // a response dated five seconds earlier arrives afterwards
    let older = headers_ok("Mon, 01 Jan 2024 00:00:00 GMT", "20:1", "9:1");
    assert!(handle_response(&mut table, &plan.ids, 200, &older, 0).is_ok());
    let region = table.get(plan.ids.region).unwrap();
    assert_eq!(region.last_update_time(), T0 + 5_000);
    assert_eq!(region.bucket(1).unwrap().count, 2);
    assert_eq!(region.bucket(1).unwrap().window_start_millis, T0 + 5_000);
}

#[test]
fn many_requests_forces_cooldown_on_tightest_endpoint() {
    let mut table = EndpointTable::new();
    let plan = plan_summoner_by_name(Region::Na1, "hi");
    assert!(prepare_to_query(&mut table, &plan.ids, 0).is_ok());
    let h = headers_ok("Mon, 01 Jan 2024 00:00:00 GMT", "20:1,100:120", "1:1,1:120");
    assert!(handle_response(&mut table, &plan.ids, 200, &h, 0).is_ok());
    // a 429 with no endpoint on cooldown: the one with least headroom is forced
    let err = handle_response(&mut table, &plan.ids, 429, &no_headers(), 50).unwrap_err();
    assert_eq!(err, Error::TooManyRequests { retry_after_millis: 1_000 });
    let region = table.get(plan.ids.region).unwrap();
    assert_eq!(
        region.status(),
        Status::Cooldown(CooldownState { start_millis: 50, duration_millis: 1_000 })
    );
    let method = table.get(plan.ids.method).unwrap();
    assert_eq!(method.status(), Status::Normal);
}

#[test]
fn many_requests_with_no_data_cools_everything_down() {
    let mut table = EndpointTable::new();
    let plan = plan_summoner_by_name(Region::Na1, "hi");
    assert!(prepare_to_query(&mut table, &plan.ids, 0).is_ok());
    let err = handle_response(&mut table, &plan.ids, 429, &no_headers(), 7).unwrap_err();
    assert_eq!(err, Error::TooManyRequests { retry_after_millis: 15_000 });
    for id in [plan.ids.region, plan.ids.service, plan.ids.method] {
        let ep = table.get(id).unwrap();
        assert_eq!(
            ep.status(),
            Status::Cooldown(CooldownState { start_millis: 7, duration_millis: 15_000 })
        );
    }
}

#[test]
fn probe_429_doubles_without_forcing_others() {
    let mut table = EndpointTable::new();
    let plan = plan_summoner_by_name(Region::Na1, "hi");
    assert!(prepare_to_query(&mut table, &plan.ids, 0).is_ok());
    // put every endpoint on the default cooldown via a blind 429
    assert!(handle_response(&mut table, &plan.ids, 429, &no_headers(), 0).is_err());
    // wait out the cooldown: admission turns all three into probes
    assert!(prepare_to_query(&mut table, &plan.ids, 15_000).is_ok());
    assert_eq!(
        table.get(plan.ids.region).unwrap().status(),
        Status::JustOffCooldown(15_000)
    );
    // the probe hits another 429: every probe doubles its own cooldown
    let err = handle_response(&mut table, &plan.ids, 429, &no_headers(), 15_000).unwrap_err();
    assert_eq!(err, Error::TooManyRequests { retry_after_millis: 30_000 });
    assert_eq!(
        table.get(plan.ids.region).unwrap().status(),
        Status::Cooldown(CooldownState { start_millis: 15_000, duration_millis: 30_000 })
    );
}

#[test]
fn other_status_codes_change_nothing() {
    let mut table = EndpointTable::new();
    let plan = plan_summoner_by_name(Region::Na1, "hi");
    assert!(prepare_to_query(&mut table, &plan.ids, 0).is_ok());
    let err = handle_response(&mut table, &plan.ids, 404, &no_headers(), 0).unwrap_err();
    assert_eq!(err, Error::HttpStatus(404));
    assert!(!err.can_retry());
    assert_eq!(err.retry_time(), None);
    assert_eq!(table.get(plan.ids.region).unwrap().status(), Status::Unknown);
    assert_eq!(table.get(plan.ids.region).unwrap().bucket_count(), 0);
}

#[test]
fn malformed_rate_limit_header_is_fatal_for_the_call() {
    let mut table = EndpointTable::new();
    let plan = plan_summoner_by_name(Region::Na1, "hi");
    assert!(prepare_to_query(&mut table, &plan.ids, 0).is_ok());
    let h = headers_ok("Mon, 01 Jan 2024 00:00:00 GMT", "20:", "1:1");
    let err = handle_response(&mut table, &plan.ids, 200, &h, 0).unwrap_err();
    assert_eq!(err, Error::HeaderParse);
    // statuses were not advanced
    assert_eq!(table.get(plan.ids.region).unwrap().status(), Status::Unknown);
}

#[test]
fn malformed_date_header_is_fatal_for_the_call() {
    let mut table = EndpointTable::new();
    let plan = plan_summoner_by_name(Region::Na1, "hi");
    assert!(prepare_to_query(&mut table, &plan.ids, 0).is_ok());
    let h = headers_ok("yesterday at noon", "20:1", "1:1");
    let err = handle_response(&mut table, &plan.ids, 200, &h, 0).unwrap_err();
    assert_eq!(err, Error::HeaderParse);
}

#[test]
fn count_above_limit_is_rejected_as_malformed() {
    let mut table = EndpointTable::new();
    let plan = plan_summoner_by_name(Region::Na1, "hi");
    assert!(prepare_to_query(&mut table, &plan.ids, 0).is_ok());
    let h = headers_ok("Mon, 01 Jan 2024 00:00:00 GMT", "20:1", "25:1");
    let err = handle_response(&mut table, &plan.ids, 200, &h, 0).unwrap_err();
    assert_eq!(err, Error::HeaderParse);
}
