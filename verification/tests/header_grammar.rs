//! The rate-limit header grammar, URI assembly and decimal rendering on
//! concrete inputs.

use lol_match_crawler::errors::Error;
use lol_match_crawler::headers::parse_rate_limit_header;
use lol_match_crawler::endpoint_id::Region;
use lol_match_crawler::match_v4::{match_by_id_uri, matchlist_by_account_uri};
use lol_match_crawler::numfmt::{i32_to_string, i64_to_string, u64_to_string};
use lol_match_crawler::requests::region_uri;
use lol_match_crawler::summoner_v4::{by_account_uri, by_name_uri};

#[test]
fn parses_single_bucket() {
    assert_eq!(parse_rate_limit_header("20:1"), Ok(vec![(20, 1)]));
}

#[test]
fn parses_bucket_list() {
    assert_eq!(
        parse_rate_limit_header("20:1,100:120"),
        Ok(vec![(20, 1), (100, 120)])
    );
    assert_eq!(
        parse_rate_limit_header("1:10,2:20,3:30"),
        Ok(vec![(1, 10), (2, 20), (3, 30)])
    );
}

#[test]
fn parses_extreme_values() {
    assert_eq!(
        parse_rate_limit_header("18446744073709551615:1"),
        Ok(vec![(u64::MAX, 1)])
    );
    assert_eq!(parse_rate_limit_header("007:120"), Ok(vec![(7, 120)]));
    assert_eq!(parse_rate_limit_header("0:0"), Ok(vec![(0, 0)]));
}

#[test]
fn rejects_malformed_headers() {
    for bad in [
        "",
        "20",
        "20:",
        ":1",
        ":",
        "20:1:2",
        "20:1,",
        ",20:1",
        "a:1",
        "20:b",
        "2 0:1",
        "20:1, 100:120",
        "18446744073709551616:1",
        "-1:1",
        "+20:1",
    ] {
        assert_eq!(
            parse_rate_limit_header(bad),
            Err(Error::HeaderParse),
            "{bad:?} should be rejected"
        );
    }
}

#[test]
fn region_host_is_lowercase() {
    assert_eq!(region_uri(Region::Na1).as_str(), "https://na1.api.riotgames.com");
}

#[test]
fn relative_paths_are_exact() {
    assert_eq!(
        by_name_uri("hi").as_str(),
        "/lol/summoner/v4/summoners/by-name/hi"
    );
    assert_eq!(
        by_account_uri("abcDEF123").as_str(),
        "/lol/summoner/v4/summoners/by-account/abcDEF123"
    );
    assert_eq!(
        matchlist_by_account_uri("abcDEF123").as_str(),
        "/lol/match/v4/matchlists/by-account/abcDEF123"
    );
    assert_eq!(
        match_by_id_uri(3441283), "/lol/match/v4/matches/3441283"
    );
}

#[test]
fn decimal_rendering_is_exact() {
    assert_eq!(u64_to_string(0).as_str(), "0");
    assert_eq!(u64_to_string(7).as_str(), "7");
    assert_eq!(u64_to_string(1000).as_str(), "1000");
    assert_eq!(u64_to_string(u64::MAX).as_str(), "18446744073709551615");
    assert_eq!(i64_to_string(-1).as_str(), "-1");
    assert_eq!(i64_to_string(i64::MIN).as_str(), "-9223372036854775808");
    assert_eq!(i64_to_string(i64::MAX).as_str(), "9223372036854775807");
    assert_eq!(i32_to_string(-42).as_str(), "-42");
    assert_eq!(i32_to_string(i32::MIN).as_str(), "-2147483648");
}

#[test]
fn negative_match_ids_render_with_sign() {
    assert_eq!(match_by_id_uri(-5), "/lol/match/v4/matches/-5");
}
