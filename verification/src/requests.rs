//! Assembling one request: the full URI to fetch and the triple of
//! endpoint ids the call touches.

use vstd::prelude::*;

use crate::admission::AffectedIds;
use crate::endpoint_id::{Id, Region, Service};
use crate::match_v4;
use crate::numfmt::spec_idecimal;
use crate::summoner_v4;

verus! {

/// The lowercase host label of a region.
pub open spec fn spec_region_code(region: Region) -> Seq<char> {
    match region {
        Region::Na1 => "na1"@,
    }
}

/// The base URI of a region's API host.
pub open spec fn spec_region_uri(region: Region) -> Seq<char> {
    "https://"@ + spec_region_code(region) + ".api.riotgames.com"@
}

/// The lowercase host label of a region.
pub fn region_code(region: Region) -> (r: &'static str)
    ensures
        r@ == spec_region_code(region),
{
    match region {
        Region::Na1 => "na1",
    }
}

/// The base URI of a region's API host.
pub fn region_uri(region: Region) -> (r: String)
    ensures
        r@ == spec_region_uri(region),
{
    let mut s = String::from_str("https://");
    s.append(region_code(region));
    s.append(".api.riotgames.com");
    s
}

/// A request ready to go out: the URI to fetch and the endpoint triple
/// it touches.
#[derive(Debug)]
pub struct QueryPlan {
    /// The absolute URI of the GET request.
    pub uri: String,
    /// The affected endpoints, in admission order.
    pub ids: AffectedIds,
}

/// The ids a summoner-service call touches.
fn summoner_ids(region: Region, method: summoner_v4::Method) -> (ids: AffectedIds)
    ensures
        ids.spec_wf(),
        ids == (AffectedIds {
            region: Id::spec_from_region(region),
            service: Id::spec_from_service(region, Service::SummonerV4),
            method: Id::spec_from_method(Service::SummonerV4, method.spec_index()),
        }),
{
    AffectedIds {
        region: Id::from_region(region),
        service: Id::from_service(region, Service::SummonerV4),
        method: Id::from_method(Service::SummonerV4, method.index()),
    }
}

/// The ids a match-service call touches.
fn match_ids(region: Region, method: match_v4::Method) -> (ids: AffectedIds)
    ensures
        ids.spec_wf(),
        ids == (AffectedIds {
            region: Id::spec_from_region(region),
            service: Id::spec_from_service(region, Service::MatchV4),
            method: Id::spec_from_method(Service::MatchV4, method.spec_index()),
        }),
{
    AffectedIds {
        region: Id::from_region(region),
        service: Id::from_service(region, Service::MatchV4),
        method: Id::from_method(Service::MatchV4, method.index()),
    }
}

/// The request that looks a summoner up by name.
pub fn plan_summoner_by_name(region: Region, summoner_name: &str) -> (p: QueryPlan)
    ensures
        p.uri@ == spec_region_uri(region) + "/lol/summoner/v4/summoners/by-name/"@
            + summoner_name@,
        p.ids.spec_wf(),
        p.ids == (AffectedIds {
            region: Id::spec_from_region(region),
            service: Id::spec_from_service(region, Service::SummonerV4),
            method: Id::spec_from_method(
                Service::SummonerV4,
                summoner_v4::Method::ByName.spec_index(),
            ),
        }),
{
    let mut uri = region_uri(region);
    let path = summoner_v4::by_name_uri(summoner_name);
    uri.append(path.as_str());
    QueryPlan { uri, ids: summoner_ids(region, summoner_v4::Method::ByName) }
}

/// The request that looks a summoner up by encrypted account id.
pub fn plan_summoner_by_account(region: Region, encrypted_account_id: &str) -> (p: QueryPlan)
    ensures
        p.uri@ == spec_region_uri(region) + "/lol/summoner/v4/summoners/by-account/"@
            + encrypted_account_id@,
        p.ids.spec_wf(),
        p.ids == (AffectedIds {
            region: Id::spec_from_region(region),
            service: Id::spec_from_service(region, Service::SummonerV4),
            method: Id::spec_from_method(
                Service::SummonerV4,
                summoner_v4::Method::ByAccount.spec_index(),
            ),
        }),
{
    let mut uri = region_uri(region);
    let path = summoner_v4::by_account_uri(encrypted_account_id);
    uri.append(path.as_str());
    QueryPlan { uri, ids: summoner_ids(region, summoner_v4::Method::ByAccount) }
}

/// The request that fetches a participant's match history.
pub fn plan_matchlist_by_account(region: Region, encrypted_account_id: &str) -> (p: QueryPlan)
    ensures
        p.uri@ == spec_region_uri(region) + "/lol/match/v4/matchlists/by-account/"@
            + encrypted_account_id@,
        p.ids.spec_wf(),
        p.ids == (AffectedIds {
            region: Id::spec_from_region(region),
            service: Id::spec_from_service(region, Service::MatchV4),
            method: Id::spec_from_method(
                Service::MatchV4,
                match_v4::Method::MatchlistByAccount.spec_index(),
            ),
        }),
{
    let mut uri = region_uri(region);
    let path = match_v4::matchlist_by_account_uri(encrypted_account_id);
    uri.append(path.as_str());
    QueryPlan { uri, ids: match_ids(region, match_v4::Method::MatchlistByAccount) }
}

/// The request that fetches one match by id.
pub fn plan_match_by_id(region: Region, match_id: i64) -> (p: QueryPlan)
    ensures
        p.uri@ == spec_region_uri(region) + "/lol/match/v4/matches/"@ + spec_idecimal(
            match_id as int,
        ),
        p.ids.spec_wf(),
        p.ids == (AffectedIds {
            region: Id::spec_from_region(region),
            service: Id::spec_from_service(region, Service::MatchV4),
            method: Id::spec_from_method(Service::MatchV4, match_v4::Method::MatchById.spec_index()),
        }),
{
    let mut uri = region_uri(region);
    let path = match_v4::match_by_id_uri(match_id);
    uri.append(path.as_str());
    QueryPlan { uri, ids: match_ids(region, match_v4::Method::MatchById) }
}

} // verus!
