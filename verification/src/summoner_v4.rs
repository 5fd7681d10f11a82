//! The summoner service: its payload shape, its methods and their
//! relative paths.

use vstd::prelude::*;

verus! {

/// An account record as the summoner service returns it.
#[derive(Debug, Clone)]
pub struct SummonerDto {
    /// Encrypted account id.
    pub account_id: String,
    /// Id of the summoner icon for the account.
    pub profile_icon_id: i32,
    /// Date of last modification, epoch milliseconds.
    pub revision_date: i64,
    /// Summoner name.
    pub name: String,
    /// Encrypted summoner id.
    pub id: String,
    /// Encrypted universally unique id.
    pub puuid: String,
    /// Level of the summoner.
    pub summoner_level: i64,
}

/// The methods of the summoner service.
#[derive(Debug, PartialEq, Eq, Structural, Hash, Clone, Copy)]
pub enum Method {
    /// Look a summoner up by encrypted account id.
    ByAccount,
    /// Look a summoner up by name.
    ByName,
}

impl Method {
    /// Position of the method in the service's id range.
    pub open spec fn spec_index(self) -> u32 {
        match self {
            Method::ByAccount => 0,
            Method::ByName => 1,
        }
    }

    /// Position of the method in the service's id range.
    pub fn index(self) -> (r: u32)
        ensures
            r == self.spec_index(),
            r < 2,
    {
        match self {
            Method::ByAccount => 0,
            Method::ByName => 1,
        }
    }
}

/// The relative path of a by-account lookup.
pub fn by_account_uri(encrypted_account_id: &str) -> (r: String)
    ensures
        r@ == "/lol/summoner/v4/summoners/by-account/"@ + encrypted_account_id@,
{
    let mut s = String::from_str("/lol/summoner/v4/summoners/by-account/");
    s.append(encrypted_account_id);
    s
}

/// The relative path of a by-name lookup.
pub fn by_name_uri(summoner_name: &str) -> (r: String)
    ensures
        r@ == "/lol/summoner/v4/summoners/by-name/"@ + summoner_name@,
{
    let mut s = String::from_str("/lol/summoner/v4/summoners/by-name/");
    s.append(summoner_name);
    s
}

} // verus!
