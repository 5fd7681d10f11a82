//! The match service: its payload shapes, its methods and their relative
//! paths.

use vstd::prelude::*;

use crate::numfmt::{i64_to_string, spec_idecimal};

verus! {

/// One page of a participant's match history.
#[derive(Debug, Clone)]
pub struct MatchlistDto {
    /// Index of the first entry of the page.
    pub start_index: i32,
    /// Total number of games in the history.
    pub total_games: i32,
    /// Index one past the last entry of the page.
    pub end_index: i32,
    /// The match references of the page.
    pub matches: Vec<MatchReferenceDto>,
}

/// One entry of a match history.
#[derive(Debug, Clone)]
pub struct MatchReferenceDto {
    /// The match id.
    pub game_id: i64,
    /// Role the participant played.
    pub role: String,
    /// Season of the match.
    pub season: i32,
    /// Platform the match was played on.
    pub platform_id: String,
    /// Champion the participant played.
    pub champion: i32,
    /// Queue the match was played in.
    pub queue: i32,
    /// Lane the participant played.
    pub lane: String,
    /// When the match was played, epoch milliseconds.
    pub timestamp: i64,
}

/// The full record of one match.
#[derive(Debug, Clone)]
pub struct MatchDto {
    /// The match id.
    pub game_id: i64,
    /// Who played in the match.
    pub participant_identities: Vec<ParticipantIdentityDto>,
    /// Queue the match was played in.
    pub queue_id: i32,
    /// Kind of game.
    pub game_type: String,
    /// Length of the game in seconds.
    pub game_duration: i64,
    /// Per-team statistics.
    pub teams: Vec<TeamStatsDto>,
    /// Platform the match was played on.
    pub platform_id: String,
    /// When the game was created, epoch milliseconds.
    pub game_creation: i64,
    /// Season of the match.
    pub season_id: i32,
    /// Game client version.
    pub game_version: String,
    /// Map the game was played on.
    pub map_id: i64,
    /// Mode of the game.
    pub game_mode: String,
    /// Per-participant data.
    pub participants: Vec<ParticipantDto>,
}

/// Links a participant number to a player.
#[derive(Debug, Clone)]
pub struct ParticipantIdentityDto {
    /// The participant number within the match.
    pub participant_id: i64,
    /// The player behind the participant.
    pub player: PlayerDto,
}

/// A player as the match service identifies one.
#[derive(Debug, Clone)]
pub struct PlayerDto {
    /// Id of the profile icon.
    pub profile_icon: i32,
    /// Encrypted account id.
    pub account_id: String,
    /// Relative path of the player's match history.
    pub match_history_uri: String,
    /// Encrypted account id of the currently linked account.
    pub current_account_id: String,
    /// Platform of the currently linked account.
    pub current_platform_id: String,
    /// Summoner name.
    pub summoner_name: String,
    /// Encrypted summoner id.
    pub summoner_id: String,
    /// Platform the player belongs to.
    pub platform_id: String,
}

/// Per-team statistics of one match.
#[derive(Debug, Clone)]
pub struct TeamStatsDto {
    /// Towers destroyed.
    pub tower_kills: i32,
    /// Rift heralds taken.
    pub rift_herald_kills: i32,
    /// Whether the team drew first blood.
    pub first_blood: bool,
    /// Inhibitors destroyed.
    pub inhibitor_kills: i32,
    /// Champions the team banned.
    pub bans: Vec<TeamBansDto>,
    /// Whether the team took the first baron.
    pub first_baron: bool,
    /// Whether the team took the first dragon.
    pub first_dragon: bool,
    /// Dominion victory score.
    pub dominion_victory_score: i32,
    /// Dragons taken.
    pub dragon_kills: i32,
    /// Barons taken.
    pub baron_kills: i32,
    /// Whether the team destroyed the first inhibitor.
    pub first_inhibitor: bool,
    /// Whether the team destroyed the first tower.
    pub first_tower: bool,
    /// Vilemaws taken.
    pub vilemaw_kills: i32,
    /// Whether the team took the first rift herald.
    pub first_rift_herald: bool,
    /// The team number.
    pub team_id: i32,
    /// Whether the team won, as the service spells it.
    pub win: String,
}

/// One banned champion.
#[derive(Debug, Clone)]
pub struct TeamBansDto {
    /// The banned champion.
    pub champion_id: i32,
    /// Turn of the ban.
    pub pick_turn: i32,
}

/// Per-participant data of one match.
#[derive(Debug, Clone)]
pub struct ParticipantDto {
    /// The participant number within the match.
    pub participant_id: i32,
    /// Champion the participant played.
    pub champion_id: i32,
    /// Runes the participant took.
    pub runes: Vec<RuneDto>,
    /// End-of-game statistics.
    pub stats: ParticipantStatsDto,
    /// The team the participant played on.
    pub team_id: i32,
    /// Per-lane timeline summary.
    pub timeline: ParticipantTimelineDto,
    /// First summoner spell.
    pub spell1_id: i32,
    /// Second summoner spell.
    pub spell2_id: i32,
    /// Highest ranked tier the participant reached in past seasons.
    pub highest_achieved_season_tier: String,
    /// Masteries the participant took.
    pub masteries: Vec<MasteryDto>,
}

/// One rune and its rank.
#[derive(Debug, Clone, Copy)]
pub struct RuneDto {
    /// The rune.
    pub rune_id: i32,
    /// Its rank.
    pub rank: i32,
}

/// End-of-game statistics of one participant.
#[derive(Debug, Clone)]
pub struct ParticipantStatsDto {
    pub item0: i32,
    pub item1: i32,
    pub item2: i32,
    pub item3: i32,
    pub item4: i32,
    pub item5: i32,
    pub item6: i32,
    pub kills: i32,
    pub deaths: i32,
    pub assists: i32,
    pub champ_level: i32,
    pub win: bool,
    pub double_kills: i32,
    pub triple_kills: i32,
    pub quadra_kills: i32,
    pub penta_kills: i32,
    pub unreal_kills: i32,
    pub killing_sprees: i32,
    pub largest_killing_spree: i32,
    pub largest_multi_kill: i32,
    pub largest_critical_strike: i32,
    pub gold_earned: i32,
    pub gold_spent: i32,
    pub total_minions_killed: i32,
    pub neutral_minions_killed: i32,
    pub neutral_minions_killed_team_jungle: i32,
    pub neutral_minions_killed_enemy_jungle: i32,
    pub total_damage_dealt: i64,
    pub total_damage_dealt_to_champions: i64,
    pub physical_damage_dealt: i64,
    pub physical_damage_dealt_to_champions: i64,
    pub magic_damage_dealt: i64,
    pub magic_damage_dealt_to_champions: i64,
    pub true_damage_dealt: i64,
    pub true_damage_dealt_to_champions: i64,
    pub total_damage_taken: i64,
    pub physical_damage_taken: i64,
    pub magical_damage_taken: i64,
    pub true_damage_taken: i64,
    pub damage_self_mitigated: i64,
    pub damage_dealt_to_objectives: i64,
    pub damage_dealt_to_turrets: i64,
    pub total_heal: i64,
    pub total_units_healed: i32,
    pub vision_score: i64,
    pub wards_placed: i32,
    pub wards_killed: i32,
    pub vision_wards_bought_in_game: i32,
    pub sight_wards_bought_in_game: i32,
    pub turret_kills: i32,
    pub inhibitor_kills: i32,
    pub first_blood_kill: bool,
    pub first_blood_assist: bool,
    pub first_tower_kill: bool,
    pub first_tower_assist: bool,
    pub first_inhibitor_kill: bool,
    pub first_inhibitor_assist: bool,
    pub longest_time_spent_living: i32,
    pub total_time_crowd_control_dealt: i32,
    pub time_c_cing_others: i64,
    pub participant_id: i32,
}

/// The lane summary of one participant; the per-minute delta tables the
/// service also reports are floating point and stay with the HTTP layer.
#[derive(Debug, Clone)]
pub struct ParticipantTimelineDto {
    /// The participant number within the match.
    pub participant_id: i32,
    /// Role the participant played.
    pub role: String,
    /// Lane the participant played.
    pub lane: String,
}

/// One mastery and its rank.
#[derive(Debug, Clone, Copy)]
pub struct MasteryDto {
    /// Its rank.
    pub rank: i32,
    /// The mastery.
    pub mastery_id: i32,
}

/// The methods of the match service.
#[derive(Debug, PartialEq, Eq, Structural, Hash, Clone, Copy)]
pub enum Method {
    /// Fetch a participant's match history.
    MatchlistByAccount,
    /// Fetch one match by id.
    MatchById,
}

impl Method {
    /// Position of the method in the service's id range.
    pub open spec fn spec_index(self) -> u32 {
        match self {
            Method::MatchlistByAccount => 0,
            Method::MatchById => 1,
        }
    }

    /// Position of the method in the service's id range.
    pub fn index(self) -> (r: u32)
        ensures
            r == self.spec_index(),
            r < 2,
    {
        match self {
            Method::MatchlistByAccount => 0,
            Method::MatchById => 1,
        }
    }
}

/// The relative path of a match-history lookup.
pub fn matchlist_by_account_uri(encrypted_account_id: &str) -> (r: String)
    ensures
        r@ == "/lol/match/v4/matchlists/by-account/"@ + encrypted_account_id@,
{
    let mut s = String::from_str("/lol/match/v4/matchlists/by-account/");
    s.append(encrypted_account_id);
    s
}

/// The relative path of a match lookup.
pub fn match_by_id_uri(match_id: i64) -> (r: String)
    ensures
        r@ == "/lol/match/v4/matches/"@ + spec_idecimal(match_id as int),
{
    let mut s = String::from_str("/lol/match/v4/matches/");
    let digits = i64_to_string(match_id);
    s.append(digits.as_str());
    s
}

} // verus!
