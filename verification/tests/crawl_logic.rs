//! The crawler's decisions: reserving matches, picking participants and
//! flattening records.

use lol_match_crawler::crawler::{
    match_to_line, pick_participant_account, reserve_new_match_id, SeenMatches,
};
use lol_match_crawler::match_v4::{
    MasteryDto, MatchDto, MatchReferenceDto, MatchlistDto, ParticipantDto,
    ParticipantIdentityDto, ParticipantStatsDto, ParticipantTimelineDto, PlayerDto, RuneDto,
};

fn match_ref(game_id: i64) -> MatchReferenceDto {
    MatchReferenceDto {
        game_id,
        role: "DUO".to_string(),
        season: 13,
        platform_id: "NA1".to_string(),
        champion: 17,
        queue: 420,
        lane: "MID".to_string(),
        timestamp: 0,
    }
}

fn matchlist(ids: &[i64]) -> MatchlistDto {
    MatchlistDto {
        start_index: 0,
        total_games: ids.len() as i32,
        end_index: ids.len() as i32,
        matches: ids.iter().copied().map(match_ref).collect(),
    }
}

fn zero_stats() -> ParticipantStatsDto {
    ParticipantStatsDto {
        item0: 0,
        item1: 0,
        item2: 0,
        item3: 0,
        item4: 0,
        item5: 0,
        item6: 0,
        kills: 0,
        deaths: 0,
        assists: 0,
        champ_level: 0,
        win: false,
        double_kills: 0,
        triple_kills: 0,
        quadra_kills: 0,
        penta_kills: 0,
        unreal_kills: 0,
        killing_sprees: 0,
        largest_killing_spree: 0,
        largest_multi_kill: 0,
        largest_critical_strike: 0,
        gold_earned: 0,
        gold_spent: 0,
        total_minions_killed: 0,
        neutral_minions_killed: 0,
        neutral_minions_killed_team_jungle: 0,
        neutral_minions_killed_enemy_jungle: 0,
        total_damage_dealt: 0,
        total_damage_dealt_to_champions: 0,
        physical_damage_dealt: 0,
        physical_damage_dealt_to_champions: 0,
        magic_damage_dealt: 0,
        magic_damage_dealt_to_champions: 0,
        true_damage_dealt: 0,
        true_damage_dealt_to_champions: 0,
        total_damage_taken: 0,
        physical_damage_taken: 0,
        magical_damage_taken: 0,
        true_damage_taken: 0,
        damage_self_mitigated: 0,
        damage_dealt_to_objectives: 0,
        damage_dealt_to_turrets: 0,
        total_heal: 0,
        total_units_healed: 0,
        vision_score: 0,
        wards_placed: 0,
        wards_killed: 0,
        vision_wards_bought_in_game: 0,
        sight_wards_bought_in_game: 0,
        turret_kills: 0,
        inhibitor_kills: 0,
        first_blood_kill: false,
        first_blood_assist: false,
        first_tower_kill: false,
        first_tower_assist: false,
        first_inhibitor_kill: false,
        first_inhibitor_assist: false,
        longest_time_spent_living: 0,
        total_time_crowd_control_dealt: 0,
        time_c_cing_others: 0,
        participant_id: 0,
    }
}

fn participant(champion_id: i32, spell1: i32, spell2: i32, tier: &str) -> ParticipantDto {
    ParticipantDto {
        participant_id: 1,
        champion_id,
        runes: vec![RuneDto { rune_id: 8005, rank: 2 }],
        stats: zero_stats(),
        team_id: 100,
        timeline: ParticipantTimelineDto {
            participant_id: 1,
            role: "DUO".to_string(),
            lane: "MID".to_string(),
        },
        spell1_id: spell1,
        spell2_id: spell2,
        highest_achieved_season_tier: tier.to_string(),
        masteries: vec![MasteryDto { rank: 1, mastery_id: 6111 }],
    }
}

fn identity(account_id: &str) -> ParticipantIdentityDto {
    ParticipantIdentityDto {
        participant_id: 1,
        player: PlayerDto {
            profile_icon: 0,
            account_id: account_id.to_string(),
            match_history_uri: String::new(),
            current_account_id: account_id.to_string(),
            current_platform_id: "NA1".to_string(),
            summoner_name: "hi".to_string(),
            summoner_id: "s".to_string(),
            platform_id: "NA1".to_string(),
        },
    }
}

fn a_match(participants: Vec<ParticipantDto>, identities: Vec<ParticipantIdentityDto>) -> MatchDto {
    MatchDto {
        game_id: 1,
        participant_identities: identities,
        queue_id: 420,
        game_type: "MATCHED_GAME".to_string(),
        game_duration: 1800,
        teams: vec![],
        platform_id: "NA1".to_string(),
        game_creation: 0,
        season_id: 13,
        game_version: "10.1".to_string(),
        map_id: 11,
        game_mode: "CLASSIC".to_string(),
        participants,
    }
}

#[test]
fn reserve_claims_first_unseen_in_order() {
    let mut seen = SeenMatches::new();
    let list = matchlist(&[10, 20, 30]);
    assert_eq!(reserve_new_match_id(&mut seen, &list), Some(10));
    assert_eq!(reserve_new_match_id(&mut seen, &list), Some(20));
    assert_eq!(reserve_new_match_id(&mut seen, &list), Some(30));
    assert_eq!(reserve_new_match_id(&mut seen, &list), None);
    assert_eq!(seen.len(), 3);
}

#[test]
fn walker_with_no_unseen_matches_halts() {
    // one walker exhausts the seed's history; a sibling with fresh ids goes on
    let mut seen = SeenMatches::new();
    let exhausted = matchlist(&[]);
    assert_eq!(reserve_new_match_id(&mut seen, &exhausted), None);
    assert_eq!(seen.len(), 0);
    let first = matchlist(&[5, 6]);
    let second = matchlist(&[6, 7]);
    assert_eq!(reserve_new_match_id(&mut seen, &first), Some(5));
    assert_eq!(reserve_new_match_id(&mut seen, &second), Some(6));
    assert_eq!(reserve_new_match_id(&mut seen, &first), None);
    // the set holds exactly the union of what the walkers reserved
    assert_eq!(seen.len(), 2);
    assert!(seen.contains(5));
    assert!(seen.contains(6));
    assert!(!seen.contains(7));
}

#[test]
fn reserve_skips_already_claimed_prefix() {
    let mut seen = SeenMatches::new();
    seen.insert(10);
    seen.insert(20);
    let list = matchlist(&[10, 20, 30, 40]);
    assert_eq!(reserve_new_match_id(&mut seen, &list), Some(30));
    assert!(seen.contains(30));
    assert!(!seen.contains(40));
}

#[test]
fn participant_pick_wraps_around() {
    let m = a_match(
        vec![],
        vec![identity("first"), identity("second"), identity("third")],
    );
    assert_eq!(pick_participant_account(&m, 0).as_str(), "first");
    assert_eq!(pick_participant_account(&m, 4).as_str(), "second");
    assert_eq!(pick_participant_account(&m, 3).as_str(), "first");
}

#[test]
fn record_line_flattens_one_participant() {
    let m = a_match(vec![participant(12, 4, 7, "GOLD")], vec![identity("a")]);
    assert_eq!(match_to_line(&m), "12,4,7,6111,1,8005,2,GOLD,MID,DUO\n");
}

#[test]
fn record_line_joins_participants_in_order() {
    let m = a_match(
        vec![participant(12, 4, 7, "GOLD"), participant(-3, 11, 14, "IRON")],
        vec![identity("a")],
    );
    assert_eq!(
        match_to_line(&m),
        "12,4,7,6111,1,8005,2,GOLD,MID,DUO,-3,11,14,6111,1,8005,2,IRON,MID,DUO\n"
    );
}

#[test]
fn record_line_of_empty_match_is_newline() {
    let m = a_match(vec![], vec![identity("a")]);
    assert_eq!(match_to_line(&m), "\n");
}
