use vstd::prelude::*;

verus! {

/// The state of a game at one moment, as published by the data source.
/// Identifiers are 128-bit values; scores are in hundredths of a run.
pub struct BlaseballGameUpdate {
    pub last_update: String,
    pub weather: u8,
    pub inning: i16,
    pub is_top: bool,
    pub away_score: Option<i64>,
    pub home_score: Option<i64>,
    pub bases_occupied: Vec<u8>,
    pub base_runners: Vec<u128>,
    pub away_team_id: Option<u128>,
    pub away_pitcher_id: Option<u128>,
    pub away_batter_id: Option<u128>,
    pub away_bases: Option<u8>,
    pub home_team_id: Option<u128>,
    pub home_pitcher_id: Option<u128>,
    pub home_batter_id: Option<u128>,
    pub home_bases: Option<u8>,
}

/// One snapshot of the stream: its unique `hash`, used to drop immediate
/// repeats, and the game state it carries.
pub struct ChronGameUpdate {
    pub game_id: u128,
    pub hash: u128,
    pub timestamp: String,
    pub data: BlaseballGameUpdate,
}

} // verus!
