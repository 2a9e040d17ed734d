use reblase::bases::{pack_base, DEFAULT_NUMBER_OF_BASES};
use reblase::game::{game_css, get_weather_for_index, reconstruct, Game, Half, ReconstructError};
use reblase::snapshot::{BlaseballGameUpdate, ChronGameUpdate};

const AWAY: u128 = 0xa;
const HOME: u128 = 0xb;

fn state(inning: i16, is_top: bool, weather: u8) -> BlaseballGameUpdate {
    BlaseballGameUpdate {
        last_update: format!("inning {} {}", inning, is_top),
        weather,
        inning,
        is_top,
        away_score: None,
        home_score: None,
        bases_occupied: Vec::new(),
        base_runners: Vec::new(),
        away_team_id: Some(AWAY),
        away_pitcher_id: None,
        away_batter_id: None,
        away_bases: None,
        home_team_id: Some(HOME),
        home_pitcher_id: None,
        home_batter_id: None,
        home_bases: None,
    }
}

fn snap(hash: u128, data: BlaseballGameUpdate) -> ChronGameUpdate {
    ChronGameUpdate { game_id: 1, hash, timestamp: String::from("2021-07-24T15:00:08Z"), data }
}

fn ok(r: Result<Game, ReconstructError>) -> Game {
    match r {
        Ok(g) => g,
        Err(e) => panic!("reconstruction failed: {:?}", e),
    }
}

fn uuid_text(id: u128) -> String {
    format!(
        "{:08x}-{:04x}-{:04x}-{:04x}-{:012x}",
        (id >> 96) as u32,
        (id >> 80) as u16,
        (id >> 64) as u16,
        (id >> 48) as u16,
        id & 0xffff_ffff_ffff
    )
}

#[test]
fn empty_stream_is_an_error() {
    assert!(matches!(reconstruct(&Vec::new()), Err(ReconstructError::EmptyStream)));
}

#[test]
fn missing_side_is_an_error() {
    let mut a = state(1, true, 0);
    a.home_team_id = None;
    assert!(matches!(reconstruct(&vec![snap(1, a)]), Err(ReconstructError::MissingSideIdentifier)));
    let mut b = state(1, true, 0);
    b.away_team_id = None;
    assert!(matches!(reconstruct(&vec![snap(1, b)]), Err(ReconstructError::MissingSideIdentifier)));
}

#[test]
fn single_snapshot_gives_one_inning_with_one_update() {
    let g = ok(reconstruct(&vec![snap(1, state(1, false, 7))]));
    assert_eq!(g.innings.len(), 1);
    assert_eq!(g.innings[0].index, 1);
    assert_eq!(g.innings[0].half, Half::Bottom);
    assert_eq!(g.innings[0].updates.len(), 1);
    assert_eq!(g.weather.index, 7);
    assert_eq!(g.away_team_id, AWAY);
    assert_eq!(g.home_team_id, HOME);
}

#[test]
fn repeat_is_suppressed_and_weather_follows_last() {
    let mut a = state(3, true, 2);
    a.bases_occupied = vec![1];
    a.base_runners = vec![0x51];
    let b = state(3, false, 5);
    let g = ok(reconstruct(&vec![snap(100, a), snap(100, state(3, true, 2)), snap(200, b)]));
    assert_eq!(g.innings.len(), 2);
    assert_eq!((g.innings[0].index, g.innings[0].half), (3, Half::Top));
    assert_eq!((g.innings[1].index, g.innings[1].half), (3, Half::Bottom));
    assert_eq!(g.innings[0].updates.len(), 1);
    assert_eq!(g.innings[1].updates.len(), 1);
    assert_eq!(g.weather.index, 5);
    assert_eq!(g.innings[0].updates[0].bases[1].runners, vec![uuid_text(0x51)]);
}

#[test]
fn repeated_snapshot_does_not_change_weather() {
    let g = ok(reconstruct(&vec![snap(1, state(1, true, 2)), snap(1, state(1, true, 9))]));
    assert_eq!(g.weather.index, 2);
    assert_eq!(g.innings[0].updates.len(), 1);
}

#[test]
fn only_immediate_repeats_are_dropped() {
    let g = ok(reconstruct(&vec![
        snap(1, state(1, true, 0)),
        snap(2, state(1, true, 0)),
        snap(1, state(1, true, 0)),
    ]));
    assert_eq!(g.innings.len(), 1);
    assert_eq!(g.innings[0].updates.len(), 3);
}

#[test]
fn innings_come_in_playing_order() {
    let g = ok(reconstruct(&vec![
        snap(1, state(2, false, 0)),
        snap(2, state(1, false, 0)),
        snap(3, state(2, true, 0)),
        snap(4, state(1, true, 0)),
        snap(5, state(2, false, 0)),
    ]));
    let keys: Vec<(i16, Half)> = g.innings.iter().map(|i| (i.index, i.half)).collect();
    assert_eq!(keys, vec![(1, Half::Top), (1, Half::Bottom), (2, Half::Top), (2, Half::Bottom)]);
    assert_eq!(g.innings[3].updates.len(), 2);
    assert_eq!(g.innings[3].updates[0].gamelog, "inning 2 false");
}

#[test]
fn default_layout_with_gaps() {
    let mut a = state(1, true, 0);
    a.bases_occupied = vec![0, 2];
    a.base_runners = vec![0x11, 0x22];
    let bases = pack_base(&a);
    assert_eq!(DEFAULT_NUMBER_OF_BASES, 4);
    assert_eq!(bases.len(), 4);
    assert_eq!(bases[0].runners, vec![uuid_text(0x11)]);
    assert!(bases[1].runners.is_empty());
    assert_eq!(bases[2].runners, vec![uuid_text(0x22)]);
    assert!(bases[3].runners.is_empty());
}

#[test]
fn layout_widens_past_configured_count() {
    let mut a = state(1, true, 0);
    a.away_bases = Some(2);
    a.bases_occupied = vec![5];
    a.base_runners = vec![0x33];
    let bases = pack_base(&a);
    assert_eq!(bases.len(), 6);
    assert_eq!(bases[5].runners, vec![uuid_text(0x33)]);
}

#[test]
fn layout_uses_batting_side_count() {
    let mut top = state(1, true, 0);
    top.away_bases = Some(5);
    top.home_bases = Some(3);
    assert_eq!(pack_base(&top).len(), 5);
    let mut bottom = state(1, false, 0);
    bottom.away_bases = Some(5);
    bottom.home_bases = Some(3);
    assert_eq!(pack_base(&bottom).len(), 3);
}

#[test]
fn runners_sharing_a_base_are_all_kept() {
    let mut a = state(1, true, 0);
    a.bases_occupied = vec![1, 1, 3];
    a.base_runners = vec![0x1, 0x2];
    let bases = pack_base(&a);
    assert_eq!(bases.len(), 4);
    assert_eq!(bases[1].runners, vec![uuid_text(0x1), uuid_text(0x2)]);
    assert!(bases[3].runners.is_empty());
}

#[test]
fn absent_batter_gives_no_batter_and_unknown_pitcher() {
    let g = ok(reconstruct(&vec![snap(1, state(1, true, 0))]));
    assert!(g.innings[0].updates[0].batter.is_none());
    assert_eq!(g.innings[0].pitcher_name, "UNKNOWN_PLAYER");
}

#[test]
fn batter_and_pitcher_are_named() {
    let mut a = state(4, true, 0);
    a.home_pitcher_id = Some(0x77);
    a.home_batter_id = Some(0x88);
    a.away_pitcher_id = Some(0x99);
    let g = ok(reconstruct(&vec![snap(1, a)]));
    assert_eq!(g.innings[0].pitcher_name, uuid_text(0x77));
    assert_eq!(g.innings[0].updates[0].batter.as_ref().map(|p| p.name.clone()), Some(uuid_text(0x88)));
}

#[test]
fn pitcher_is_taken_when_half_inning_opens() {
    let mut a = state(1, false, 0);
    a.away_pitcher_id = Some(0x1);
    let mut b = state(1, false, 0);
    b.away_pitcher_id = Some(0x2);
    let g = ok(reconstruct(&vec![snap(1, a), snap(2, b)]));
    assert_eq!(g.innings[0].pitcher_name, uuid_text(0x1));
}

#[test]
fn scores_default_to_zero() {
    let mut a = state(1, true, 0);
    a.home_score = Some(250);
    let g = ok(reconstruct(&vec![snap(1, a)]));
    let u = &g.innings[0].updates[0];
    assert_eq!(u.away_team_score, 0);
    assert_eq!(u.home_team_score, 250);
    assert_eq!(u.timespan, "00:00");
    assert!(!u.important);
}

#[test]
fn weather_names() {
    let w = get_weather_for_index(3);
    assert_eq!(w.index, 3);
    assert_eq!(w.name, "Flooding");
    assert_eq!(w.src, "/flooding");
    assert_eq!(w.emoji, "\u{1F6B0}");
}

#[test]
fn stylesheet_route() {
    assert_eq!(game_css(), ("text/css", "/game.css"));
}
