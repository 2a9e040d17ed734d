use crate::bases::{layout_of, layout_view, pack_base, Base};
use crate::names::{get_player_name, uuid_text};
use crate::snapshot::{BlaseballGameUpdate, ChronGameUpdate};
use vstd::prelude::*;

verus! {

/// Which half of an inning; the top is played first.
#[derive(Clone, Copy, Debug, PartialEq, Eq, Structural)]
pub enum Half {
    Top,
    Bottom,
}

pub struct Player {
    pub name: String,
}

/// The weather in play, with what the page shows for it.
pub struct Weather {
    pub index: u8,
    pub name: String,
    pub src: String,
    pub emoji: String,
}

/// One accepted snapshot, ready for display.
pub struct Update {
    pub gamelog: String,
    pub timespan: String,
    pub away_team_score: i64,
    pub home_team_score: i64,
    pub important: bool,
    pub batter: Option<Player>,
    pub bases: Vec<Base>,
}

/// One half of an inning and its updates, oldest first.
pub struct Inning {
    pub index: i16,
    pub half: Half,
    pub pitcher_name: String,
    pub updates: Vec<Update>,
}

/// The reconstructed game: half-innings in playing order, the weather in
/// play at the end, and the two sides.
pub struct Game {
    pub innings: Vec<Inning>,
    pub weather: Weather,
    pub away_team_id: u128,
    pub home_team_id: u128,
}

#[derive(Clone, Copy, Debug, PartialEq, Eq, Structural)]
pub enum ReconstructError {
    /// The stream holds no snapshot.
    EmptyStream,
    /// The first snapshot does not name both sides.
    MissingSideIdentifier,
}

pub open spec fn half_of(is_top: bool) -> Half {
    if is_top { Half::Top } else { Half::Bottom }
}

pub open spec fn half_rank(h: Half) -> int {
    match h {
        Half::Top => 0,
        Half::Bottom => 1,
    }
}

/// Playing order of half-innings: by inning, the top before the bottom.
pub open spec fn key_lt(a: (i16, Half), b: (i16, Half)) -> bool {
    a.0 < b.0 || (a.0 == b.0 && half_rank(a.1) < half_rank(b.1))
}

pub open spec fn key_of(g: BlaseballGameUpdate) -> (i16, Half) {
    (g.inning, half_of(g.is_top))
}

pub open spec fn inning_key(i: Inning) -> (i16, Half) {
    (i.index, i.half)
}

/// The snapshot at `i` is kept: it is the first, or its hash differs from
/// the one just before it. A repeat leaves the last kept hash unchanged, so
/// the one before it always carries that hash.
pub open spec fn accepted(s: Seq<ChronGameUpdate>, i: int) -> bool {
    i == 0 || s[i].hash != s[i - 1].hash
}

/// Positions, among the first `n` snapshots, of the kept ones that fall in
/// half-inning `key`, in stream order.
pub open spec fn sources(s: Seq<ChronGameUpdate>, n: int, key: (i16, Half)) -> Seq<int>
    decreases n,
{
    if n <= 0 {
        Seq::empty()
    } else {
        let prev = sources(s, n - 1, key);
        if accepted(s, n - 1) && key_of(s[n - 1].data) == key { prev.push(n - 1) } else { prev }
    }
}

/// Position of the last kept snapshot among the first `n`, or -1.
pub open spec fn last_accepted(s: Seq<ChronGameUpdate>, n: int) -> int
    decreases n,
{
    if n <= 0 {
        -1
    } else if accepted(s, n - 1) {
        n - 1
    } else {
        last_accepted(s, n - 1)
    }
}

/// The name shown for an optional player: the identifier's text, or the
/// label of an unknown player.
pub open spec fn name_or_unknown(id: Option<u128>) -> Seq<char> {
    match id {
        Some(p) => uuid_text(p),
        None => "UNKNOWN_PLAYER"@,
    }
}

/// The pitcher of a half-inning: the home pitcher in the top, the away
/// pitcher in the bottom.
pub open spec fn pitcher_id(g: BlaseballGameUpdate) -> Option<u128> {
    if g.is_top { g.home_pitcher_id } else { g.away_pitcher_id }
}

/// The batter, chosen on the same side as the pitcher.
pub open spec fn batter_id(g: BlaseballGameUpdate) -> Option<u128> {
    if g.is_top { g.home_batter_id } else { g.away_batter_id }
}

pub open spec fn score_or_zero(s: Option<i64>) -> i64 {
    match s {
        Some(v) => v,
        None => 0,
    }
}

pub open spec fn weather_is(w: Weather, index: u8) -> bool {
    &&& w.index == index
    &&& w.name@ == "Flooding"@
    &&& w.src@ == "/flooding"@
    &&& w.emoji@ == "\u{1F6B0}"@
}

/// `u` displays snapshot `g`.
pub open spec fn update_shows(u: Update, g: BlaseballGameUpdate) -> bool {
    &&& u.gamelog@ == g.last_update@
    &&& u.timespan@ == "00:00"@
    &&& u.away_team_score == score_or_zero(g.away_score)
    &&& u.home_team_score == score_or_zero(g.home_score)
    &&& !u.important
    &&& match batter_id(g) {
        Some(id) => u.batter is Some && u.batter->Some_0.name@ == uuid_text(id),
        None => u.batter is None,
    }
    &&& layout_view(u.bases@) == layout_of(g)
}

/// `inn` is half-inning `key` made of the snapshots of `s` at positions `src`.
pub open spec fn inning_shows(inn: Inning, s: Seq<ChronGameUpdate>, src: Seq<int>) -> bool {
    &&& src.len() > 0
    &&& inn.updates@.len() == src.len()
    &&& inn.pitcher_name@ == name_or_unknown(pitcher_id(s[src[0]].data))
    &&& forall|j: int| 0 <= j < src.len() ==> update_shows(#[trigger] inn.updates@[j], s[src[j]].data)
}

/// The innings are in strict playing order.
pub open spec fn innings_sorted(inns: Seq<Inning>) -> bool {
    forall|a: int, b: int|
        0 <= a < b < inns.len() ==> key_lt(inning_key(#[trigger] inns[a]), inning_key(#[trigger] inns[b]))
}

/// `inns` are the half-innings built from the first `n` snapshots of `s`.
pub open spec fn innings_of(inns: Seq<Inning>, s: Seq<ChronGameUpdate>, n: int) -> bool {
    &&& innings_sorted(inns)
    &&& forall|k: int|
        0 <= k < inns.len() ==> inning_shows(#[trigger] inns[k], s, sources(s, n, inning_key(inns[k])))
    &&& forall|key: (i16, Half)|
        sources(s, n, key).len() > 0 ==> exists|k: int| 0 <= k < inns.len() && #[trigger] inning_key(inns[k]) == key
}

/// `g` is the game reconstructed from the non-empty stream `s`.
pub open spec fn game_of(g: Game, s: Seq<ChronGameUpdate>) -> bool {
    &&& innings_of(g.innings@, s, s.len() as int)
    &&& weather_is(g.weather, s[last_accepted(s, s.len() as int)].data.weather)
    &&& s[0].data.away_team_id == Some(g.away_team_id)
    &&& s[0].data.home_team_id == Some(g.home_team_id)
}

fn key_before(a: (i16, Half), b: (i16, Half)) -> (r: bool)
    ensures
        r == key_lt(a, b),
{
    let ra: u8 = match a.1 {
        Half::Top => 0,
        Half::Bottom => 1,
    };
    let rb: u8 = match b.1 {
        Half::Top => 0,
        Half::Bottom => 1,
    };
    a.0 < b.0 || (a.0 == b.0 && ra < rb)
}

/// The first position whose half-inning does not come before `key`, and
/// whether that half-inning is `key` itself.
fn find_inning(inns: &Vec<Inning>, key: (i16, Half)) -> (r: (bool, usize))
    ensures
        r.1 <= inns@.len(),
        forall|k: int| 0 <= k < r.1 ==> key_lt(#[trigger] inning_key(inns@[k]), key),
        r.1 < inns@.len() ==> !key_lt(inning_key(inns@[r.1 as int]), key),
        r.0 == (r.1 < inns@.len() && inning_key(inns@[r.1 as int]) == key),
{
    let mut pos: usize = 0;
    while pos < inns.len() && key_before((inns[pos].index, inns[pos].half), key)
        invariant
            pos <= inns@.len(),
            forall|k: int| 0 <= k < pos ==> key_lt(#[trigger] inning_key(inns@[k]), key),
        decreases inns@.len() - pos,
    {
        pos += 1;
    }
    let found = pos < inns.len() && inns[pos].index == key.0 && inns[pos].half == key.1;
    (found, pos)
}

fn player_or_unknown(id: Option<u128>) -> (r: String)
    ensures
        r@ == name_or_unknown(id),
{
    match id {
        Some(p) => get_player_name(p),
        None => "UNKNOWN_PLAYER".to_string(),
    }
}

/// The display event of one snapshot.
fn make_update(g: &BlaseballGameUpdate) -> (r: Update)
    ensures
        update_shows(r, *g),
{
    let id = if g.is_top { g.home_batter_id } else { g.away_batter_id };
    let batter = match id {
        Some(p) => Some(Player { name: get_player_name(p) }),
        None => None,
    };
    Update {
        gamelog: g.last_update.clone(),
        timespan: "00:00".to_string(),
        away_team_score: match g.away_score {
            Some(v) => v,
            None => 0,
        },
        home_team_score: match g.home_score {
            Some(v) => v,
            None => 0,
        },
        important: false,
        batter,
        bases: pack_base(g),
    }
}

pub(crate) proof fn lemma_keys_total(a: (i16, Half), b: (i16, Half))
    ensures
        a == b || key_lt(a, b) || key_lt(b, a),
        !(key_lt(a, b) && key_lt(b, a)),
        !key_lt(a, a),
{
    match (a.1, b.1) {
        (Half::Top, Half::Top) => {},
        (Half::Bottom, Half::Bottom) => {},
        _ => {},
    }
}

/// Reconstructs a game from its snapshot stream. A snapshot whose hash
/// repeats the one just before it is dropped. Each kept snapshot becomes one
/// update of its half-inning; a half-inning's pitcher is named from the first
/// snapshot that opens it. The sides are those of the first snapshot.
pub fn reconstruct(updates: &Vec<ChronGameUpdate>) -> (r: Result<Game, ReconstructError>)
    ensures
        updates@.len() == 0 ==> r == Err::<Game, ReconstructError>(ReconstructError::EmptyStream),
        updates@.len() > 0 && (updates@[0].data.away_team_id is None
            || updates@[0].data.home_team_id is None) ==> r == Err::<Game, ReconstructError>(
            ReconstructError::MissingSideIdentifier,
        ),
        updates@.len() > 0 && updates@[0].data.away_team_id is Some
            && updates@[0].data.home_team_id is Some ==> r is Ok && game_of(r->Ok_0, updates@),
{
    if updates.len() == 0 {
        return Err(ReconstructError::EmptyStream);
    }
    let away_team_id = match updates[0].data.away_team_id {
        Some(id) => id,
        None => {
            return Err(ReconstructError::MissingSideIdentifier);
        },
    };
    let home_team_id = match updates[0].data.home_team_id {
        Some(id) => id,
        None => {
            return Err(ReconstructError::MissingSideIdentifier);
        },
    };
    let ghost s = updates@;
    let mut innings: Vec<Inning> = Vec::new();
    let mut weather: Option<Weather> = None;
    let mut last_hash: Option<u128> = None;
    let mut i: usize = 0;
    while i < updates.len()
        invariant
            s == updates@,
            i <= s.len(),
            innings_of(innings@, s, i as int),
            i == 0 ==> last_hash is None && weather is None,
            i > 0 ==> last_hash == Some(s[i - 1].hash),
            i > 0 ==> weather is Some && weather_is(weather->Some_0, s[last_accepted(s, i as int)].data.weather),
        decreases s.len() - i,
    {
        let update = &updates[i];
        let repeat = match last_hash {
            Some(h) => h == update.hash,
            None => false,
        };
        if !repeat {
            let keep_weather = match &weather {
                Some(w) => w.index == update.data.weather,
                None => false,
            };
            if !keep_weather {
                weather = Some(get_weather_for_index(update.data.weather));
            }
            assert(accepted(s, i as int));
            assert(last_accepted(s, i + 1) == i);
            let key = (update.data.inning, if update.data.is_top { Half::Top } else { Half::Bottom });
            let shown = make_update(&update.data);
            let (found, pos) = find_inning(&innings, key);
            let ghost old_inns = innings@;
            proof {
                assert(key == key_of(s[i as int].data));
                assert forall|q: (i16, Half)| #[trigger] sources(s, i + 1, q) == (if q == key {
                    sources(s, i as int, q).push(i as int)
                } else {
                    sources(s, i as int, q)
                }) by {}
            }
            if found {
                let mut inn = innings.remove(pos);
                inn.updates.push(shown);
                innings.insert(pos, inn);
                proof {
                    assert(innings@ =~= old_inns.update(pos as int, inn));
                    assert forall|k: int| 0 <= k < innings@.len() implies inning_shows(
                        #[trigger] innings@[k],
                        s,
                        sources(s, i + 1, inning_key(innings@[k])),
                    ) by {
                        let q = inning_key(innings@[k]);
                        assert(inning_shows(old_inns[k], s, sources(s, i as int, q)));
                        if k != pos {
                            if q == key {
                                lemma_keys_total(inning_key(old_inns[k]), key);
                                if k < pos {
                                    assert(key_lt(inning_key(old_inns[k]), inning_key(old_inns[pos as int])));
                                } else {
                                    assert(key_lt(inning_key(old_inns[pos as int]), inning_key(old_inns[k])));
                                }
                            }
                        } else {
                            let src = sources(s, i + 1, q);
                            assert forall|j: int| 0 <= j < src.len() implies update_shows(
                                #[trigger] innings@[k].updates@[j],
                                s[src[j]].data,
                            ) by {
                                if j < src.len() - 1 {
                                    assert(innings@[k].updates@[j] == old_inns[k].updates@[j]);
                                }
                            }
                        }
                    }
                    assert forall|q: (i16, Half)| #[trigger] sources(s, i + 1, q).len() > 0 implies exists|k: int|
                        0 <= k < innings@.len() && #[trigger] inning_key(innings@[k]) == q by {
                        if q == key {
                            assert(inning_key(innings@[pos as int]) == q);
                        } else {
                            assert(sources(s, i as int, q).len() > 0);
                            let k = choose|k: int| 0 <= k < old_inns.len() && #[trigger] inning_key(old_inns[k]) == q;
                            assert(inning_key(innings@[k]) == q);
                        }
                    }
                }
            } else {
                let mut new_updates: Vec<Update> = Vec::new();
                new_updates.push(shown);
                let inn = Inning {
                    index: key.0,
                    half: key.1,
                    pitcher_name: player_or_unknown(
                        if update.data.is_top { update.data.home_pitcher_id } else { update.data.away_pitcher_id },
                    ),
                    updates: new_updates,
                };
                innings.insert(pos, inn);
                proof {
                    assert(sources(s, i as int, key).len() == 0) by {
                        if sources(s, i as int, key).len() > 0 {
                            let k = choose|k: int| 0 <= k < old_inns.len() && #[trigger] inning_key(old_inns[k]) == key;
                            lemma_keys_total(inning_key(old_inns[k]), key);
                            if k < pos {
                            } else if k > pos {
                                lemma_keys_total(inning_key(old_inns[pos as int]), key);
                                assert(key_lt(inning_key(old_inns[pos as int]), inning_key(old_inns[k])));
                            }
                        }
                    }
                    assert(sources(s, i + 1, key) =~= seq![i as int]);
                    assert(forall|k: int| 0 <= k < pos ==> #[trigger] innings@[k] == old_inns[k]);
                    assert(forall|k: int| pos < k < innings@.len() ==> #[trigger] innings@[k] == old_inns[k - 1]);
                    if pos < old_inns.len() {
                        lemma_keys_total(inning_key(old_inns[pos as int]), key);
                    }
                    assert forall|a: int, b: int| 0 <= a < b < innings@.len() implies key_lt(
                        inning_key(#[trigger] innings@[a]),
                        inning_key(#[trigger] innings@[b]),
                    ) by {
                        if a < pos && b == pos {
                        } else if a == pos && b > pos {
                            if b - 1 > pos {
                                assert(key_lt(inning_key(old_inns[pos as int]), inning_key(old_inns[b - 1])));
                            }
                        } else if a < pos && b > pos {
                            assert(key_lt(inning_key(old_inns[a]), inning_key(old_inns[b - 1])));
                        } else if b < pos {
                            assert(key_lt(inning_key(old_inns[a]), inning_key(old_inns[b])));
                        } else {
                            assert(key_lt(inning_key(old_inns[a - 1]), inning_key(old_inns[b - 1])));
                        }
                    }
                    assert forall|k: int| 0 <= k < innings@.len() implies inning_shows(
                        #[trigger] innings@[k],
                        s,
                        sources(s, i + 1, inning_key(innings@[k])),
                    ) by {
                        if k < pos {
                            assert(inning_shows(old_inns[k], s, sources(s, i as int, inning_key(old_inns[k]))));
                            lemma_keys_total(inning_key(old_inns[k]), key);
                        } else if k > pos {
                            assert(inning_shows(old_inns[k - 1], s, sources(s, i as int, inning_key(old_inns[k - 1]))));
                            lemma_keys_total(inning_key(old_inns[k - 1]), key);
                            if k - 1 > pos {
                                assert(key_lt(inning_key(old_inns[pos as int]), inning_key(old_inns[k - 1])));
                            }
                        } else {
                            assert(innings@[k].updates@[0] == shown);
                        }
                    }
                    assert forall|q: (i16, Half)| #[trigger] sources(s, i + 1, q).len() > 0 implies exists|k: int|
                        0 <= k < innings@.len() && #[trigger] inning_key(innings@[k]) == q by {
                        if q == key {
                            assert(inning_key(innings@[pos as int]) == q);
                        } else {
                            assert(sources(s, i as int, q).len() > 0);
                            let k = choose|k: int| 0 <= k < old_inns.len() && #[trigger] inning_key(old_inns[k]) == q;
                            if k < pos {
                                assert(inning_key(innings@[k]) == q);
                            } else {
                                assert(inning_key(innings@[k + 1]) == q);
                            }
                        }
                    }
                }
            }
        } else {
            proof {
                assert(!accepted(s, i as int));
                assert(last_accepted(s, i + 1) == last_accepted(s, i as int));
                assert forall|q: (i16, Half)| #[trigger] sources(s, i + 1, q) == sources(s, i as int, q) by {}
            }
        }
        last_hash = Some(update.hash);
        i += 1;
    }
    let weather = match weather {
        Some(w) => w,
        None => get_weather_for_index(0),
    };
    Ok(Game { innings, weather, away_team_id, home_team_id })
}

/// The weather shown for a weather index.
pub fn get_weather_for_index(index: u8) -> (r: Weather)
    ensures
        weather_is(r, index),
{
    Weather {
        index,
        name: "Flooding".to_string(),
        src: "/flooding".to_string(),
        emoji: "\u{1F6B0}".to_string(),
    }
}

/// Media type and asset path of the game page's stylesheet.
pub fn game_css() -> (r: (&'static str, &'static str))
    ensures
        r.0@ == "text/css"@,
        r.1@ == "/game.css"@,
{
    ("text/css", "/game.css")
}

} // verus!
