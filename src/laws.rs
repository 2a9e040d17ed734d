use crate::game::{
    accepted, game_of, inning_key, inning_shows, innings_of, key_lt, key_of, last_accepted,
    lemma_keys_total, sources, Game, Half,
};
use crate::snapshot::ChronGameUpdate;
use vstd::prelude::*;

verus! {

proof fn lemma_sources_in_prefix(s: Seq<ChronGameUpdate>, n: int, key: (i16, Half))
    ensures
        forall|j: int|
            0 <= j < sources(s, n, key).len() ==> 0 <= #[trigger] sources(s, n, key)[j] < n && accepted(
                s,
                sources(s, n, key)[j],
            ),
        n > 0 ==> -1 <= last_accepted(s, n) < n,
        last_accepted(s, n) == -1 || accepted(s, last_accepted(s, n)),
    decreases n,
{
    if n > 0 {
        lemma_sources_in_prefix(s, n - 1, key);
        let prev = sources(s, n - 1, key);
        assert forall|j: int| 0 <= j < sources(s, n, key).len() implies 0 <= #[trigger] sources(s, n, key)[j] < n
            && accepted(s, sources(s, n, key)[j]) by {
            if j < prev.len() {
                assert(sources(s, n, key)[j] == prev[j]);
            }
        }
    }
}

proof fn lemma_same_prefix(s: Seq<ChronGameUpdate>, t: Seq<ChronGameUpdate>, n: int)
    requires
        0 <= n <= s.len(),
        n <= t.len(),
        forall|i: int| 0 <= i < n ==> s[i] == t[i],
    ensures
        forall|key: (i16, Half)| #[trigger] sources(s, n, key) == sources(t, n, key),
        last_accepted(s, n) == last_accepted(t, n),
    decreases n,
{
    if n > 0 {
        lemma_same_prefix(s, t, n - 1);
        assert(accepted(s, n - 1) == accepted(t, n - 1));
        assert forall|key: (i16, Half)| #[trigger] sources(s, n, key) == sources(t, n, key) by {
            assert(sources(s, n - 1, key) == sources(t, n - 1, key));
        }
    }
}

/// A snapshot that repeats the hash of the last one in the stream changes
/// nothing: the games reconstructed with it are exactly those reconstructed
/// without it, whatever its other fields hold (weather included).
pub proof fn lemma_repeat_is_ignored(s: Seq<ChronGameUpdate>, d: ChronGameUpdate, g: Game)
    requires
        s.len() > 0,
        d.hash == s.last().hash,
    ensures
        game_of(g, s.push(d)) == game_of(g, s),
{
    let t = s.push(d);
    let n = s.len() as int;
    lemma_same_prefix(s, t, n);
    assert(!accepted(t, n));
    assert forall|key: (i16, Half)| #[trigger] sources(t, n + 1, key) == sources(s, n, key) by {
        lemma_sources_in_prefix(s, n, key);
    }
    assert(last_accepted(t, n + 1) == last_accepted(s, n));
    lemma_sources_in_prefix(s, n, key_of(s[0].data));
    assert(0 <= last_accepted(s, n)) by {
        lemma_last_accepted_exists(s, n);
    }
    assert forall|k: int| 0 <= k < g.innings@.len() implies inning_shows(
        #[trigger] g.innings@[k],
        t,
        sources(t, n + 1, inning_key(g.innings@[k])),
    ) == inning_shows(g.innings@[k], s, sources(s, n, inning_key(g.innings@[k]))) by {
        let src = sources(s, n, inning_key(g.innings@[k]));
        lemma_sources_in_prefix(s, n, inning_key(g.innings@[k]));
        assert forall|j: int| 0 <= j < src.len() implies t[#[trigger] src[j]] == s[src[j]] by {}
        if src.len() > 0 {
            assert(t[src[0]] == s[src[0]]);
        }
    }
    let inns = g.innings@;
    assert((forall|k: int|
        0 <= k < inns.len() ==> inning_shows(#[trigger] inns[k], t, sources(t, n + 1, inning_key(inns[k]))))
        == (forall|k: int|
        0 <= k < inns.len() ==> inning_shows(#[trigger] inns[k], s, sources(s, n, inning_key(inns[k])))));
    if forall|key: (i16, Half)|
        #[trigger] sources(s, n, key).len() > 0 ==> exists|k: int| 0 <= k < inns.len() && #[trigger] inning_key(inns[k]) == key {
        assert forall|key: (i16, Half)| #[trigger] sources(t, n + 1, key).len() > 0 implies exists|k: int|
            0 <= k < inns.len() && #[trigger] inning_key(inns[k]) == key by {
            assert(sources(s, n, key).len() > 0);
        }
    }
    if forall|key: (i16, Half)|
        #[trigger] sources(t, n + 1, key).len() > 0 ==> exists|k: int| 0 <= k < inns.len() && #[trigger] inning_key(inns[k]) == key {
        assert forall|key: (i16, Half)| #[trigger] sources(s, n, key).len() > 0 implies exists|k: int|
            0 <= k < inns.len() && #[trigger] inning_key(inns[k]) == key by {
            assert(sources(t, n + 1, key).len() > 0);
        }
    }
    assert(innings_of(inns, t, n + 1) == innings_of(inns, s, n));
    assert(t[last_accepted(t, n + 1)] == s[last_accepted(s, n)]);
    assert(t[0] == s[0]);
}

/// A snapshot whose hash repeats the one just before it contributes no
/// update to any half-inning and is never the one whose weather is kept.
pub proof fn lemma_repeat_contributes_nothing(s: Seq<ChronGameUpdate>, i: int, key: (i16, Half))
    requires
        0 < i < s.len(),
        s[i].hash == s[i - 1].hash,
    ensures
        !sources(s, s.len() as int, key).contains(i),
        last_accepted(s, s.len() as int) != i,
{
    lemma_sources_in_prefix(s, s.len() as int, key);
}

proof fn lemma_last_accepted_exists(s: Seq<ChronGameUpdate>, n: int)
    requires
        0 < n <= s.len(),
    ensures
        0 <= last_accepted(s, n) < n,
    decreases n,
{
    if n > 1 && !accepted(s, n - 1) {
        lemma_last_accepted_exists(s, n - 1);
    }
}

/// The half-innings of a game come in strict playing order: by inning, the
/// top before the bottom, with no half-inning twice.
pub proof fn lemma_innings_in_order(s: Seq<ChronGameUpdate>, g: Game, a: int, b: int)
    requires
        s.len() > 0,
        game_of(g, s),
        0 <= a < b < g.innings@.len(),
    ensures
        key_lt(inning_key(g.innings@[a]), inning_key(g.innings@[b])),
        inning_key(g.innings@[a]) != inning_key(g.innings@[b]),
{
    lemma_keys_total(inning_key(g.innings@[a]), inning_key(g.innings@[b]));
}

/// A stream of one snapshot gives one half-inning holding one update.
pub proof fn lemma_single_snapshot(s: Seq<ChronGameUpdate>, g: Game)
    requires
        s.len() == 1,
        game_of(g, s),
    ensures
        g.innings@.len() == 1,
        g.innings@[0].updates@.len() == 1,
        inning_key(g.innings@[0]) == key_of(s[0].data),
{
    let key = key_of(s[0].data);
    assert(sources(s, 0, key) =~= Seq::<int>::empty());
    assert(sources(s, 1, key) =~= seq![0int]);
    let k0 = choose|k: int| 0 <= k < g.innings@.len() && #[trigger] inning_key(g.innings@[k]) == key;
    assert forall|k: int| 0 <= k < g.innings@.len() implies #[trigger] inning_key(g.innings@[k]) == key by {
        let q = inning_key(g.innings@[k]);
        assert(inning_shows(g.innings@[k], s, sources(s, 1, q)));
        if q != key {
            assert(sources(s, 0, q) =~= Seq::<int>::empty());
            assert(sources(s, 1, q).len() == 0);
        }
    }
    if g.innings@.len() > 1 {
        lemma_keys_total(inning_key(g.innings@[0]), inning_key(g.innings@[1]));
        assert(key_lt(inning_key(g.innings@[0]), inning_key(g.innings@[1])));
    }
    assert(inning_shows(g.innings@[0], s, sources(s, 1, key)));
}

} // verus!
