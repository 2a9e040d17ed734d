use crate::names::{get_player_name, uuid_text};
use crate::snapshot::BlaseballGameUpdate;
use vstd::prelude::*;

verus! {

/// Number of bases a side plays with when the snapshot does not say.
pub const DEFAULT_NUMBER_OF_BASES: u8 = 4;

/// One base: the display names of the runners standing on it.
pub struct Base {
    pub runners: Vec<String>,
}

impl Base {
    pub open spec fn view(&self) -> Seq<Seq<char>> {
        self.runners@.map_values(|s: String| s@)
    }
}

/// A layout as a sequence of slots, each the runner names on it.
pub open spec fn layout_view(bases: Seq<Base>) -> Seq<Seq<Seq<char>>> {
    bases.map_values(|b: Base| b.view())
}

/// The base count configured for the batting side: the away side bats in
/// the top of an inning, the home side in the bottom.
pub open spec fn configured_bases(g: BlaseballGameUpdate) -> int {
    match (if g.is_top { g.away_bases } else { g.home_bases }) {
        Some(n) => n as int,
        None => DEFAULT_NUMBER_OF_BASES as int,
    }
}

/// The highest index in `occ`, or 0 when it is empty.
pub open spec fn max_occupied(occ: Seq<u8>) -> int
    decreases occ.len(),
{
    if occ.len() == 0 {
        0
    } else {
        let rest = max_occupied(occ.drop_last());
        if occ.last() as int > rest { occ.last() as int } else { rest }
    }
}

/// Number of slots in the layout: the configured count, widened so that the
/// highest occupied base has a slot.
pub open spec fn layout_len(g: BlaseballGameUpdate) -> int {
    let c = configured_bases(g);
    let h = max_occupied(g.bases_occupied@) + 1;
    if c < h { h } else { c }
}

/// Number of (base, runner) pairs: the two lists are read side by side.
pub open spec fn pair_count(g: BlaseballGameUpdate) -> int {
    let a = g.bases_occupied@.len();
    let b = g.base_runners@.len();
    if a < b { a as int } else { b as int }
}

/// Names of the runners among the first `n` pairs that stand on base `j`,
/// in the order of the pairs.
pub open spec fn runners_on(occ: Seq<u8>, ids: Seq<u128>, n: int, j: int) -> Seq<Seq<char>>
    decreases n,
{
    if n <= 0 {
        Seq::empty()
    } else {
        let prev = runners_on(occ, ids, n - 1, j);
        if occ[n - 1] as int == j { prev.push(uuid_text(ids[n - 1])) } else { prev }
    }
}

/// The base layout of a snapshot.
pub open spec fn layout_of(g: BlaseballGameUpdate) -> Seq<Seq<Seq<char>>> {
    Seq::new(
        layout_len(g) as nat,
        |j: int| runners_on(g.bases_occupied@, g.base_runners@, pair_count(g), j),
    )
}

proof fn lemma_max_occupied_bounds(occ: Seq<u8>)
    ensures
        0 <= max_occupied(occ) <= 255,
        forall|i: int| 0 <= i < occ.len() ==> occ[i] as int <= max_occupied(occ),
    decreases occ.len(),
{
    if occ.len() > 0 {
        lemma_max_occupied_bounds(occ.drop_last());
        assert forall|i: int| 0 <= i < occ.len() implies occ[i] as int <= max_occupied(occ) by {
            if i < occ.len() - 1 {
                assert(occ[i] == occ.drop_last()[i]);
            }
        }
    }
}

fn highest_occupied_base(occ: &Vec<u8>) -> (r: u8)
    ensures
        r as int == max_occupied(occ@),
{
    let mut best: u8 = 0;
    let mut i: usize = 0;
    while i < occ.len()
        invariant
            i <= occ@.len(),
            best as int == max_occupied(occ@.take(i as int)),
        decreases occ.len() - i,
    {
        assert(occ@.take(i as int + 1).drop_last() =~= occ@.take(i as int));
        if occ[i] > best {
            best = occ[i];
        }
        i += 1;
    }
    assert(occ@.take(i as int) =~= occ@);
    best
}

fn runners_on_base(occ: &Vec<u8>, ids: &Vec<u128>, n: usize, j: usize) -> (r: Base)
    requires
        n <= occ@.len(),
        n <= ids@.len(),
    ensures
        r.view() == runners_on(occ@, ids@, n as int, j as int),
{
    let mut runners: Vec<String> = Vec::new();
    let mut i: usize = 0;
    while i < n
        invariant
            i <= n,
            n <= occ@.len(),
            n <= ids@.len(),
            runners@.map_values(|s: String| s@) == runners_on(occ@, ids@, i as int, j as int),
        decreases n - i,
    {
        if occ[i] as usize == j {
            let name = get_player_name(ids[i]);
            let ghost before = runners@;
            runners.push(name);
            assert(runners@.map_values(|s: String| s@) =~= before.map_values(|s: String| s@).push(
                uuid_text(ids@[i as int]),
            ));
        }
        i += 1;
    }
    Base { runners }
}

/// The base layout of one snapshot. The batting side's configured base count
/// (or the default) is widened to cover the highest occupied base; each runner
/// is named on the slot of its base, so no runner is dropped.
pub fn pack_base(update: &BlaseballGameUpdate) -> (r: Vec<Base>)
    ensures
        layout_view(r@) == layout_of(*update),
        r@.len() == layout_len(*update),
        r@.len() >= max_occupied(update.bases_occupied@) + 1,
        r@.len() >= configured_bases(*update),
        forall|i: int| 0 <= i < update.bases_occupied@.len() ==> update.bases_occupied@[i] < r@.len(),
{
    proof {
        lemma_max_occupied_bounds(update.bases_occupied@);
    }
    let configured: u8 = match (if update.is_top { update.away_bases } else { update.home_bases }) {
        Some(n) => n,
        None => DEFAULT_NUMBER_OF_BASES,
    };
    let needed: usize = highest_occupied_base(&update.bases_occupied) as usize + 1;
    let count: usize = if (configured as usize) < needed { needed } else { configured as usize };
    let n: usize = if update.bases_occupied.len() < update.base_runners.len() {
        update.bases_occupied.len()
    } else {
        update.base_runners.len()
    };
    let mut bases: Vec<Base> = Vec::new();
    let mut j: usize = 0;
    while j < count
        invariant
            j <= count,
            count == layout_len(*update),
            n == pair_count(*update),
            bases@.len() == j,
            forall|k: int|
                0 <= k < j ==> #[trigger] bases@[k].view() == runners_on(
                    update.bases_occupied@,
                    update.base_runners@,
                    n as int,
                    k,
                ),
        decreases count - j,
    {
        let base = runners_on_base(&update.bases_occupied, &update.base_runners, n, j);
        bases.push(base);
        j += 1;
    }
    assert(layout_view(bases@) =~= layout_of(*update));
    bases
}

} // verus!
