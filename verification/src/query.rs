//! Filtering bodies by feature and ranking them by distance keys.

use vstd::prelude::*;
use crate::feature::{PlanetFeature, passes, feature_passes};
use crate::planet::Planet;

verus! {

/// Whether `picked` lists, in ascending order and once each, exactly the
/// bodies whose feature passes the filter.
pub open spec fn selects(
    system: Seq<Planet>,
    filter: Option<PlanetFeature>,
    picked: Seq<usize>,
) -> bool {
    &&& lists(system, filter, picked)
    &&& forall|a: int, b: int| 0 <= a < b < picked.len() ==> picked[a] < picked[b]
}

/// Whether `picked` holds bodies that pass the filter, and all of them.
pub open spec fn lists(
    system: Seq<Planet>,
    filter: Option<PlanetFeature>,
    picked: Seq<usize>,
) -> bool {
    &&& forall|j: int|
        0 <= j < picked.len() ==> (#[trigger] picked[j]) < system.len() && passes(
            system[picked[j] as int].feat,
            filter,
        )
    &&& forall|x: int|
        0 <= x < system.len() && passes((#[trigger] system[x]).feat, filter) ==> picked.contains(
            x as usize,
        )
}

/// The key by which body `b` is ranked; a body that was given no key ranks
/// last.
pub open spec fn key_of(keys: Seq<u64>, b: int) -> u64 {
    if 0 <= b < keys.len() {
        keys[b]
    } else {
        u64::MAX
    }
}

/// Whether body `a` ranks before body `b`: by key, and among equal keys by
/// index.
pub open spec fn closer(keys: Seq<u64>, a: int, b: int) -> bool {
    key_of(keys, a) < key_of(keys, b) || (key_of(keys, a) == key_of(keys, b) && a < b)
}

/// Whether `ranked` lists exactly the bodies that pass the filter, nearest
/// first.
pub open spec fn ranks(
    system: Seq<Planet>,
    filter: Option<PlanetFeature>,
    keys: Seq<u64>,
    ranked: Seq<usize>,
) -> bool {
    &&& lists(system, filter, ranked)
    &&& forall|a: int, b: int|
        0 <= a < b < ranked.len() ==> closer(keys, ranked[a] as int, ranked[b] as int)
}

/// Whether body `x` passes the filter and no body that passes it ranks before
/// `x`.
pub open spec fn is_nearest(
    system: Seq<Planet>,
    filter: Option<PlanetFeature>,
    keys: Seq<u64>,
    x: int,
) -> bool {
    &&& 0 <= x < system.len()
    &&& passes(system[x].feat, filter)
    &&& forall|y: int|
        0 <= y < system.len() && passes((#[trigger] system[y]).feat, filter) && y != x ==> closer(
            keys,
            x,
            y,
        )
}

/// The indices of the bodies whose feature passes the filter, ascending.
/// Features are matched by kind: a station passes a station filter whatever
/// its stock.
pub fn filter_system(system: &Vec<Planet>, filter: Option<PlanetFeature>) -> (picked: Vec<usize>)
    ensures
        selects(system@, filter, picked@),
{
    let mut picked: Vec<usize> = Vec::new();
    let mut i: usize = 0;
    while i < system.len()
        invariant
            i <= system.len(),
            forall|j: int|
                0 <= j < picked.len() ==> (#[trigger] picked[j]) < i && passes(
                    system[picked[j] as int].feat,
                    filter,
                ),
            forall|x: int|
                0 <= x < i && passes((#[trigger] system[x]).feat, filter) ==> picked@.contains(
                    x as usize,
                ),
            forall|a: int, b: int| 0 <= a < b < picked.len() ==> picked[a] < picked[b],
        decreases system.len() - i,
    {
        if feature_passes(&system[i].feat, &filter) {
            let ghost before = picked@;
            picked.push(i);
            assert(picked@[before.len() as int] == i);
            assert forall|x: int|
                0 <= x < i + 1 && passes((#[trigger] system[x]).feat, filter) implies picked@.contains(
                x as usize,
            ) by {
                if x < i {
                    let j = choose|j: int| 0 <= j < before.len() && before[j] == x as usize;
                    assert(picked@[j] == x as usize);
                }
            }
        }
        i += 1;
    }
    picked
}

/// The bodies that carry a station, ascending.
pub fn station_indices(system: &Vec<Planet>) -> (picked: Vec<usize>)
    ensures
        selects(system@, Some(PlanetFeature::Station { stock: 0 }), picked@),
{
    filter_system(system, Some(PlanetFeature::Station { stock: 0 }))
}

/// The bodies that carry ore, ascending.
pub fn ore_indices(system: &Vec<Planet>) -> (picked: Vec<usize>)
    ensures
        selects(system@, Some(PlanetFeature::Ore), picked@),
{
    filter_system(system, Some(PlanetFeature::Ore))
}

/// Reads the key of body `b`.
pub fn rank_key(keys: &Vec<u64>, b: usize) -> (key: u64)
    ensures
        key == key_of(keys@, b as int),
{
    if b < keys.len() {
        keys[b]
    } else {
        u64::MAX
    }
}

/// The bodies whose feature passes the filter, nearest first. `keys[b]` ranks
/// body `b`: a smaller key is a smaller distance. Bodies with equal keys come
/// in index order.
pub fn nearest_with_feature(
    system: &Vec<Planet>,
    filter: Option<PlanetFeature>,
    keys: &Vec<u64>,
) -> (ranked: Vec<usize>)
    ensures
        ranks(system@, filter, keys@, ranked@),
{
    let mut ranked: Vec<usize> = Vec::new();
    let mut i: usize = 0;
    while i < system.len()
        invariant
            i <= system.len(),
            forall|j: int|
                0 <= j < ranked.len() ==> (#[trigger] ranked[j]) < i && passes(
                    system[ranked[j] as int].feat,
                    filter,
                ),
            forall|x: int|
                0 <= x < i && passes((#[trigger] system[x]).feat, filter) ==> ranked@.contains(
                    x as usize,
                ),
            forall|a: int, b: int|
                0 <= a < b < ranked.len() ==> closer(keys@, ranked[a] as int, ranked[b] as int),
        decreases system.len() - i,
    {
        if feature_passes(&system[i].feat, &filter) {
            let key = rank_key(keys, i);
            let mut at: usize = 0;
            while at < ranked.len() && rank_key(keys, ranked[at]) <= key
                invariant
                    at <= ranked.len(),
                    key == key_of(keys@, i as int),
                    forall|j: int| 0 <= j < at ==> key_of(keys@, ranked[j] as int) <= key,
                decreases ranked.len() - at,
            {
                at += 1;
            }
            let ghost before = ranked@;
            ranked.insert(at, i);
            assert(ranked@[at as int] == i);
            assert forall|a: int, b: int| 0 <= a < b < ranked.len() implies closer(
                keys@,
                ranked[a] as int,
                ranked[b] as int,
            ) by {
                if b < at {
                    assert(ranked[a] == before[a] && ranked[b] == before[b]);
                } else if b == at {
                    assert(ranked[a] == before[a]);
                } else if a < at {
                    assert(ranked[a] == before[a] && ranked[b] == before[b - 1]);
                } else if a == at {
                    assert(ranked[b] == before[b - 1]);
                    if b - 1 > at {
                        assert(closer(keys@, before[at as int] as int, before[b - 1] as int));
                    }
                } else {
                    assert(ranked[a] == before[a - 1] && ranked[b] == before[b - 1]);
                }
            }
            assert forall|j: int| 0 <= j < ranked.len() implies (#[trigger] ranked[j]) < i + 1
                && passes(system[ranked[j] as int].feat, filter) by {
                if j < at {
                    assert(ranked[j] == before[j]);
                } else if j > at {
                    assert(ranked[j] == before[j - 1]);
                }
            }
            assert forall|x: int|
                0 <= x < i + 1 && passes((#[trigger] system[x]).feat, filter) implies ranked@.contains(
                x as usize,
            ) by {
                if x < i {
                    let j = choose|j: int| 0 <= j < before.len() && before[j] == x as usize;
                    if j < at {
                        assert(ranked@[j] == x as usize);
                    } else {
                        assert(ranked@[j + 1] == x as usize);
                    }
                }
            }
        }
        i += 1;
    }
    ranked
}

/// The first entry of a ranking is the nearest body, and no other body is.
pub proof fn lemma_first_ranked_is_nearest(
    system: Seq<Planet>,
    filter: Option<PlanetFeature>,
    keys: Seq<u64>,
    ranked: Seq<usize>,
)
    requires
        ranks(system, filter, keys, ranked),
        ranked.len() > 0,
        system.len() <= usize::MAX,
    ensures
        is_nearest(system, filter, keys, ranked[0] as int),
        forall|x: int| is_nearest(system, filter, keys, x) ==> x == ranked[0],
{
    let first = ranked[0] as int;
    assert forall|y: int|
        0 <= y < system.len() && passes((#[trigger] system[y]).feat, filter) && y != first implies closer(
        keys,
        first,
        y,
    ) by {
        assert(ranked.contains(y as usize));
        let j = choose|j: int| 0 <= j < ranked.len() && ranked[j] == y as usize;
        assert(0 < j);
        assert(closer(keys, ranked[0] as int, ranked[j] as int));
    }
    assert forall|x: int| is_nearest(system, filter, keys, x) implies x == first by {
        if x != first {
            assert(closer(keys, x, first));
            assert(system[first].feat == system[first].feat);
            assert(closer(keys, first, x));
        }
    }
}

} // verus!
