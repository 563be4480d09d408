//! What stands below what in the body tree, and why the update order is top-down.

use vstd::prelude::*;
use crate::orbits::{subsystem, tour};
use crate::planet::Planet;
use crate::system::{moons, parent_of, rooted, tree_wf};

verus! {

/// Whether body `x` is body `p` or stands below it: following the orbits
/// upward from `x` leads to `p`.
pub open spec fn below(system: Seq<Planet>, x: int, p: int) -> bool
    decreases x,
{
    if x == p {
        true
    } else if p < x < system.len() && 0 < x && rooted(system) {
        below(system, parent_of(system, x), p)
    } else {
        false
    }
}

/// Whether body `x` stands at or below a moon of body `p` that is listed at
/// position `from` or later.
pub open spec fn below_moon(system: Seq<Planet>, p: int, from: int, x: int) -> bool {
    exists|j: int|
        from <= j < moons(system, p).len() && #[trigger] below(
            system,
            x,
            moons(system, p)[j] as int,
        )
}

/// Whether the body that entry `k` of `order` orbits has an earlier entry.
pub open spec fn heralded(system: Seq<Planet>, order: Seq<usize>, k: int) -> bool {
    exists|e: int| 0 <= e < k && (#[trigger] order[e]) == parent_of(system, order[k] as int)
}

/// Whether `order` lists the bodies at and below the moons of `p` from list
/// position `from` on, each once, and each after the body it orbits unless
/// that body is `p`.
pub open spec fn tours(system: Seq<Planet>, p: int, from: int, order: Seq<usize>) -> bool {
    &&& forall|k: int|
        0 <= k < order.len() ==> p < (#[trigger] order[k]) < system.len() && below_moon(
            system,
            p,
            from,
            order[k] as int,
        )
    &&& forall|x: int|
        0 <= x < system.len() && below_moon(system, p, from, x) ==> #[trigger] order.contains(
            x as usize,
        )
    &&& order.no_duplicates()
    &&& forall|k: int|
        0 <= k < order.len() ==> parent_of(system, (#[trigger] order[k]) as int) == p || heralded(
            system,
            order,
            k,
        )
}

/// Whether `order` starts with body `p` and lists the bodies at and below
/// it, each once and each after the body it orbits.
pub open spec fn covers(system: Seq<Planet>, p: int, order: Seq<usize>) -> bool {
    &&& order.len() >= 1
    &&& order[0] == p
    &&& forall|k: int|
        0 <= k < order.len() ==> (#[trigger] order[k]) < system.len() && below(
            system,
            order[k] as int,
            p,
        )
    &&& forall|x: int|
        0 <= x < system.len() && below(system, x, p) ==> #[trigger] order.contains(x as usize)
    &&& order.no_duplicates()
    &&& forall|k: int| 1 <= k < order.len() ==> #[trigger] heralded(system, order, k)
}

/// What stands below a moon stands below the body that the moon orbits.
pub proof fn lemma_below_rises(system: Seq<Planet>, x: int, c: int, p: int)
    requires
        rooted(system),
        0 <= p < c < system.len(),
        parent_of(system, c) == p,
        0 <= x < system.len(),
        below(system, x, c),
    ensures
        below(system, x, p),
    decreases x,
{
    if x != c {
        assert(c < x);
        lemma_below_rises(system, parent_of(system, x), c, p);
    } else {
        assert(below(system, p, p));
    }
}

/// What stands below a body, and is not that body, stands at or below one of
/// its moons.
pub proof fn lemma_below_passes_a_moon(system: Seq<Planet>, x: int, p: int)
    requires
        tree_wf(system),
        system.len() <= usize::MAX,
        0 <= p < system.len(),
        0 <= x < system.len(),
        below(system, x, p),
        x != p,
    ensures
        below_moon(system, p, 0, x),
    decreases x,
{
    let q = parent_of(system, x);
    if q == p {
        assert(moons(system, p).contains(x as usize));
        let j = choose|j: int| 0 <= j < moons(system, p).len() && moons(system, p)[j] == x as usize;
        assert(moons(system, p)[j] as int == x);
        assert(below(system, x, moons(system, p)[j] as int));
    } else {
        lemma_below_passes_a_moon(system, q, p);
        let j = choose|j: int|
            0 <= j < moons(system, p).len() && #[trigger] below(
                system,
                q,
                moons(system, p)[j] as int,
            );
        let c = moons(system, p)[j] as int;
        assert(c <= q) by {
            if q != c {
                assert(c < q);
            }
        }
        assert(below(system, x, c));
    }
}

/// No body stands below two moons of one body.
pub proof fn lemma_moons_part(system: Seq<Planet>, x: int, a: int, b: int)
    requires
        rooted(system),
        0 <= x < system.len(),
        0 < a < system.len(),
        0 < b < system.len(),
        a != b,
        parent_of(system, a) == parent_of(system, b),
        below(system, x, a),
    ensures
        !below(system, x, b),
    decreases x,
{
    if x == a {
        if b < a {
            lemma_never_below_a_later(system, parent_of(system, a), b);
        }
    } else if x == b {
        assert(a < b);
        lemma_never_below_a_later(system, parent_of(system, b), a);
    } else {
        lemma_moons_part(system, parent_of(system, x), a, b);
    }
}

/// No body stands below a body that was created after it.
pub proof fn lemma_never_below_a_later(system: Seq<Planet>, x: int, p: int)
    requires
        x < p,
    ensures
        !below(system, x, p),
{
}

/// Every body stands at or below the sun.
pub proof fn lemma_all_below_the_sun(system: Seq<Planet>, x: int)
    requires
        rooted(system),
        0 <= x < system.len(),
    ensures
        below(system, x, 0),
    decreases x,
{
    if x != 0 {
        lemma_all_below_the_sun(system, parent_of(system, x));
    }
}

/// The order computed for body `p` covers what stands at and below `p`.
pub proof fn lemma_subsystem_covers(system: Seq<Planet>, p: int)
    requires
        tree_wf(system),
        0 <= p < system.len(),
        system.len() <= usize::MAX,
    ensures
        covers(system, p, subsystem(system, p)),
    decreases system.len() - p, moons(system, p).len() + 1,
{
    let rest = tour(system, p, 0);
    let order = subsystem(system, p);
    lemma_tour_tours(system, p, 0);
    assert(order == seq![p as usize] + rest);
    assert forall|k: int| 0 <= k < order.len() implies (#[trigger] order[k]) < system.len() && below(
        system,
        order[k] as int,
        p,
    ) by {
        if k > 0 {
            let x = rest[k - 1] as int;
            assert(order[k] == rest[k - 1]);
            assert(below_moon(system, p, 0, x));
            let j = choose|j: int|
                0 <= j < moons(system, p).len() && #[trigger] below(
                    system,
                    x,
                    moons(system, p)[j] as int,
                );
            let c = moons(system, p)[j];
            assert(p < c < system.len());
            lemma_below_rises(system, x, c as int, p);
        }
    }
    assert forall|x: int| 0 <= x < system.len() && below(system, x, p) implies #[trigger] order.contains(
        x as usize,
    ) by {
        if x == p {
            assert(order[0] == x as usize);
        } else {
            lemma_below_passes_a_moon(system, x, p);
            assert(rest.contains(x as usize));
            let k = choose|k: int| 0 <= k < rest.len() && rest[k] == x as usize;
            assert(order[k + 1] == x as usize);
        }
    }
    assert forall|a: int, b: int| 0 <= a < order.len() && 0 <= b < order.len() && a != b implies order[a]
        != order[b] by {
        if a > 0 && b > 0 {
            assert(order[a] == rest[a - 1] && order[b] == rest[b - 1]);
        } else if a == 0 {
            assert(order[b] == rest[b - 1]);
        } else {
            assert(order[a] == rest[a - 1]);
        }
    }
    assert forall|k: int| 1 <= k < order.len() implies #[trigger] heralded(system, order, k) by {
        assert(order[k] == rest[k - 1]);
        if parent_of(system, rest[k - 1] as int) == p {
            assert(order[0] == parent_of(system, order[k] as int));
        } else {
            assert(heralded(system, rest, k - 1));
            let e = choose|e: int|
                0 <= e < k - 1 && (#[trigger] rest[e]) == parent_of(system, rest[k - 1] as int);
            assert(order[e + 1] == rest[e]);
        }
    }
}

/// The order computed for the moons of `p` from list position `from` on
/// tours what stands at and below them.
pub proof fn lemma_tour_tours(system: Seq<Planet>, p: int, from: int)
    requires
        tree_wf(system),
        0 <= p < system.len(),
        0 <= from <= moons(system, p).len(),
        system.len() <= usize::MAX,
    ensures
        tours(system, p, from, tour(system, p, from)),
    decreases system.len() - p, moons(system, p).len() - from,
{
    let order = tour(system, p, from);
    if from == moons(system, p).len() {
        assert(order =~= Seq::<usize>::empty());
        assert forall|x: int| !below_moon(system, p, from, x) by {}
    } else {
        let m = moons(system, p)[from] as int;
        assert(p < m < system.len());
        assert(parent_of(system, m) == p);
        let head = subsystem(system, m);
        let tail = tour(system, p, from + 1);
        lemma_subsystem_covers(system, m);
        lemma_tour_tours(system, p, from + 1);
        assert(order == head + tail);
        assert forall|k: int| 0 <= k < order.len() implies p < (#[trigger] order[k]) < system.len()
            && below_moon(system, p, from, order[k] as int) by {
            if k < head.len() {
                assert(order[k] == head[k]);
                let x = head[k] as int;
                assert(below(system, x, m));
                if x != m {
                    assert(m < x);
                }
                assert(below(system, x, moons(system, p)[from] as int));
            } else {
                let x = tail[k - head.len()] as int;
                assert(order[k] == tail[k - head.len()]);
                assert(below_moon(system, p, from + 1, x));
                let j = choose|j: int|
                    from + 1 <= j < moons(system, p).len() && #[trigger] below(
                        system,
                        x,
                        moons(system, p)[j] as int,
                    );
                assert(below(system, x, moons(system, p)[j] as int));
            }
        }
        assert forall|x: int|
            0 <= x < system.len() && below_moon(system, p, from, x) implies #[trigger] order.contains(
            x as usize,
        ) by {
            let j = choose|j: int|
                from <= j < moons(system, p).len() && #[trigger] below(
                    system,
                    x,
                    moons(system, p)[j] as int,
                );
            if j == from {
                assert(head.contains(x as usize));
                let k = choose|k: int| 0 <= k < head.len() && head[k] == x as usize;
                assert(order[k] == x as usize);
            } else {
                assert(below(system, x, moons(system, p)[j] as int));
                assert(below_moon(system, p, from + 1, x));
                assert(tail.contains(x as usize));
                let k = choose|k: int| 0 <= k < tail.len() && tail[k] == x as usize;
                assert(order[head.len() + k] == x as usize);
            }
        }
        assert forall|a: int, b: int| 0 <= a < order.len() && 0 <= b < order.len() && a != b implies order[a]
            != order[b] by {
            if a < head.len() && b < head.len() {
                assert(order[a] == head[a] && order[b] == head[b]);
            } else if a >= head.len() && b >= head.len() {
                assert(order[a] == tail[a - head.len()] && order[b] == tail[b - head.len()]);
            } else {
                let (h, t) = if a < head.len() {
                    (a, b - head.len())
                } else {
                    (b, a - head.len())
                };
                let x = tail[t] as int;
                assert(below(system, head[h] as int, m));
                assert(below_moon(system, p, from + 1, x));
                let j = choose|j: int|
                    from + 1 <= j < moons(system, p).len() && #[trigger] below(
                        system,
                        x,
                        moons(system, p)[j] as int,
                    );
                let other = moons(system, p)[j] as int;
                assert(moons(system, p)[from] < moons(system, p)[j]);
                assert(parent_of(system, other) == p);
                if head[h] == tail[t] {
                    lemma_moons_part(system, x, m, other);
                }
                assert(order[a] == if a < head.len() {
                    head[h]
                } else {
                    tail[t]
                });
                assert(order[b] == if a < head.len() {
                    tail[t]
                } else {
                    head[h]
                });
            }
        }
        assert forall|k: int| 0 <= k < order.len() implies parent_of(
            system,
            (#[trigger] order[k]) as int,
        ) == p || heralded(system, order, k) by {
            if k == 0 {
                assert(order[0] == head[0]);
            } else if k < head.len() {
                assert(order[k] == head[k]);
                assert(heralded(system, head, k));
                let e = choose|e: int|
                    0 <= e < k && (#[trigger] head[e]) == parent_of(system, head[k] as int);
                assert(order[e] == head[e]);
            } else {
                let t = k - head.len();
                assert(order[k] == tail[t]);
                if parent_of(system, tail[t] as int) != p {
                    assert(heralded(system, tail, t));
                    let e = choose|e: int|
                        0 <= e < t && (#[trigger] tail[e]) == parent_of(system, tail[t] as int);
                    assert(order[head.len() + e] == tail[e]);
                }
            }
        }
    }
}

/// The order computed for the sun lists every body exactly once, the sun
/// first and every other body after the body it orbits: when positions are
/// computed in this order, each body is placed around where its parent
/// already stands, and the sun, which orbits nothing, is never moved.
pub proof fn lemma_update_order_is_top_down(system: Seq<Planet>)
    requires
        tree_wf(system),
        system.len() <= usize::MAX,
    ensures
        subsystem(system, 0)[0] == 0,
        subsystem(system, 0).no_duplicates(),
        forall|x: int| 0 <= x < system.len() ==> #[trigger] subsystem(system, 0).contains(x as usize),
        forall|k: int|
            0 <= k < subsystem(system, 0).len() ==> (#[trigger] subsystem(system, 0)[k])
                < system.len(),
        forall|k: int|
            1 <= k < subsystem(system, 0).len() ==> #[trigger] heralded(
                system,
                subsystem(system, 0),
                k,
            ),
{
    lemma_subsystem_covers(system, 0);
    assert forall|x: int| 0 <= x < system.len() implies #[trigger] subsystem(system, 0).contains(
        x as usize,
    ) by {
        lemma_all_below_the_sun(system, x);
    }
}

} // verus!
