//! The invariant of the body tree.

use vstd::prelude::*;
use crate::planet::Planet;

verus! {

/// The moon list of body `p`.
pub open spec fn moons(system: Seq<Planet>, p: int) -> Seq<usize> {
    system[p].moon_indices@
}

/// The body that body `i` orbits.
pub open spec fn parent_of(system: Seq<Planet>, i: int) -> int {
    system[i].orbit.unwrap().parent_index as int
}

/// Body 0 is the sun, with no orbit and no feature; every other body orbits a
/// body that was created before it.
pub open spec fn rooted(system: Seq<Planet>) -> bool {
    &&& system.len() >= 1
    &&& system[0].orbit is None
    &&& system[0].feat is None
    &&& forall|i: int|
        1 <= i < system.len() ==> {
            &&& (#[trigger] system[i]).orbit is Some
            &&& system[i].orbit.unwrap().wf()
            &&& parent_of(system, i) < i
        }
}

/// Every entry of a moon list is a body that orbits the list's owner, and
/// every list is strictly ascending.
pub open spec fn moons_orbit_owner(system: Seq<Planet>) -> bool {
    &&& forall|p: int, j: int|
        0 <= p < system.len() && 0 <= j < moons(system, p).len() ==> {
            &&& p < (#[trigger] moons(system, p)[j]) < system.len()
            &&& system[moons(system, p)[j] as int].orbit is Some
            &&& parent_of(system, moons(system, p)[j] as int) == p
        }
    &&& forall|p: int, j: int, k: int|
        0 <= p < system.len() && 0 <= j < k < moons(system, p).len() ==> (#[trigger] moons(
            system,
            p,
        )[j]) < (#[trigger] moons(system, p)[k])
}

/// Every body but the sun stands in the moon list of the body it orbits.
pub open spec fn moons_complete(system: Seq<Planet>) -> bool {
    forall|i: int|
        1 <= i < system.len() ==> moons(system, #[trigger] parent_of(system, i)).contains(
            i as usize,
        )
}

/// The bodies form a tree rooted at the sun, and the moon lists say so.
pub open spec fn tree_wf(system: Seq<Planet>) -> bool {
    &&& rooted(system)
    &&& moons_orbit_owner(system)
    &&& moons_complete(system)
}

/// Two systems with the same bodies in the same places: orbits and moon lists
/// agree, and features agree in kind.
pub open spec fn same_shape(a: Seq<Planet>, b: Seq<Planet>) -> bool {
    &&& a.len() == b.len()
    &&& forall|i: int|
        0 <= i < a.len() ==> {
            &&& (#[trigger] a[i]).orbit == b[i].orbit
            &&& a[i].moon_indices == b[i].moon_indices
        }
}

/// The tree does not depend on the features: a sound system whose bodies get
/// other features, the sun none, stays sound.
pub proof fn lemma_features_apart(pre: Seq<Planet>, post: Seq<Planet>)
    requires
        tree_wf(pre),
        same_shape(pre, post),
        post[0].feat is None,
    ensures
        tree_wf(post),
{
    assert forall|i: int| 1 <= i < post.len() implies {
        &&& (#[trigger] post[i]).orbit is Some
        &&& post[i].orbit.unwrap().wf()
        &&& parent_of(post, i) < i
    } by {
        assert(pre[i].orbit is Some);
    }
    assert forall|p: int| 0 <= p < post.len() implies moons(post, p) == moons(pre, p) by {
        assert(pre[p].moon_indices == post[p].moon_indices);
    }
    assert forall|p: int, j: int| 0 <= p < post.len() && 0 <= j < moons(post, p).len() implies {
        &&& p < (#[trigger] moons(post, p)[j]) < post.len()
        &&& post[moons(post, p)[j] as int].orbit is Some
        &&& parent_of(post, moons(post, p)[j] as int) == p
    } by {
        let m = moons(pre, p)[j];
        assert(p < m < pre.len());
        assert(pre[m as int].orbit is Some);
    }
    assert forall|p: int, j: int, k: int|
        0 <= p < post.len() && 0 <= j < k < moons(post, p).len() implies (#[trigger] moons(
        post,
        p,
    )[j]) < (#[trigger] moons(post, p)[k]) by {
        assert(moons(pre, p)[j] < moons(pre, p)[k]);
    }
    assert forall|i: int| 1 <= i < post.len() implies moons(
        post,
        #[trigger] parent_of(post, i),
    ).contains(i as usize) by {
        assert(pre[i].orbit is Some);
        assert(parent_of(post, i) == parent_of(pre, i));
        assert(moons(pre, parent_of(pre, i)).contains(i as usize));
    }
}

/// How many steps lead from body `i` to the sun.
pub open spec fn depth(system: Seq<Planet>, i: int) -> nat
    decreases i,
{
    if 0 < i < system.len() && rooted(system) {
        1 + depth(system, parent_of(system, i))
    } else {
        0
    }
}

/// The ancestor of body `i` that is `steps` orbits up, the sun at the latest.
pub open spec fn ancestor(system: Seq<Planet>, i: int, steps: nat) -> int
    decreases steps,
{
    if steps == 0 || !(0 < i < system.len()) || !rooted(system) {
        i
    } else {
        ancestor(system, parent_of(system, i), (steps - 1) as nat)
    }
}

/// The body graph has no cycle: from every body, following the orbits upward
/// for as many steps as the body is deep ends at the sun.
pub proof fn lemma_every_body_descends_from_the_sun(system: Seq<Planet>, i: int)
    requires
        rooted(system),
        0 <= i < system.len(),
    ensures
        ancestor(system, i, depth(system, i)) == 0,
        depth(system, i) <= i,
    decreases i,
{
    if i > 0 {
        lemma_every_body_descends_from_the_sun(system, parent_of(system, i));
    }
}

} // verus!
