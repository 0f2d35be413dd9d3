use vstd::prelude::*;
use crate::lattice::{Lattice, lemma_slot_bounds, lemma_slot_injective, lemma_slot_mirror, mirror_slot};

verus! {

/// Number of distinct cyclic site states.
pub const NUM_STATES: u8 = 3;

pub open spec fn valid_state(s: u8) -> bool {
    s < NUM_STATES
}

/// The state one cyclic position forward.
pub open spec fn next_state(s: u8) -> u8 {
    if s == 2 {
        0u8
    } else {
        (s + 1) as u8
    }
}

/// What one neighbor in state `nbr` contributes to the imbalance score of a
/// site in state `curr`: `+1` if the neighbor already holds the site's next
/// state, `-1` if it holds the site's current state, `0` otherwise.
pub open spec fn nbr_score(curr: u8, nbr: u8) -> int {
    if nbr == next_state(curr) {
        1
    } else if nbr == curr {
        -1
    } else {
        0
    }
}

/// Imbalance score of site `i` accumulated over its first `j` neighbor
/// slots.
pub open spec fn delta_prefix(lat: Lattice, states: Seq<u8>, i: int, j: int) -> int
    decreases j,
{
    if j <= 0 {
        0
    } else {
        delta_prefix(lat, states, i, j - 1) + nbr_score(states[i], states[lat.nbr(i, j - 1)])
    }
}

/// Imbalance score of site `i`: the number of its neighbors in its next
/// state minus the number in its current state.
pub open spec fn delta_of(lat: Lattice, states: Seq<u8>, i: int) -> int {
    delta_prefix(lat, states, i, lat.nbr_count())
}

/// How the transitioning site's own score moves for each of its neighbors,
/// as a function of the site's previous state `prev` and the neighbor's
/// state `nbr`.
pub open spec fn site_adj(prev: u8, nbr: u8) -> int {
    if nbr == prev {
        1
    } else if nbr == next_state(prev) {
        -2
    } else {
        1
    }
}

/// The adjustments of `site_adj` summed over the first `j` neighbor slots
/// of `site`, all read in the pre-transition states.
pub open spec fn site_adj_prefix(lat: Lattice, states: Seq<u8>, site: int, j: int) -> int
    decreases j,
{
    if j <= 0 {
        0
    } else {
        site_adj_prefix(lat, states, site, j - 1) + site_adj(
            states[site],
            states[lat.nbr(site, j - 1)],
        )
    }
}

/// How a neighbor's score moves when the adjacent site leaves state `prev`,
/// as a function of the neighbor's own state `nbr`.
pub open spec fn nbr_adj(prev: u8, nbr: u8) -> int {
    if nbr == prev {
        2
    } else {
        -1
    }
}

/// A partial imbalance score over `j` slots stays within `[-j, j]`.
pub proof fn lemma_delta_prefix_bounds(lat: Lattice, states: Seq<u8>, i: int, j: int)
    requires
        0 <= j,
    ensures
        -j <= delta_prefix(lat, states, i, j) <= j,
    decreases j,
{
    if j > 0 {
        lemma_delta_prefix_bounds(lat, states, i, j - 1);
    }
}

/// The summed site adjustments over `j` slots stay within `[-2j, 2j]`.
pub proof fn lemma_site_adj_prefix_bounds(lat: Lattice, states: Seq<u8>, site: int, j: int)
    requires
        0 <= j,
    ensures
        -2 * j <= site_adj_prefix(lat, states, site, j) <= 2 * j,
    decreases j,
{
    if j > 0 {
        lemma_site_adj_prefix_bounds(lat, states, site, j - 1);
    }
}

/// The imbalance score of a well-formed site lies within plus or minus its
/// neighbor count.
pub proof fn lemma_delta_bounds(lat: Lattice, states: Seq<u8>, i: int)
    requires
        lat.wf(),
    ensures
        -lat.nbr_count() <= delta_of(lat, states, i) <= lat.nbr_count(),
{
    lemma_delta_prefix_bounds(lat, states, i, lat.nbr_count());
}

/// Two state assignments that agree on site `v` and on its first `j`
/// neighbors give `v` the same partial score.
pub proof fn lemma_delta_prefix_same(lat: Lattice, s1: Seq<u8>, s2: Seq<u8>, v: int, j: int)
    requires
        0 <= j,
        s1[v] == s2[v],
        forall|t: int| 0 <= t < j ==> s1[#[trigger] lat.nbr(v, t)] == s2[lat.nbr(v, t)],
    ensures
        delta_prefix(lat, s1, v, j) == delta_prefix(lat, s2, v, j),
    decreases j,
{
    if j > 0 {
        lemma_delta_prefix_same(lat, s1, s2, v, j - 1);
    }
}

/// Advancing `site` by one cyclic position changes its own partial score by
/// exactly the summed `site_adj` adjustments, the ones the incremental
/// update applies.
pub proof fn lemma_site_delta_change(lat: Lattice, os: Seq<u8>, site: int, j: int)
    requires
        lat.wf(),
        os.len() == lat.spec_size(),
        forall|t: int| 0 <= t < os.len() ==> valid_state(#[trigger] os[t]),
        0 <= site < lat.spec_size(),
        0 <= j <= lat.nbr_count(),
    ensures
        delta_prefix(lat, os.update(site, next_state(os[site])), site, j) == delta_prefix(
            lat,
            os,
            site,
            j,
        ) + site_adj_prefix(lat, os, site, j),
    decreases j,
{
    let ns = os.update(site, next_state(os[site]));
    if j > 0 {
        lemma_site_delta_change(lat, os, site, j - 1);
        lemma_slot_bounds(lat.spec_size(), lat.spec_range(), site, j - 1);
        let v = lat.nbr(site, j - 1);
        assert(ns[v] == os[v]);
        assert(ns[site] == next_state(os[site]));
        assert(valid_state(os[site]));
        assert(valid_state(os[v]));
        assert(nbr_score(next_state(os[site]), os[v]) == nbr_score(os[site], os[v]) + site_adj(
            os[site],
            os[v],
        ));
    }
}

/// Advancing `site` changes the partial score of its neighbor `v` by
/// exactly `nbr_adj`, once the slot `t0` of `v` that points at `site` has
/// been passed, and not at all before.
pub proof fn lemma_nbr_delta_change(
    lat: Lattice,
    os: Seq<u8>,
    site: int,
    v: int,
    t0: int,
    j: int,
)
    requires
        lat.wf(),
        os.len() == lat.spec_size(),
        forall|t: int| 0 <= t < os.len() ==> valid_state(#[trigger] os[t]),
        0 <= site < lat.spec_size(),
        0 <= v < lat.spec_size(),
        v != site,
        0 <= t0 < lat.nbr_count(),
        lat.nbr(v, t0) == site,
        0 <= j <= lat.nbr_count(),
    ensures
        delta_prefix(lat, os.update(site, next_state(os[site])), v, j) == delta_prefix(
            lat,
            os,
            v,
            j,
        ) + if t0 < j {
            nbr_adj(os[site], os[v])
        } else {
            0
        },
    decreases j,
{
    let ns = os.update(site, next_state(os[site]));
    if j > 0 {
        lemma_nbr_delta_change(lat, os, site, v, t0, j - 1);
        lemma_slot_bounds(lat.spec_size(), lat.spec_range(), v, j - 1);
        let w = lat.nbr(v, j - 1);
        assert(ns[v] == os[v]);
        if j - 1 == t0 {
            assert(w == site);
            assert(ns[w] == next_state(os[site]));
            assert(valid_state(os[site]));
            assert(valid_state(os[v]));
            assert(nbr_score(os[v], next_state(os[site])) == nbr_score(os[v], os[site]) + nbr_adj(
                os[site],
                os[v],
            ));
        } else {
            lemma_slot_injective(lat.spec_size(), lat.spec_range(), v, j - 1, t0);
            assert(w != site);
            assert(ns[w] == os[w]);
        }
    }
}

/// Advancing `site` leaves the score of every site outside its neighborhood
/// unchanged.
pub proof fn lemma_far_delta_same(lat: Lattice, os: Seq<u8>, site: int, v: int)
    requires
        lat.wf(),
        os.len() == lat.spec_size(),
        0 <= site < lat.spec_size(),
        0 <= v < lat.spec_size(),
        v != site,
        !lat.is_neighbor(site, v),
    ensures
        delta_of(lat, os.update(site, next_state(os[site])), v) == delta_of(lat, os, v),
{
    let ns = os.update(site, next_state(os[site]));
    assert forall|t: int| 0 <= t < lat.nbr_count() implies ns[#[trigger] lat.nbr(v, t)] == os[lat.nbr(
        v,
        t,
    )] by {
        lemma_slot_bounds(lat.spec_size(), lat.spec_range(), v, t);
        if lat.nbr(v, t) == site {
            lemma_slot_mirror(lat.spec_size(), lat.spec_range(), v, t);
            assert(lat.nbr(site, mirror_slot(lat.spec_range(), t)) == v);
            assert(lat.is_neighbor(site, v));
        }
    }
    lemma_delta_prefix_same(lat, ns, os, v, lat.nbr_count());
}

} // verus!
