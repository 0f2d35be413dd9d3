use vstd::prelude::*;
use crate::lattice::{Lattice, lemma_slot_bounds, lemma_slot_injective, lemma_slot_mirror, mirror_slot};
use crate::deltas::{
    NUM_STATES, valid_state, next_state, delta_prefix, delta_of, site_adj, site_adj_prefix,
    nbr_adj, lemma_site_adj_prefix_bounds, lemma_delta_bounds, lemma_site_delta_change,
    lemma_nbr_delta_change, lemma_far_delta_same,
};

verus! {

/// Valid state assignments for a lattice: one state per site, each one in
/// `{0, ..., NUM_STATES - 1}`.
pub open spec fn valid_states(lat: Lattice, states: Seq<u8>) -> bool {
    &&& states.len() == lat.spec_size()
    &&& forall|i: int| 0 <= i < states.len() ==> valid_state(#[trigger] states[i])
}

/// The mutable simulation state: per-site cyclic states and the
/// incrementally maintained per-site imbalance scores from which the
/// transition rates are derived.
pub struct System {
    pub lattice: Lattice,
    pub states: Vec<u8>,
    pub deltas: Vec<i64>,
}

impl System {
    pub open spec fn spec_size(self) -> int {
        self.lattice.spec_size()
    }

    /// The central invariant: the lattice and the states are well formed,
    /// and every stored imbalance score equals the score recomputed from
    /// scratch out of the current states.
    pub open spec fn wf(self) -> bool {
        &&& self.lattice.wf()
        &&& valid_states(self.lattice, self.states@)
        &&& self.deltas@.len() == self.spec_size()
        &&& forall|i: int|
            0 <= i < self.spec_size() ==> (#[trigger] self.deltas@[i]) as int == delta_of(
                self.lattice,
                self.states@,
                i,
            )
    }

    /// Builds a system over `lattice` from an initial state assignment,
    /// computing every imbalance score with a full pass.  Returns `None`
    /// exactly when the assignment has the wrong length or holds an entry
    /// outside `{0, ..., NUM_STATES - 1}`.
    pub fn initialize(lattice: Lattice, initial_states: Vec<u8>) -> (r: Option<System>)
        requires
            lattice.wf(),
        ensures
            r is Some <==> valid_states(lattice, initial_states@),
            r matches Some(sys) ==> sys.wf() && sys.lattice == lattice && sys.states@
                == initial_states@,
    {
        let size = lattice.size();
        if initial_states.len() != size {
            return None;
        }
        let mut i: usize = 0;
        while i < size
            invariant
                lattice.wf(),
                size as int == lattice.spec_size(),
                initial_states@.len() == size as int,
                i <= size,
                forall|t: int| 0 <= t < i as int ==> valid_state(#[trigger] initial_states@[t]),
            decreases size - i,
        {
            if initial_states[i] >= NUM_STATES {
                return None;
            }
            i = i + 1;
        }
        let mut deltas: Vec<i64> = Vec::new();
        let mut s: usize = 0;
        while s < size
            invariant
                lattice.wf(),
                size as int == lattice.spec_size(),
                initial_states@.len() == size as int,
                forall|t: int| 0 <= t < size as int ==> valid_state(#[trigger] initial_states@[t]),
                s <= size,
                deltas@.len() == s as int,
                forall|t: int|
                    0 <= t < s as int ==> (#[trigger] deltas@[t]) as int == delta_of(
                        lattice,
                        initial_states@,
                        t,
                    ),
            decreases size - s,
        {
            let d = compute_delta(&lattice, &initial_states, s);
            deltas.push(d);
            s = s + 1;
        }
        Some(System { lattice, states: initial_states, deltas })
    }

    /// Advances `site` by one cyclic position and restores the invariant by
    /// visiting only the site's own neighborhood: each neighbor's score and
    /// the site's own score move by the fixed adjustment that the
    /// neighbor's state dictates.  The result is exactly what a full
    /// recomputation from the new states would produce.
    pub fn advance(&mut self, site: usize)
        requires
            old(self).wf(),
            (site as int) < old(self).spec_size(),
        ensures
            final(self).wf(),
            final(self).lattice == old(self).lattice,
            final(self).states@ == old(self).states@.update(
                site as int,
                next_state(old(self).states@[site as int]),
            ),
    {
        let ghost os: Seq<u8> = self.states@;
        let ghost lat: Lattice = self.lattice;
        let prev = self.states[site];
        let new_s = next_of(prev);
        self.states.set(site, new_s);
        let ghost ns: Seq<u8> = self.states@;
        let count = self.lattice.neighbor_count();
        let mut j: usize = 0;
        while j < count
            invariant
                lat.wf(),
                self.lattice == lat,
                (site as int) < lat.spec_size(),
                os.len() == lat.spec_size(),
                forall|t: int| 0 <= t < os.len() ==> valid_state(#[trigger] os[t]),
                prev == os[site as int],
                new_s == next_state(prev),
                ns == os.update(site as int, new_s),
                self.states@ == ns,
                self.deltas@.len() == lat.spec_size(),
                count as int == lat.nbr_count(),
                j <= count,
                (self.deltas@[site as int]) as int == delta_of(lat, os, site as int)
                    + site_adj_prefix(lat, os, site as int, j as int),
                forall|t: int|
                    0 <= t < j as int ==> (#[trigger] self.deltas@[lat.nbr(site as int, t)]) as int
                        == delta_of(lat, ns, lat.nbr(site as int, t)),
                forall|v: int|
                    0 <= v < lat.spec_size() && v != site as int && !lat.is_neighbor_before(
                        site as int,
                        v,
                        j as int,
                    ) ==> (#[trigger] self.deltas@[v]) as int == delta_of(lat, os, v),
            decreases count - j,
        {
            let nbr = self.lattice.neighbor(site, j);
            let ghost nv = nbr as int;
            proof {
                if lat.is_neighbor_before(site as int, nv, j as int) {
                    let t = choose|t: int|
                        0 <= t < j as int && lat.nbr(site as int, t) == nv;
                    lemma_slot_injective(lat.spec_size(), lat.spec_range(), site as int, t, j as int);
                }
                assert(!lat.is_neighbor_before(site as int, nv, j as int));
                lemma_delta_bounds(lat, os, nv);
                lemma_delta_bounds(lat, os, site as int);
                lemma_site_adj_prefix_bounds(lat, os, site as int, j as int);
                assert((self.deltas@[nv]) as int == delta_of(lat, os, nv));
            }
            let nbr_state = self.states[nbr];
            if nbr_state == prev {
                let d = self.deltas[nbr];
                self.deltas.set(nbr, d + 2);
                let d2 = self.deltas[site];
                self.deltas.set(site, d2 + 1);
            } else if nbr_state == new_s {
                let d = self.deltas[nbr];
                self.deltas.set(nbr, d - 1);
                let d2 = self.deltas[site];
                self.deltas.set(site, d2 - 2);
            } else {
                let d = self.deltas[nbr];
                self.deltas.set(nbr, d - 1);
                let d2 = self.deltas[site];
                self.deltas.set(site, d2 + 1);
            }
            proof {
                assert(ns[nv] == os[nv]);
                assert((self.deltas@[nv]) as int == delta_of(lat, os, nv) + nbr_adj(prev, os[nv]));
                assert((self.deltas@[site as int]) as int == delta_of(lat, os, site as int)
                    + site_adj_prefix(lat, os, site as int, j as int) + site_adj(prev, os[nv]));
                lemma_slot_mirror(lat.spec_size(), lat.spec_range(), site as int, j as int);
                let t0 = mirror_slot(lat.spec_range(), j as int);
                lemma_nbr_delta_change(lat, os, site as int, nv, t0, lat.nbr_count());
                assert((self.deltas@[nv]) as int == delta_of(lat, ns, nv));
                assert(site_adj_prefix(lat, os, site as int, j as int + 1) == site_adj_prefix(
                    lat,
                    os,
                    site as int,
                    j as int,
                ) + site_adj(os[site as int], os[lat.nbr(site as int, j as int)]));
                assert forall|t: int|
                    0 <= t < j as int implies lat.nbr(site as int, t) != nv && lat.nbr(
                    site as int,
                    t,
                ) != site as int by {
                    lemma_slot_injective(lat.spec_size(), lat.spec_range(), site as int, t, j as int);
                    lemma_slot_bounds(lat.spec_size(), lat.spec_range(), site as int, t);
                }
                assert forall|v: int|
                    0 <= v < lat.spec_size() && v != site as int && !lat.is_neighbor_before(
                        site as int,
                        v,
                        j as int + 1,
                    ) implies (#[trigger] self.deltas@[v]) as int == delta_of(lat, os, v) by {
                    assert(lat.nbr(site as int, j as int) == nv);
                    assert(v != nv);
                    if lat.is_neighbor_before(site as int, v, j as int) {
                        let t = choose|t: int|
                            0 <= t < j as int && lat.nbr(site as int, t) == v;
                        assert(lat.is_neighbor_before(site as int, v, j as int + 1));
                    }
                }
            }
            j = j + 1;
        }
        proof {
            lemma_site_delta_change(lat, os, site as int, lat.nbr_count());
            assert forall|v: int|
                0 <= v < lat.spec_size() implies (#[trigger] self.deltas@[v]) as int == delta_of(
                lat,
                ns,
                v,
            ) by {
                if v == site as int {
                } else if lat.is_neighbor(site as int, v) {
                    let t = choose|t: int|
                        0 <= t < lat.nbr_count() && lat.nbr(site as int, t) == v;
                    assert((self.deltas@[lat.nbr(site as int, t)]) as int == delta_of(
                        lat,
                        ns,
                        lat.nbr(site as int, t),
                    ));
                } else {
                    lemma_far_delta_same(lat, os, site as int, v);
                }
            }
            assert(valid_state(next_state(prev)));
            assert(valid_states(lat, ns));
        }
    }

    pub fn size(&self) -> (r: usize)
        ensures
            r as int == self.spec_size(),
    {
        self.lattice.size()
    }

    pub fn lattice(&self) -> (r: &Lattice)
        ensures
            *r == self.lattice,
    {
        &self.lattice
    }

    /// The current state of site `i`.
    pub fn state(&self, i: usize) -> (r: u8)
        requires
            self.wf(),
            (i as int) < self.spec_size(),
        ensures
            r == self.states@[i as int],
            valid_state(r),
    {
        self.states[i]
    }

    /// A snapshot of the full state assignment, for external observers.
    pub fn states_snapshot(&self) -> (r: Vec<u8>)
        requires
            self.wf(),
        ensures
            r@ == self.states@,
    {
        let size = self.lattice.size();
        let mut r: Vec<u8> = Vec::new();
        let mut i: usize = 0;
        while i < size
            invariant
                self.wf(),
                size as int == self.spec_size(),
                i <= size,
                r@.len() == i as int,
                forall|t: int| 0 <= t < i as int ==> #[trigger] r@[t] == self.states@[t],
            decreases size - i,
        {
            let v = self.states[i];
            r.push(v);
            i = i + 1;
        }
        proof {
            assert(r@ =~= self.states@);
        }
        r
    }

    /// The incrementally maintained imbalance score of site `i`.
    pub fn delta(&self, i: usize) -> (r: i64)
        requires
            self.wf(),
            (i as int) < self.spec_size(),
        ensures
            r as int == delta_of(self.lattice, self.states@, i as int),
    {
        self.deltas[i]
    }

    /// The imbalance score of site `i` recomputed from scratch: the oracle
    /// against which the incremental path can be checked.  Its contract
    /// coincides with the contract of `delta`.
    pub fn delta_from_scratch(&self, i: usize) -> (r: i64)
        requires
            self.wf(),
            (i as int) < self.spec_size(),
        ensures
            r as int == delta_of(self.lattice, self.states@, i as int),
    {
        compute_delta(&self.lattice, &self.states, i)
    }
}

/// The state one cyclic position forward.
fn next_of(s: u8) -> (r: u8)
    requires
        valid_state(s),
    ensures
        r == next_state(s),
        valid_state(r),
{
    if s == 2 {
        0
    } else {
        s + 1
    }
}

/// One full-pass imbalance score: the number of `i`'s neighbors in its next
/// state minus the number in its current state.
fn compute_delta(lattice: &Lattice, states: &Vec<u8>, i: usize) -> (r: i64)
    requires
        lattice.wf(),
        states@.len() == lattice.spec_size(),
        forall|t: int| 0 <= t < states@.len() ==> valid_state(#[trigger] states@[t]),
        (i as int) < lattice.spec_size(),
    ensures
        r as int == delta_of(*lattice, states@, i as int),
{
    let count = lattice.neighbor_count();
    let cur = states[i];
    let nxt = next_of(cur);
    let mut acc: i64 = 0;
    let mut j: usize = 0;
    while j < count
        invariant
            lattice.wf(),
            states@.len() == lattice.spec_size(),
            forall|t: int| 0 <= t < states@.len() ==> valid_state(#[trigger] states@[t]),
            (i as int) < lattice.spec_size(),
            count as int == lattice.nbr_count(),
            j <= count,
            cur == states@[i as int],
            nxt == next_state(cur),
            acc as int == delta_prefix(*lattice, states@, i as int, j as int),
            -(j as int) <= acc as int <= j as int,
        decreases count - j,
    {
        let nbr = lattice.neighbor(i, j);
        let nbr_state = states[nbr];
        if nbr_state == nxt {
            acc = acc + 1;
        } else if nbr_state == cur {
            acc = acc - 1;
        }
        j = j + 1;
    }
    acc
}

/// Rate consistency: in a well-formed system every incrementally maintained
/// imbalance score equals the score recomputed from scratch out of the
/// current states.  A site's transition rate is a fixed function of its
/// score and the coupling alone, so the maintained rates agree with a full
/// recomputation as well.  `advance` preserves `wf`, so this holds after
/// any sequence of transitions.
pub proof fn lemma_rate_consistency(sys: System, i: int)
    requires
        sys.wf(),
        0 <= i < sys.spec_size(),
    ensures
        (sys.deltas@[i]) as int == delta_of(sys.lattice, sys.states@, i),
{
}

/// State validity: in a well-formed system every site holds a state in
/// `{0, ..., NUM_STATES - 1}`.  Together with the contract of `advance`,
/// which moves exactly one site forward by exactly one cyclic position,
/// this holds after any sequence of transitions.
pub proof fn lemma_state_validity(sys: System, i: int)
    requires
        sys.wf(),
        0 <= i < sys.spec_size(),
    ensures
        valid_state(sys.states@[i]),
{
}

} // verus!
