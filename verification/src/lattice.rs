use vstd::prelude::*;
use vstd::arithmetic::div_mod::lemma_fundamental_div_mod_converse_mod;

verus! {

/// Largest accepted neighbor half-width.  Keeping the half-width well below
/// the integer limits guarantees that neighbor counts and imbalance scores
/// never come close to overflowing.
pub const MAX_RANGE: usize = 0x1000_0000;

/// Ring position `k` steps to the left of `i`, i.e. `(i - k) mod size`,
/// written without negative intermediate values.
pub open spec fn ring_left(size: int, i: int, k: int) -> int {
    if i >= k {
        i - k
    } else {
        i + size - k
    }
}

/// Ring position `k` steps to the right of `i`, i.e. `(i + k) mod size`,
/// written without modular arithmetic.
pub open spec fn ring_right(size: int, i: int, k: int) -> int {
    if i + k < size {
        i + k
    } else {
        i + k - size
    }
}

/// Neighbor of site `i` at slot `j`.  Slots `0 .. range` hold the left
/// neighbors at offsets `1 ..= range`; slots `range .. 2 * range` hold the
/// right neighbors at the same offsets.
pub open spec fn ring_slot(size: int, range: int, i: int, j: int) -> int {
    if j < range {
        ring_left(size, i, j + 1)
    } else {
        ring_right(size, i, j - range + 1)
    }
}

/// The slot of `ring_slot(size, range, i, j)` that points back at `i`:
/// a left slot at offset `k` is mirrored by the right slot at offset `k`
/// and vice versa.
pub open spec fn mirror_slot(range: int, j: int) -> int {
    if j < range {
        j + range
    } else {
        j - range
    }
}

/// Accepted ring configurations.  Configurations where twice the half-width
/// reaches the ring size are rejected: on such rings the two neighbors at
/// the extreme offsets would coincide, so a site's neighbor list would hold
/// duplicate entries.
pub open spec fn valid_config(size: int, range: int) -> bool {
    &&& 1 <= range
    &&& range <= MAX_RANGE as int
    &&& 2 * range < size
}

/// Immutable ring topology: for each of the `size` sites, the fixed ordered
/// list of its `2 * range` neighbor indices.
pub struct Lattice {
    pub size: usize,
    pub range: usize,
    pub neighbors: Vec<Vec<usize>>,
}

impl Lattice {
    pub open spec fn spec_size(self) -> int {
        self.size as int
    }

    pub open spec fn spec_range(self) -> int {
        self.range as int
    }

    /// Every site of a valid ring has the same number of neighbors.
    pub open spec fn nbr_count(self) -> int {
        2 * self.spec_range()
    }

    /// The neighbor of site `i` at slot `j`, as a mathematical function of
    /// the configuration alone.
    pub open spec fn nbr(self, i: int, j: int) -> int {
        ring_slot(self.spec_size(), self.spec_range(), i, j)
    }

    /// `b` occurs among the first `j` slots of the neighbor list of `a`.
    pub open spec fn is_neighbor_before(self, a: int, b: int, j: int) -> bool {
        exists|t: int| 0 <= t < j && self.nbr(a, t) == b
    }

    /// `b` occurs in the neighbor list of `a`.
    pub open spec fn is_neighbor(self, a: int, b: int) -> bool {
        self.is_neighbor_before(a, b, self.nbr_count())
    }

    /// Well-formedness: the stored lists enumerate exactly the ring
    /// neighbors `(i - k) mod size` and `(i + k) mod size` for
    /// `k = 1 ..= range`.
    pub open spec fn wf(self) -> bool {
        &&& valid_config(self.spec_size(), self.spec_range())
        &&& self.neighbors@.len() == self.spec_size()
        &&& forall|i: int|
            0 <= i < self.spec_size() ==> (#[trigger] self.neighbors@[i])@.len() == self.nbr_count()
        &&& forall|i: int, j: int|
            0 <= i < self.spec_size() && 0 <= j < self.nbr_count() ==> (
            #[trigger] self.neighbors@[i]@[j]) as int == self.nbr(i, j)
    }

    /// Builds the ring topology for `size` sites with neighbor half-width
    /// `range`: site `i` is linked to `(i - k) mod size` and
    /// `(i + k) mod size` for every offset `k` in `1 ..= range`.  Returns
    /// `None` exactly on the rejected configurations.
    pub fn create_regular_ring(size: usize, range: usize) -> (r: Option<Lattice>)
        ensures
            r is Some <==> valid_config(size as int, range as int),
            r matches Some(lat) ==> lat.wf() && lat.spec_size() == size as int
                && lat.spec_range() == range as int,
    {
        if range < 1 || range > MAX_RANGE {
            return None;
        }
        if 2 * range >= size {
            return None;
        }
        let mut neighbors: Vec<Vec<usize>> = Vec::new();
        let mut i: usize = 0;
        while i < size
            invariant
                valid_config(size as int, range as int),
                i <= size,
                neighbors@.len() == i as int,
                forall|ip: int|
                    0 <= ip < i as int ==> (#[trigger] neighbors@[ip])@.len() == 2 * range as int,
                forall|ip: int, jp: int|
                    0 <= ip < i as int && 0 <= jp < 2 * range as int ==> (
                    #[trigger] neighbors@[ip]@[jp]) as int == ring_slot(
                        size as int,
                        range as int,
                        ip,
                        jp,
                    ),
            decreases size - i,
        {
            let mut row: Vec<usize> = Vec::new();
            let mut k: usize = 1;
            while k <= range
                invariant
                    valid_config(size as int, range as int),
                    i < size,
                    1 <= k <= range + 1,
                    row@.len() == k - 1,
                    forall|jp: int|
                        0 <= jp < k - 1 ==> (#[trigger] row@[jp]) as int == ring_slot(
                            size as int,
                            range as int,
                            i as int,
                            jp,
                        ),
                decreases range + 1 - k,
            {
                let v: usize = if i >= k {
                    i - k
                } else {
                    i + (size - k)
                };
                row.push(v);
                k = k + 1;
            }
            let mut k2: usize = 1;
            while k2 <= range
                invariant
                    valid_config(size as int, range as int),
                    i < size,
                    1 <= k2 <= range + 1,
                    row@.len() == range + k2 - 1,
                    forall|jp: int|
                        0 <= jp < range + k2 - 1 ==> (#[trigger] row@[jp]) as int == ring_slot(
                            size as int,
                            range as int,
                            i as int,
                            jp,
                        ),
                decreases range + 1 - k2,
            {
                let d: usize = size - i;
                let v: usize = if k2 < d {
                    i + k2
                } else {
                    k2 - d
                };
                row.push(v);
                k2 = k2 + 1;
            }
            neighbors.push(row);
            i = i + 1;
        }
        Some(Lattice { size, range, neighbors })
    }

    pub fn size(&self) -> (r: usize)
        ensures
            r as int == self.spec_size(),
    {
        self.size
    }

    pub fn range(&self) -> (r: usize)
        ensures
            r as int == self.spec_range(),
    {
        self.range
    }

    pub fn neighbor_count(&self) -> (r: usize)
        requires
            self.wf(),
        ensures
            r as int == self.nbr_count(),
    {
        2 * self.range
    }

    /// The neighbor of `site` at slot `j`.
    pub fn neighbor(&self, site: usize, j: usize) -> (r: usize)
        requires
            self.wf(),
            site < self.spec_size(),
            j < self.nbr_count(),
        ensures
            r as int == self.nbr(site as int, j as int),
            r < self.spec_size(),
            r != site,
    {
        proof {
            lemma_slot_bounds(self.spec_size(), self.spec_range(), site as int, j as int);
        }
        self.neighbors[site][j]
    }

    /// The full ordered neighbor list of `site`.
    pub fn neighbors_of(&self, site: usize) -> (r: Vec<usize>)
        requires
            self.wf(),
            site < self.spec_size(),
        ensures
            r@.len() == self.nbr_count(),
            forall|j: int|
                0 <= j < self.nbr_count() ==> (#[trigger] r@[j]) as int == self.nbr(site as int, j),
            forall|j: int| 0 <= j < self.nbr_count() ==> (#[trigger] r@[j]) < self.spec_size(),
    {
        let count = self.neighbor_count();
        let mut r: Vec<usize> = Vec::new();
        let mut j: usize = 0;
        while j < count
            invariant
                self.wf(),
                site < self.spec_size(),
                count as int == self.nbr_count(),
                j <= count,
                r@.len() == j as int,
                forall|jp: int|
                    0 <= jp < j as int ==> (#[trigger] r@[jp]) as int == self.nbr(site as int, jp),
                forall|jp: int| 0 <= jp < j as int ==> (#[trigger] r@[jp]) < self.spec_size(),
            decreases count - j,
        {
            let v = self.neighbor(site, j);
            r.push(v);
            j = j + 1;
        }
        r
    }
}

/// Every neighbor slot names a site on the ring, and never the site itself.
pub proof fn lemma_slot_bounds(size: int, range: int, i: int, j: int)
    requires
        valid_config(size, range),
        0 <= i < size,
        0 <= j < 2 * range,
    ensures
        0 <= ring_slot(size, range, i, j) < size,
        ring_slot(size, range, i, j) != i,
{
}

/// Distinct slots of one site's neighbor list name distinct sites.
pub proof fn lemma_slot_injective(size: int, range: int, i: int, j1: int, j2: int)
    requires
        valid_config(size, range),
        0 <= i < size,
        0 <= j1 < 2 * range,
        0 <= j2 < 2 * range,
        j1 != j2,
    ensures
        ring_slot(size, range, i, j1) != ring_slot(size, range, i, j2),
{
}

/// The neighbor relation is symmetric slot by slot: if slot `j` of site `i`
/// names `v`, then the mirrored slot of site `v` names `i` back.
pub proof fn lemma_slot_mirror(size: int, range: int, i: int, j: int)
    requires
        valid_config(size, range),
        0 <= i < size,
        0 <= j < 2 * range,
    ensures
        0 <= mirror_slot(range, j) < 2 * range,
        ring_slot(size, range, ring_slot(size, range, i, j), mirror_slot(range, j)) == i,
{
}

/// `ring_right` is `(i + k) mod size` and `ring_left` is `(i - k) mod size`.
pub proof fn lemma_ring_is_mod(size: int, i: int, k: int)
    requires
        0 < size,
        0 <= i < size,
        1 <= k <= size,
    ensures
        ring_right(size, i, k) == (i + k) % size,
        ring_left(size, i, k) == (i - k) % size,
{
    if i + k < size {
        lemma_fundamental_div_mod_converse_mod(i + k, size, 0, i + k);
    } else {
        lemma_fundamental_div_mod_converse_mod(i + k, size, 1, i + k - size);
    }
    if i >= k {
        lemma_fundamental_div_mod_converse_mod(i - k, size, 0, i - k);
    } else {
        lemma_fundamental_div_mod_converse_mod(i - k, size, -1, i + size - k);
    }
}

/// Topology symmetry: every site `i` is a neighbor of `(i + k) mod size`
/// and of `(i - k) mod size` for every offset `k` in `1 ..= range`, and
/// both of those sites are neighbors of `i`.
pub proof fn lemma_topology_symmetry(lat: Lattice, i: int, k: int)
    requires
        lat.wf(),
        0 <= i < lat.spec_size(),
        1 <= k <= lat.spec_range(),
    ensures
        lat.is_neighbor(i, (i + k) % lat.spec_size()),
        lat.is_neighbor((i + k) % lat.spec_size(), i),
        lat.is_neighbor(i, (i - k) % lat.spec_size()),
        lat.is_neighbor((i - k) % lat.spec_size(), i),
{
    let size = lat.spec_size();
    let range = lat.spec_range();
    lemma_ring_is_mod(size, i, k);
    let right = (i + k) % size;
    let left = (i - k) % size;
    assert(lat.nbr(i, range + k - 1) == right);
    assert(lat.nbr(i, k - 1) == left);
    lemma_slot_mirror(size, range, i, range + k - 1);
    assert(lat.nbr(right, k - 1) == i);
    lemma_slot_mirror(size, range, i, k - 1);
    assert(lat.nbr(left, range + k - 1) == i);
}

} // verus!
