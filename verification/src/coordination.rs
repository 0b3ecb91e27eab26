use vstd::prelude::*;

use crate::errors::AnalyzerError;
use crate::periodic_table::{lookup, Element, PeriodicTable, RADIUS_LIMIT};
use crate::structures::{Atom, Coordinate, StructureBlock, COORD_LIMIT};

verus! {

/// Margin added to the sum of two atom radii when deciding whether the
/// atoms are bonded: 0.3 angstrom, in milliangstrom.
pub const BOND_TOLERANCE: i64 = 300;

/// The square of an integer.
pub open spec fn sq(x: int) -> int {
    x * x
}

/// Squared Euclidean distance of two positions, exact in milliangstrom^2.
pub open spec fn spec_dist_sq(a: Coordinate, b: Coordinate) -> int {
    sq(a.0 - b.0) + sq(a.1 - b.1) + sq(a.2 - b.2)
}

/// The atom radius the table gives for `a`'s element.
pub open spec fn atom_radius_of(t: Seq<(String, Element)>, a: Atom) -> int
    recommends
        lookup(t, a.element@) is Some,
{
    lookup(t, a.element@)->Some_0.atom_radius as int
}

/// Two atoms are bonded when their distance is at most the sum of their
/// radii plus the bond tolerance.  Compared on squares, which is exact
/// because both sides are non-negative integers.
pub open spec fn bonded(t: Seq<(String, Element)>, a: Atom, b: Atom) -> bool {
    spec_dist_sq(a.coordinate, b.coordinate) <= sq(
        atom_radius_of(t, a) + atom_radius_of(t, b) + BOND_TOLERANCE,
    )
}

/// Number of atoms among the first `k` that are bonded to atom `i`
/// (excluding `i` itself).
pub open spec fn bond_count_upto(
    t: Seq<(String, Element)>,
    atoms: Seq<Atom>,
    i: int,
    k: int,
) -> int
    decreases k,
{
    if k <= 0 {
        0
    } else {
        bond_count_upto(t, atoms, i, k - 1) + if k - 1 != i && bonded(t, atoms[i], atoms[k - 1]) {
            1int
        } else {
            0int
        }
    }
}

/// The coordination number of atom `i`: how many other atoms it is
/// bonded to.
pub open spec fn bond_count(t: Seq<(String, Element)>, atoms: Seq<Atom>, i: int) -> int {
    bond_count_upto(t, atoms, i, atoms.len() as int)
}

/// A partial bond count over `k` candidates never exceeds `k`.
proof fn lemma_bond_count_upto_le(t: Seq<(String, Element)>, atoms: Seq<Atom>, i: int, k: int)
    requires
        0 <= k,
    ensures
        0 <= bond_count_upto(t, atoms, i, k) <= k,
    decreases k,
{
    if k > 0 {
        lemma_bond_count_upto_le(t, atoms, i, k - 1);
    }
}

/// A square of a bounded value is bounded by the square of the bound.
proof fn lemma_sq_bound(x: int, m: int)
    by (nonlinear_arith)
    requires
        -m <= x <= m,
        0 <= m,
    ensures
        0 <= x * x <= m * m,
{
}

/// The bond relation does not depend on the order of the two atoms.
pub proof fn lemma_bonded_symmetric(t: Seq<(String, Element)>, a: Atom, b: Atom)
    ensures
        bonded(t, a, b) == bonded(t, b, a),
{
    assert(spec_dist_sq(a.coordinate, b.coordinate) == spec_dist_sq(b.coordinate, a.coordinate))
        by (nonlinear_arith);
}

/// Exact squared distance between two bounded positions.
pub fn distance_squared(a: &Coordinate, b: &Coordinate) -> (d: i128)
    requires
        a.in_bounds(),
        b.in_bounds(),
    ensures
        d == spec_dist_sq(*a, *b),
{
    let dx: i64 = a.0 - b.0;
    let dy: i64 = a.1 - b.1;
    let dz: i64 = a.2 - b.2;
    proof {
        lemma_sq_bound(dx as int, 2 * COORD_LIMIT as int);
        lemma_sq_bound(dy as int, 2 * COORD_LIMIT as int);
        lemma_sq_bound(dz as int, 2 * COORD_LIMIT as int);
    }
    (dx as i128) * (dx as i128) + (dy as i128) * (dy as i128) + (dz as i128) * (dz as i128)
}

/// The atom radius of every atom of `block`, in input order; fails with
/// `UnknownElement` exactly when some atom's element is absent from the
/// table.
fn radii_vec(block: &StructureBlock, table: &PeriodicTable) -> (r: Result<
    Vec<i64>,
    AnalyzerError,
>)
    requires
        table.wf(),
    ensures
        match r {
            Ok(v) => {
                &&& v@.len() == block.atoms@.len()
                &&& forall|i: int|
                    0 <= i < block.atoms@.len() ==> lookup(
                        table@,
                        (#[trigger] block.atoms@[i]).element@,
                    ) is Some
                &&& forall|i: int|
                    0 <= i < v@.len() ==> #[trigger] v@[i] == atom_radius_of(
                        table@,
                        block.atoms@[i],
                    )
                &&& forall|i: int| 0 <= i < v@.len() ==> 0 < #[trigger] v@[i] <= RADIUS_LIMIT
            },
            Err(e) => {
                &&& e == AnalyzerError::UnknownElement
                &&& exists|i: int|
                    0 <= i < block.atoms@.len() && lookup(
                        table@,
                        (#[trigger] block.atoms@[i]).element@,
                    ) is None
            },
        },
{
    let n = block.atoms.len();
    let mut radii: Vec<i64> = Vec::new();
    let mut i: usize = 0;
    while i < n
        invariant
            table.wf(),
            n == block.atoms@.len(),
            i <= n,
            radii@.len() == i,
            forall|k: int|
                0 <= k < i ==> lookup(table@, (#[trigger] block.atoms@[k]).element@) is Some,
            forall|k: int|
                0 <= k < i ==> #[trigger] radii@[k] == atom_radius_of(table@, block.atoms@[k]),
            forall|k: int| 0 <= k < i ==> 0 < #[trigger] radii@[k] <= RADIUS_LIMIT,
        decreases n - i,
    {
        match table.get(&block.atoms[i].element) {
            Some(e) => {
                proof {
                    crate::periodic_table::lemma_lookup_wf(
                        table@,
                        block.atoms@[i as int].element@,
                    );
                }
                radii.push(e.atom_radius);
            },
            None => {
                return Err(AnalyzerError::UnknownElement);
            },
        }
        i = i + 1;
    }
    Ok(radii)
}

/// The coordination numbers of one block: entry `i` is the number of
/// atoms bonded to atom `i`, under the radius table plus the fixed bond
/// tolerance.  Fails with `UnknownElement` exactly when some atom's
/// element is absent from the table.
pub fn calc_coordination(block: &StructureBlock, table: &PeriodicTable) -> (r: Result<
    Vec<u64>,
    AnalyzerError,
>)
    requires
        block.wf(),
        table.wf(),
    ensures
        match r {
            Ok(v) => {
                &&& forall|i: int|
                    0 <= i < block.atoms@.len() ==> lookup(
                        table@,
                        (#[trigger] block.atoms@[i]).element@,
                    ) is Some
                &&& v@.len() == block.atoms@.len()
                &&& forall|i: int|
                    0 <= i < v@.len() ==> #[trigger] v@[i] == bond_count(
                        table@,
                        block.atoms@,
                        i,
                    )
            },
            Err(e) => {
                &&& e == AnalyzerError::UnknownElement
                &&& exists|i: int|
                    0 <= i < block.atoms@.len() && lookup(
                        table@,
                        (#[trigger] block.atoms@[i]).element@,
                    ) is None
            },
        },
{
    let n = block.atoms.len();
    let radii = match radii_vec(block, table) {
        Ok(v) => v,
        Err(e) => {
            return Err(e);
        },
    };
    let mut counts: Vec<u64> = Vec::new();
    let mut i: usize = 0;
    while i < n
        invariant
            block.wf(),
            table.wf(),
            n == block.atoms@.len(),
            radii@.len() == n,
            forall|k: int|
                0 <= k < n ==> #[trigger] radii@[k] == atom_radius_of(table@, block.atoms@[k]),
            forall|k: int| 0 <= k < n ==> 0 < #[trigger] radii@[k] <= RADIUS_LIMIT,
            forall|k: int|
                0 <= k < n ==> lookup(table@, (#[trigger] block.atoms@[k]).element@) is Some,
            i <= n,
            counts@.len() == i,
            forall|k: int|
                0 <= k < i ==> #[trigger] counts@[k] == bond_count(table@, block.atoms@, k),
        decreases n - i,
    {
        let mut c: u64 = 0;
        let mut j: usize = 0;
        while j < n
            invariant
                block.wf(),
                table.wf(),
                n == block.atoms@.len(),
                radii@.len() == n,
                forall|k: int|
                    0 <= k < n ==> #[trigger] radii@[k] == atom_radius_of(table@, block.atoms@[k]),
                forall|k: int| 0 <= k < n ==> 0 < #[trigger] radii@[k] <= RADIUS_LIMIT,
                i < n,
                j <= n,
                c == bond_count_upto(table@, block.atoms@, i as int, j as int),
            decreases n - j,
        {
            if j != i {
                let d = distance_squared(&block.atoms[i].coordinate, &block.atoms[j].coordinate);
                let thr: i64 = radii[i] + radii[j] + BOND_TOLERANCE;
                proof {
                    lemma_bond_count_upto_le(table@, block.atoms@, i as int, j as int);
                }
                assert(0 <= (thr as i128) * (thr as i128) <= 40120090000i128) by (nonlinear_arith)
                    requires
                        0 < thr <= 200300,
                ;
                if d <= (thr as i128) * (thr as i128) {
                    c = c + 1;
                }
            }
            j = j + 1;
        }
        counts.push(c);
        i = i + 1;
    }
    Ok(counts)
}

/// A square matrix of bond counts, stored row-major.
pub struct SquareMatrix {
    pub n: usize,
    pub data: Vec<u64>,
}

/// Row-major index arithmetic stays in bounds.
proof fn lemma_rowmajor_bound(i: int, j: int, n: int)
    by (nonlinear_arith)
    requires
        0 <= i < n,
        0 <= j < n,
    ensures
        0 <= i * n + j < n * n,
{
}

impl SquareMatrix {
    /// The backing vector holds exactly n * n entries.
    pub open spec fn wf(self) -> bool {
        self.data@.len() == self.n * self.n
    }

    /// The entry in row `i`, column `j`.
    pub open spec fn spec_at(self, i: int, j: int) -> u64
        recommends
            0 <= i < self.n,
            0 <= j < self.n,
    {
        self.data@[i * self.n + j]
    }

    /// An n-by-n matrix of zeros.
    pub fn zeros(n: usize) -> (m: Self)
        requires
            n * n <= usize::MAX,
        ensures
            m.wf(),
            m.n == n,
            forall|i: int, j: int| 0 <= i < n && 0 <= j < n ==> m.spec_at(i, j) == 0,
    {
        let mut data: Vec<u64> = Vec::new();
        let total: usize = n * n;
        let mut k: usize = 0;
        while k < total
            invariant
                total == n * n,
                k <= total,
                data@.len() == k,
                forall|t: int| 0 <= t < k ==> data@[t] == 0,
            decreases total - k,
        {
            data.push(0);
            k = k + 1;
        }
        let m = SquareMatrix { n, data };
        proof {
            assert forall|i: int, j: int| 0 <= i < n && 0 <= j < n implies m.spec_at(i, j)
                == 0 by {
                lemma_rowmajor_bound(i, j, n as int);
            }
        }
        m
    }

    /// Read the entry in row `i`, column `j`.
    pub fn get(&self, i: usize, j: usize) -> (v: u64)
        requires
            self.wf(),
            i < self.n,
            j < self.n,
        ensures
            v == self.spec_at(i as int, j as int),
    {
        let len = self.data.len();
        proof {
            lemma_rowmajor_bound(i as int, j as int, self.n as int);
        }
        self.data[i * self.n + j]
    }

    /// Write the entry in row `i`, column `j`; all other entries keep
    /// their values.
    fn set(&mut self, i: usize, j: usize, v: u64)
        requires
            old(self).wf(),
            i < old(self).n,
            j < old(self).n,
        ensures
            final(self).wf(),
            final(self).n == old(self).n,
            final(self).spec_at(i as int, j as int) == v,
            forall|r: int, c: int|
                0 <= r < final(self).n && 0 <= c < final(self).n && !(r == i && c == j)
                    ==> final(self).spec_at(r, c) == old(self).spec_at(r, c),
    {
        let len = self.data.len();
        proof {
            lemma_rowmajor_bound(i as int, j as int, self.n as int);
        }
        let idx: usize = i * self.n + j;
        self.data.set(idx, v);
        proof {
            assert forall|r: int, c: int|
                0 <= r < self.n && 0 <= c < self.n && !(r == i && c == j) implies self.spec_at(
                r,
                c,
            ) == old(self).spec_at(r, c) by {
                lemma_rowmajor_bound(r, c, self.n as int);
                if r * self.n + c == i as int * self.n as int + j as int {
                    lemma_rowmajor_distinct(r, c, i as int, j as int, self.n as int);
                }
            }
        }
    }
}

/// Two distinct (row, column) pairs have distinct row-major indices.
proof fn lemma_rowmajor_distinct(r: int, c: int, i: int, j: int, n: int)
    by (nonlinear_arith)
    requires
        0 <= r < n,
        0 <= c < n,
        0 <= i < n,
        0 <= j < n,
        r * n + c == i * n + j,
    ensures
        r == i && c == j,
{
}

/// The full bond matrix of one block: entry (i, j), i != j, is 1 when
/// atoms i and j are bonded and 0 otherwise; the diagonal is 0.  The
/// matrix is symmetric.  Fails with `UnknownElement` exactly when some
/// atom's element is absent from the table.
pub fn calc_coordination_matrix(block: &StructureBlock, table: &PeriodicTable) -> (r: Result<
    SquareMatrix,
    AnalyzerError,
>)
    requires
        block.wf(),
        table.wf(),
        block.atoms@.len() * block.atoms@.len() <= usize::MAX,
    ensures
        match r {
            Ok(m) => {
                &&& forall|i: int|
                    0 <= i < block.atoms@.len() ==> lookup(
                        table@,
                        (#[trigger] block.atoms@[i]).element@,
                    ) is Some
                &&& m.wf()
                &&& m.n == block.atoms@.len()
                &&& forall|i: int, j: int|
                    0 <= i < m.n && 0 <= j < m.n ==> m.spec_at(i, j) == (if i != j && bonded(
                        table@,
                        block.atoms@[i],
                        block.atoms@[j],
                    ) {
                        1u64
                    } else {
                        0u64
                    })
                &&& forall|i: int, j: int|
                    0 <= i < m.n && 0 <= j < m.n ==> m.spec_at(i, j) == m.spec_at(j, i)
            },
            Err(e) => {
                &&& e == AnalyzerError::UnknownElement
                &&& exists|i: int|
                    0 <= i < block.atoms@.len() && lookup(
                        table@,
                        (#[trigger] block.atoms@[i]).element@,
                    ) is None
            },
        },
{
    let n = block.atoms.len();
    let radii = match radii_vec(block, table) {
        Ok(v) => v,
        Err(e) => {
            return Err(e);
        },
    };
    let mut m = SquareMatrix::zeros(n);
    let ghost desired = |i: int, j: int|
        if i != j && bonded(table@, block.atoms@[i], block.atoms@[j]) {
            1u64
        } else {
            0u64
        };
    let mut i: usize = 0;
    while i < n
        invariant
            block.wf(),
            table.wf(),
            n == block.atoms@.len(),
            radii@.len() == n,
            forall|k: int|
                0 <= k < n ==> #[trigger] radii@[k] == atom_radius_of(table@, block.atoms@[k]),
            forall|k: int| 0 <= k < n ==> 0 < #[trigger] radii@[k] <= RADIUS_LIMIT,
            m.wf(),
            m.n == n,
            i <= n,
            desired == (|r: int, c: int|
                if r != c && bonded(table@, block.atoms@[r], block.atoms@[c]) {
                    1u64
                } else {
                    0u64
                }),
            forall|r: int, c: int|
                0 <= r < i && 0 <= c < n ==> m.spec_at(r, c) == desired(r, c),
            forall|r: int, c: int|
                i <= r < n && 0 <= c < n ==> m.spec_at(r, c) == 0,
        decreases n - i,
    {
        let mut j: usize = 0;
        while j < n
            invariant
                block.wf(),
                table.wf(),
                n == block.atoms@.len(),
                radii@.len() == n,
                forall|k: int|
                    0 <= k < n ==> #[trigger] radii@[k] == atom_radius_of(table@, block.atoms@[k]),
                forall|k: int| 0 <= k < n ==> 0 < #[trigger] radii@[k] <= RADIUS_LIMIT,
                m.wf(),
                m.n == n,
                i < n,
                j <= n,
                desired == (|r: int, c: int|
                    if r != c && bonded(table@, block.atoms@[r], block.atoms@[c]) {
                        1u64
                    } else {
                        0u64
                    }),
                forall|r: int, c: int|
                    0 <= r < i && 0 <= c < n ==> m.spec_at(r, c) == desired(r, c),
                forall|c: int| 0 <= c < j ==> m.spec_at(i as int, c) == desired(i as int, c),
                forall|c: int| j <= c < n ==> m.spec_at(i as int, c) == 0,
                forall|r: int, c: int|
                    i < r < n && 0 <= c < n ==> m.spec_at(r, c) == 0,
            decreases n - j,
        {
            if j != i {
                let d = distance_squared(&block.atoms[i].coordinate, &block.atoms[j].coordinate);
                let thr: i64 = radii[i] + radii[j] + BOND_TOLERANCE;
                assert(0 <= (thr as i128) * (thr as i128) <= 40120090000i128) by (nonlinear_arith)
                    requires
                        0 < thr <= 200300,
                ;
                if d <= (thr as i128) * (thr as i128) {
                    m.set(i, j, 1);
                }
            }
            j = j + 1;
        }
        i = i + 1;
    }
    proof {
        assert forall|i2: int, j2: int| 0 <= i2 < n && 0 <= j2 < n implies m.spec_at(i2, j2)
            == m.spec_at(j2, i2) by {
            lemma_bonded_symmetric(table@, block.atoms@[i2], block.atoms@[j2]);
        }
    }
    Ok(m)
}

} // verus!
