use vstd::prelude::*;

use crate::coordination::{bond_count, bond_count_upto, bonded, calc_coordination_matrix, SquareMatrix};
use crate::errors::AnalyzerError;
use crate::periodic_table::{lookup, Element, PeriodicTable};
use crate::structures::{clone_atom, Atom, StructureBlock};

verus! {

/// Atoms with more bonded neighbours than this are skipped by the
/// substructure search, to keep the combinatorial step tractable.
pub const MAX_NEIGHBORS: usize = 11;

/// `c` selects `k` positions out of 0 .. n in strictly increasing order.
pub open spec fn is_sorted_subset(c: Seq<usize>, n: nat, k: nat) -> bool {
    &&& c.len() == k
    &&& forall|j: int| 0 <= j < c.len() ==> (#[trigger] c[j]) < n
    &&& forall|i: int, j: int| 0 <= i < j < c.len() ==> c[i] < c[j]
}

/// Some entry of `r` reads `q` with `v` appended.
pub open spec fn appended_in(r: Seq<Vec<usize>>, q: Seq<usize>, v: usize) -> bool {
    exists|u: int| 0 <= u < r.len() && (#[trigger] r[u])@ == q.push(v)
}

/// Appending an entry preserves `appended_in`.
proof fn lemma_appended_in_push(r: Seq<Vec<usize>>, w: Vec<usize>, q: Seq<usize>, v: usize)
    requires
        appended_in(r, q, v),
    ensures
        appended_in(r.push(w), q, v),
{
    let u = choose|u: int| 0 <= u < r.len() && (#[trigger] r[u])@ == q.push(v);
    assert(r.push(w)[u]@ == q.push(v));
}

/// Copy an index list.
fn copy_indices(v: &Vec<usize>) -> (r: Vec<usize>)
    ensures
        r@ == v@,
{
    let mut r: Vec<usize> = Vec::new();
    let mut i: usize = 0;
    while i < v.len()
        invariant
            i <= v.len(),
            r@ =~= v@.subrange(0, i as int),
        decreases v.len() - i,
    {
        r.push(v[i]);
        i = i + 1;
    }
    proof {
        assert(r@ =~= v@);
    }
    r
}

/// Copy an index list with one more index appended.
fn copy_indices_append(v: &Vec<usize>, val: usize) -> (r: Vec<usize>)
    ensures
        r@ == v@.push(val),
{
    let mut r = copy_indices(v);
    r.push(val);
    r
}

/// All ways to pick `k` positions out of 0 .. n in increasing order:
/// every entry of the result is such a selection, and every selection
/// occurs among the entries.
pub fn combinations(n: usize, k: usize) -> (r: Vec<Vec<usize>>)
    ensures
        forall|t: int| 0 <= t < r@.len() ==> is_sorted_subset((#[trigger] r@[t])@, n as nat, k as nat),
        forall|s: Seq<usize>|
            #[trigger] is_sorted_subset(s, n as nat, k as nat) ==> exists|t: int|
                0 <= t < r@.len() && (#[trigger] r@[t])@ == s,
    decreases n,
{
    if k == 0 {
        let mut r: Vec<Vec<usize>> = Vec::new();
        let empty: Vec<usize> = Vec::new();
        r.push(empty);
        proof {
            assert(is_sorted_subset(r@[0]@, n as nat, 0));
            assert forall|s: Seq<usize>| #[trigger] is_sorted_subset(s, n as nat, 0) implies exists|
                t: int,
            | 0 <= t < r@.len() && (#[trigger] r@[t])@ == s by {
                assert(s =~= r@[0]@);
            }
        }
        r
    } else if n == 0 {
        let r: Vec<Vec<usize>> = Vec::new();
        proof {
            assert forall|s: Seq<usize>| #[trigger] is_sorted_subset(s, 0, k as nat) implies exists|
                t: int,
            | 0 <= t < r@.len() && (#[trigger] r@[t])@ == s by {
                assert(s[0] < 0);
            }
        }
        r
    } else {
        let prev1 = combinations(n - 1, k);
        let prev2 = combinations(n - 1, k - 1);
        let v: usize = n - 1;
        let mut r: Vec<Vec<usize>> = Vec::new();
        let mut p: usize = 0;
        while p < prev1.len()
            invariant
                forall|t: int|
                    0 <= t < prev1@.len() ==> is_sorted_subset(
                        (#[trigger] prev1@[t])@,
                        (n - 1) as nat,
                        k as nat,
                    ),
                p <= prev1@.len(),
                r@.len() == p,
                forall|t: int| 0 <= t < p ==> (#[trigger] r@[t])@ == prev1@[t]@,
            decreases prev1@.len() - p,
        {
            r.push(copy_indices(&prev1[p]));
            p = p + 1;
        }
        let ghost len1 = prev1@.len();
        let mut q: usize = 0;
        while q < prev2.len()
            invariant
                n >= 1,
                k >= 1,
                v == n - 1,
                len1 == prev1@.len(),
                forall|t: int|
                    0 <= t < prev1@.len() ==> is_sorted_subset(
                        (#[trigger] prev1@[t])@,
                        (n - 1) as nat,
                        k as nat,
                    ),
                forall|t: int|
                    0 <= t < prev2@.len() ==> is_sorted_subset(
                        (#[trigger] prev2@[t])@,
                        (n - 1) as nat,
                        (k - 1) as nat,
                    ),
                q <= prev2@.len(),
                r@.len() == len1 + q,
                forall|t: int| 0 <= t < len1 ==> (#[trigger] r@[t])@ == prev1@[t]@,
                forall|t: int| 0 <= t < q ==> #[trigger] appended_in(r@, prev2@[t]@, v),
                forall|t: int|
                    0 <= t < r@.len() ==> is_sorted_subset((#[trigger] r@[t])@, n as nat, k as nat),
            decreases prev2@.len() - q,
        {
            let w = copy_indices_append(&prev2[q], v);
            let ghost old_r = r@;
            proof {
                let cs = prev2@[q as int]@;
                assert(is_sorted_subset(prev2@[q as int]@, (n - 1) as nat, (k - 1) as nat));
                assert(cs.len() == (k - 1) as nat);
                assert(cs.push(v).len() == k as nat);
                assert forall|i: int, j: int| 0 <= i < j < cs.push(v).len() implies cs.push(v)[i]
                    < cs.push(v)[j] by {
                    assert(is_sorted_subset(cs, (n - 1) as nat, (k - 1) as nat));
                    if j < cs.len() {
                    } else {
                        assert(cs.push(v)[j] == v);
                        assert(cs[i] < (n - 1) as nat);
                    }
                }
                assert forall|j: int| 0 <= j < cs.push(v).len() implies (#[trigger] cs.push(
                    v,
                )[j]) < n as nat by {
                    if j < cs.len() {
                        assert(cs[j] < (n - 1) as nat);
                    } else {
                        assert(cs.push(v)[j] == v);
                    }
                }
                assert(is_sorted_subset(cs.push(v), n as nat, k as nat));
            }
            r.push(w);
            proof {
                assert(r@[r@.len() - 1]@ == prev2@[q as int]@.push(v));
                assert forall|t: int| 0 <= t < q + 1 implies #[trigger] appended_in(
                    r@,
                    prev2@[t]@,
                    v,
                ) by {
                    if t < q {
                        lemma_appended_in_push(old_r, w, prev2@[t]@, v);
                    }
                }
            }
            q = q + 1;
        }
        proof {
            assert forall|s: Seq<usize>|
                #[trigger] is_sorted_subset(s, n as nat, k as nat) implies exists|t: int|
                0 <= t < r@.len() && (#[trigger] r@[t])@ == s by {
                assert(s.len() == k >= 1);
                let last = s[s.len() - 1];
                assert forall|j: int| 0 <= j < s.len() implies (#[trigger] s[j]) <= last by {
                    if j < s.len() - 1 {
                        assert(s[j] < s[s.len() - 1]);
                    }
                }
                if last < v {
                    assert(is_sorted_subset(s, (n - 1) as nat, k as nat));
                    let t = choose|t: int| 0 <= t < prev1@.len() && (#[trigger] prev1@[t])@ == s;
                    assert(r@[t]@ == s);
                } else {
                    assert(last == v);
                    let cs = s.drop_last();
                    assert forall|j: int| 0 <= j < cs.len() implies (#[trigger] cs[j]) < (n
                        - 1) as nat by {
                        assert(s[j] < s[s.len() - 1]);
                    }
                    assert(is_sorted_subset(cs, (n - 1) as nat, (k - 1) as nat));
                    let t2 = choose|t: int| 0 <= t < prev2@.len() && (#[trigger] prev2@[t])@ == cs;
                    assert(appended_in(r@, prev2@[t2]@, v));
                    let u = choose|u: int| 0 <= u < r@.len() && (#[trigger] r@[u])@ == cs.push(v);
                    assert(cs.push(v) =~= s);
                }
            }
        }
        r
    }
}

/// The bonded neighbours of atom `i` among the first `k` atoms, in
/// ascending index order.
pub open spec fn bonded_neighbors_upto(
    t: Seq<(String, Element)>,
    atoms: Seq<Atom>,
    i: int,
    k: int,
) -> Seq<usize>
    decreases k,
{
    if k <= 0 {
        Seq::empty()
    } else {
        let prev = bonded_neighbors_upto(t, atoms, i, k - 1);
        if k - 1 != i && bonded(t, atoms[i], atoms[k - 1]) {
            prev.push((k - 1) as usize)
        } else {
            prev
        }
    }
}

/// The full ascending list of bonded neighbours of atom `i`.
pub open spec fn bonded_neighbors(t: Seq<(String, Element)>, atoms: Seq<Atom>, i: int) -> Seq<
    usize,
> {
    bonded_neighbors_upto(t, atoms, i, atoms.len() as int)
}

/// A neighbour list never exceeds the scanned range.
proof fn lemma_bonded_neighbors_len(t: Seq<(String, Element)>, atoms: Seq<Atom>, i: int, k: int)
    requires
        0 <= k,
    ensures
        bonded_neighbors_upto(t, atoms, i, k).len() <= k,
        forall|j: int|
            0 <= j < bonded_neighbors_upto(t, atoms, i, k).len() ==> (
            #[trigger] bonded_neighbors_upto(t, atoms, i, k)[j]) < k,
    decreases k,
{
    if k > 0 {
        lemma_bonded_neighbors_len(t, atoms, i, k - 1);
    }
}

/// The ascending list of the indices bonded to atom `i`, read off one
/// row of the bond matrix.
fn neighbor_list(
    m: &SquareMatrix,
    i: usize,
    block: &StructureBlock,
    table: &PeriodicTable,
) -> (r: Vec<usize>)
    requires
        m.wf(),
        i < m.n,
        m.n == block.atoms@.len(),
        forall|a: int, b: int|
            0 <= a < m.n && 0 <= b < m.n ==> m.spec_at(a, b) == (if a != b && bonded(
                table@,
                block.atoms@[a],
                block.atoms@[b],
            ) {
                1u64
            } else {
                0u64
            }),
    ensures
        r@ == bonded_neighbors(table@, block.atoms@, i as int),
{
    let mut r: Vec<usize> = Vec::new();
    let mut j: usize = 0;
    while j < m.n
        invariant
            m.wf(),
            i < m.n,
            m.n == block.atoms@.len(),
            forall|a: int, b: int|
                0 <= a < m.n && 0 <= b < m.n ==> m.spec_at(a, b) == (if a != b && bonded(
                    table@,
                    block.atoms@[a],
                    block.atoms@[b],
                ) {
                    1u64
                } else {
                    0u64
                }),
            j <= m.n,
            r@ == bonded_neighbors_upto(table@, block.atoms@, i as int, j as int),
        decreases m.n - j,
    {
        if m.get(i, j) != 0 {
            r.push(j);
        }
        j = j + 1;
    }
    r
}

/// The length of the neighbour list is the coordination number: the
/// search's pruning bound speaks of how many atoms the centre is
/// bonded to.
pub proof fn lemma_neighbor_count_is_bond_count(
    t: Seq<(String, Element)>,
    atoms: Seq<Atom>,
    i: int,
)
    ensures
        bonded_neighbors(t, atoms, i).len() == bond_count(t, atoms, i),
{
    lemma_neighbor_count_upto(t, atoms, i, atoms.len() as int);
}

/// Partial neighbour lists and partial bond counts agree.
proof fn lemma_neighbor_count_upto(t: Seq<(String, Element)>, atoms: Seq<Atom>, i: int, k: int)
    ensures
        bonded_neighbors_upto(t, atoms, i, k).len() == bond_count_upto(t, atoms, i, k),
    decreases k,
{
    if k > 0 {
        lemma_neighbor_count_upto(t, atoms, i, k - 1);
    }
}

/// The atom index group of one candidate: the neighbour entries selected
/// by `comb`, then the central atom `i`.
pub open spec fn group_of(ns: Seq<usize>, comb: Seq<usize>, i: usize) -> Seq<usize> {
    Seq::new(comb.len(), |j: int| ns[comb[j] as int]).push(i)
}

/// `e` is a candidate group of the substructure search: a central atom
/// with at most `MAX_NEIGHBORS` bonded neighbours, together with a
/// strictly increasing selection of `size - 1` of those neighbours.
pub open spec fn is_substructure_group(
    e: Seq<usize>,
    t: Seq<(String, Element)>,
    atoms: Seq<Atom>,
    size: nat,
) -> bool {
    exists|i: usize, comb: Seq<usize>|
        {
            &&& i < atoms.len()
            &&& bonded_neighbors(t, atoms, i as int).len() <= MAX_NEIGHBORS
            &&& is_sorted_subset(comb, bonded_neighbors(t, atoms, i as int).len(), (size - 1) as nat)
            &&& e == #[trigger] group_of(bonded_neighbors(t, atoms, i as int), comb, i)
        }
}

/// The candidate group for centre `i` and selection `comb` occurs in `c`.
pub open spec fn group_present(
    c: Seq<Vec<usize>>,
    t: Seq<(String, Element)>,
    atoms: Seq<Atom>,
    i: usize,
    comb: Seq<usize>,
) -> bool {
    exists|u: int|
        0 <= u < c.len() && (#[trigger] c[u])@ == group_of(bonded_neighbors(t, atoms, i as int), comb, i)
}

/// Appending a group preserves `group_present`.
proof fn lemma_group_present_push(
    c: Seq<Vec<usize>>,
    w: Vec<usize>,
    t: Seq<(String, Element)>,
    atoms: Seq<Atom>,
    i: usize,
    comb: Seq<usize>,
)
    requires
        group_present(c, t, atoms, i, comb),
    ensures
        group_present(c.push(w), t, atoms, i, comb),
{
    let u = choose|u: int|
        0 <= u < c.len() && (#[trigger] c[u])@ == group_of(
            bonded_neighbors(t, atoms, i as int),
            comb,
            i,
        );
    assert(c.push(w)[u]@ == group_of(bonded_neighbors(t, atoms, i as int), comb, i));
}

/// All candidate atom-index groups of the substructure search on one
/// block: for every atom with at most `MAX_NEIGHBORS` bonded neighbours
/// and every increasing selection of `substructure_size - 1` of its
/// neighbours, the selected indices followed by the atom itself.  Every
/// group occurs, and nothing else.  Fails with `UnknownElement` exactly
/// when some atom's element is absent from the table.
pub fn substructure_candidates(
    block: &StructureBlock,
    table: &PeriodicTable,
    substructure_size: usize,
) -> (r: Result<Vec<Vec<usize>>, AnalyzerError>)
    requires
        block.wf(),
        table.wf(),
        block.atoms@.len() * block.atoms@.len() <= usize::MAX,
        substructure_size >= 1,
    ensures
        match r {
            Ok(c) => {
                &&& forall|i: int|
                    0 <= i < block.atoms@.len() ==> lookup(
                        table@,
                        (#[trigger] block.atoms@[i]).element@,
                    ) is Some
                &&& forall|u: int|
                    0 <= u < c@.len() ==> is_substructure_group(
                        (#[trigger] c@[u])@,
                        table@,
                        block.atoms@,
                        substructure_size as nat,
                    )
                &&& forall|i: usize, comb: Seq<usize>|
                    i < block.atoms@.len() && bonded_neighbors(table@, block.atoms@, i as int).len()
                        <= MAX_NEIGHBORS && is_sorted_subset(
                        comb,
                        bonded_neighbors(table@, block.atoms@, i as int).len(),
                        (substructure_size - 1) as nat,
                    ) ==> #[trigger] group_present(c@, table@, block.atoms@, i, comb)
            },
            Err(e) => {
                &&& e == AnalyzerError::UnknownElement
                &&& exists|i: int|
                    0 <= i < block.atoms@.len() && lookup(
                        table@,
                        (#[trigger] block.atoms@[i]).element@,
                    ) is None
            },
        },
{
    let matrix = match calc_coordination_matrix(block, table) {
        Ok(m) => m,
        Err(e) => {
            return Err(e);
        },
    };
    let n = matrix.n;
    let mut out: Vec<Vec<usize>> = Vec::new();
    let mut i: usize = 0;
    while i < n
        invariant
            block.wf(),
            table.wf(),
            substructure_size >= 1,
            matrix.wf(),
            n == matrix.n,
            n == block.atoms@.len(),
            forall|a: int, b: int|
                0 <= a < matrix.n && 0 <= b < matrix.n ==> matrix.spec_at(a, b) == (if a != b
                    && bonded(table@, block.atoms@[a], block.atoms@[b]) {
                    1u64
                } else {
                    0u64
                }),
            i <= n,
            forall|u: int|
                0 <= u < out@.len() ==> is_substructure_group(
                    (#[trigger] out@[u])@,
                    table@,
                    block.atoms@,
                    substructure_size as nat,
                ),
            forall|i2: usize, comb: Seq<usize>|
                i2 < i && bonded_neighbors(table@, block.atoms@, i2 as int).len() <= MAX_NEIGHBORS
                    && is_sorted_subset(
                    comb,
                    bonded_neighbors(table@, block.atoms@, i2 as int).len(),
                    (substructure_size - 1) as nat,
                ) ==> #[trigger] group_present(out@, table@, block.atoms@, i2, comb),
        decreases n - i,
    {
        let ns = neighbor_list(&matrix, i, block, table);
        if ns.len() <= MAX_NEIGHBORS {
            let combs = combinations(ns.len(), substructure_size - 1);
            let mut q: usize = 0;
            while q < combs.len()
                invariant
                    block.wf(),
                    table.wf(),
                    substructure_size >= 1,
                    n == block.atoms@.len(),
                    i < n,
                    ns@ == bonded_neighbors(table@, block.atoms@, i as int),
                    ns@.len() <= MAX_NEIGHBORS,
                    forall|t: int|
                        0 <= t < combs@.len() ==> is_sorted_subset(
                            (#[trigger] combs@[t])@,
                            ns@.len(),
                            (substructure_size - 1) as nat,
                        ),
                    forall|s: Seq<usize>|
                        #[trigger] is_sorted_subset(s, ns@.len(), (substructure_size - 1) as nat)
                            ==> exists|t: int|
                            0 <= t < combs@.len() && (#[trigger] combs@[t])@ == s,
                    q <= combs@.len(),
                    forall|u: int|
                        0 <= u < out@.len() ==> is_substructure_group(
                            (#[trigger] out@[u])@,
                            table@,
                            block.atoms@,
                            substructure_size as nat,
                        ),
                    forall|i2: usize, comb: Seq<usize>|
                        i2 < i && bonded_neighbors(table@, block.atoms@, i2 as int).len()
                            <= MAX_NEIGHBORS && is_sorted_subset(
                            comb,
                            bonded_neighbors(table@, block.atoms@, i2 as int).len(),
                            (substructure_size - 1) as nat,
                        ) ==> #[trigger] group_present(out@, table@, block.atoms@, i2, comb),
                    forall|t: int|
                        0 <= t < q ==> #[trigger] group_present(
                            out@,
                            table@,
                            block.atoms@,
                            i,
                            combs@[t]@,
                        ),
                decreases combs@.len() - q,
            {
                let comb = &combs[q];
                let mut e: Vec<usize> = Vec::new();
                let mut j: usize = 0;
                while j < comb.len()
                    invariant
                        ns@ == bonded_neighbors(table@, block.atoms@, i as int),
                        is_sorted_subset(comb@, ns@.len(), (substructure_size - 1) as nat),
                        j <= comb@.len(),
                        e@ =~= Seq::new(j as nat, |j2: int| ns@[comb@[j2] as int]),
                    decreases comb@.len() - j,
                {
                    e.push(ns[comb[j]]);
                    proof {
                        assert(e@ =~= Seq::new((j + 1) as nat, |j2: int| ns@[comb@[j2] as int]));
                    }
                    j = j + 1;
                }
                e.push(i);
                let ghost old_out = out@;
                out.push(e);
                proof {
                    assert(out@[out@.len() - 1]@ == group_of(
                        bonded_neighbors(table@, block.atoms@, i as int),
                        combs@[q as int]@,
                        i,
                    )) by {
                        assert(e@ =~= group_of(
                            bonded_neighbors(table@, block.atoms@, i as int),
                            combs@[q as int]@,
                            i,
                        ));
                    }
                    assert(group_present(out@, table@, block.atoms@, i, combs@[q as int]@));
                    assert(is_substructure_group(
                        out@[out@.len() - 1]@,
                        table@,
                        block.atoms@,
                        substructure_size as nat,
                    ));
                    assert forall|i2: usize, comb2: Seq<usize>|
                        i2 < i && bonded_neighbors(table@, block.atoms@, i2 as int).len()
                            <= MAX_NEIGHBORS && is_sorted_subset(
                            comb2,
                            bonded_neighbors(table@, block.atoms@, i2 as int).len(),
                            (substructure_size - 1) as nat,
                        ) implies #[trigger] group_present(
                        out@,
                        table@,
                        block.atoms@,
                        i2,
                        comb2,
                    ) by {
                        lemma_group_present_push(old_out, e, table@, block.atoms@, i2, comb2);
                    }
                    assert forall|t: int| 0 <= t < q + 1 implies #[trigger] group_present(
                        out@,
                        table@,
                        block.atoms@,
                        i,
                        combs@[t]@,
                    ) by {
                        if t < q {
                            lemma_group_present_push(old_out, e, table@, block.atoms@, i, combs@[t]@);
                        }
                    }
                    assert forall|u: int| 0 <= u < out@.len() implies is_substructure_group(
                        (#[trigger] out@[u])@,
                        table@,
                        block.atoms@,
                        substructure_size as nat,
                    ) by {
                        if u < old_out.len() {
                            assert(out@[u] == old_out[u]);
                        }
                    }
                }
                q = q + 1;
            }
            proof {
                assert forall|comb: Seq<usize>|
                    is_sorted_subset(
                        comb,
                        bonded_neighbors(table@, block.atoms@, i as int).len(),
                        (substructure_size - 1) as nat,
                    ) implies #[trigger] group_present(out@, table@, block.atoms@, i, comb) by {
                    let t = choose|t: int|
                        0 <= t < combs@.len() && (#[trigger] combs@[t])@ == comb;
                    assert(group_present(out@, table@, block.atoms@, i, combs@[t]@));
                }
            }
        }
        i = i + 1;
    }
    Ok(out)
}

/// The atoms of `atoms` whose element reads `e`, in input order, among
/// the first `k`.
pub open spec fn filter_by_element_upto(atoms: Seq<Atom>, e: Seq<char>, k: int) -> Seq<Atom>
    decreases k,
{
    if k <= 0 {
        Seq::empty()
    } else {
        let prev = filter_by_element_upto(atoms, e, k - 1);
        if atoms[k - 1].element@ == e {
            prev.push(atoms[k - 1])
        } else {
            prev
        }
    }
}

/// The atoms of `atoms` whose element reads `e`, in input order.
pub open spec fn filter_by_element(atoms: Seq<Atom>, e: Seq<char>) -> Seq<Atom> {
    filter_by_element_upto(atoms, e, atoms.len() as int)
}

/// The block restricted to atoms of one element, keeping their order
/// and all other metadata.
pub fn filter_atoms_by_element(block: &StructureBlock, element: &String) -> (r: StructureBlock)
    ensures
        r.atoms@ == filter_by_element(block.atoms@, element@),
        r.number == block.number,
        r.energy == block.energy,
        r.symmetry == block.symmetry,
        r.crystal == block.crystal,
{
    let mut atoms: Vec<Atom> = Vec::new();
    let mut i: usize = 0;
    while i < block.atoms.len()
        invariant
            i <= block.atoms@.len(),
            atoms@ == filter_by_element_upto(block.atoms@, element@, i as int),
        decreases block.atoms@.len() - i,
    {
        if block.atoms[i].element.eq(element) {
            atoms.push(clone_atom(&block.atoms[i]));
        }
        i = i + 1;
    }
    StructureBlock {
        number: block.number,
        energy: block.energy,
        symmetry: block.symmetry.clone(),
        crystal: block.crystal,
        atoms,
    }
}

/// The indices of the scores below the threshold, ascending, among the
/// first `k`.
pub open spec fn kept_upto(scores: Seq<u64>, threshold: u64, k: int) -> Seq<int>
    decreases k,
{
    if k <= 0 {
        Seq::empty()
    } else {
        let prev = kept_upto(scores, threshold, k - 1);
        if scores[k - 1] < threshold {
            prev.push(k - 1)
        } else {
            prev
        }
    }
}

/// Kept indices are valid and ascending.
pub proof fn lemma_kept_in_range(scores: Seq<u64>, threshold: u64, k: int)
    requires
        0 <= k,
    ensures
        forall|t: int|
            0 <= t < kept_upto(scores, threshold, k).len() ==> 0 <= (#[trigger] kept_upto(
                scores,
                threshold,
                k,
            )[t]) < k,
    decreases k,
{
    if k > 0 {
        lemma_kept_in_range(scores, threshold, k - 1);
        let prev = kept_upto(scores, threshold, k - 1);
        assert forall|t: int|
            0 <= t < kept_upto(scores, threshold, k).len() implies 0 <= (#[trigger] kept_upto(
            scores,
            threshold,
            k,
        )[t]) < k by {
            if scores[k - 1] < threshold {
                assert(kept_upto(scores, threshold, k) == prev.push(k - 1));
                if t < prev.len() {
                    assert(kept_upto(scores, threshold, k)[t] == prev[t]);
                } else {
                    assert(kept_upto(scores, threshold, k)[t] == k - 1);
                }
            } else {
                assert(kept_upto(scores, threshold, k) == prev);
            }
        }
    }
}

/// One accepted substructure match: the owning structure's index, the
/// atom indices of the candidate, and its score.
pub struct MatchReport {
    pub structure_index: usize,
    pub atom_indices: Vec<usize>,
    pub rmsd: u64,
}

/// The reports for the candidates whose score is below the threshold:
/// one report per accepted candidate, in candidate order, carrying the
/// structure index, the candidate's atom indices, and its score.
pub fn filter_matches(
    structure_index: usize,
    candidates: &Vec<Vec<usize>>,
    scores: &Vec<u64>,
    threshold: u64,
) -> (r: Vec<MatchReport>)
    requires
        scores@.len() == candidates@.len(),
    ensures
        r@.len() == kept_upto(scores@, threshold, scores@.len() as int).len(),
        forall|t: int|
            0 <= t < r@.len() ==> {
                let k = kept_upto(scores@, threshold, scores@.len() as int)[t];
                &&& (#[trigger] r@[t]).structure_index == structure_index
                &&& r@[t].rmsd == scores@[k]
                &&& r@[t].atom_indices@ == candidates@[k]@
            },
{
    let mut r: Vec<MatchReport> = Vec::new();
    let mut k: usize = 0;
    while k < scores.len()
        invariant
            scores@.len() == candidates@.len(),
            k <= scores@.len(),
            r@.len() == kept_upto(scores@, threshold, k as int).len(),
            forall|t: int|
                0 <= t < r@.len() ==> {
                    let k2 = kept_upto(scores@, threshold, k as int)[t];
                    &&& (#[trigger] r@[t]).structure_index == structure_index
                    &&& r@[t].rmsd == scores@[k2]
                    &&& r@[t].atom_indices@ == candidates@[k2]@
                },
        decreases scores@.len() - k,
    {
        proof {
            lemma_kept_in_range(scores@, threshold, k as int);
        }
        if scores[k] < threshold {
            r.push(
                MatchReport {
                    structure_index,
                    atom_indices: copy_indices(&candidates[k]),
                    rmsd: scores[k],
                },
            );
        }
        k = k + 1;
    }
    r
}

} // verus!
