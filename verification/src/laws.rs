use vstd::prelude::*;

use crate::perms::{is_permutation, lemma_permutation_no_duplicates};
use crate::rmsd::{
    candidate_ok, candidate_present, center_scaled, coords_bounded, invert, mirror, permute,
    points_bounded, sum_x, sum_y, sum_z, variant_of, CPoint,
};
use crate::structures::Coordinate;

verus! {

/// A coordinate sequence reordered by a permutation.
pub open spec fn permute_coords(s: Seq<Coordinate>, p: Seq<usize>) -> Seq<Coordinate> {
    Seq::new(p.len(), |j: int| s[p[j] as int])
}

/// The composition p after q: entry j is p[q[j]].
pub open spec fn compose(p: Seq<usize>, q: Seq<usize>) -> Seq<usize> {
    Seq::new(q.len(), |j: int| p[q[j] as int])
}

/// A sum of one coordinate component over a sequence.
spec fn csum(s: Seq<Coordinate>, f: spec_fn(Coordinate) -> int) -> int
    decreases s.len(),
{
    if s.len() == 0 {
        0
    } else {
        csum(s.drop_last(), f) + f(s.last())
    }
}

/// A sum of one coordinate component over selected entries.
spec fn selsum(s: Seq<Coordinate>, idx: Seq<usize>, f: spec_fn(Coordinate) -> int) -> int
    decreases idx.len(),
{
    if idx.len() == 0 {
        0
    } else {
        selsum(s, idx.drop_last(), f) + f(s[idx.last() as int])
    }
}

/// Removing one selector subtracts its term from the selected sum.
proof fn lemma_selsum_remove(
    s: Seq<Coordinate>,
    idx: Seq<usize>,
    pos: int,
    f: spec_fn(Coordinate) -> int,
)
    requires
        0 <= pos < idx.len(),
    ensures
        selsum(s, idx, f) == selsum(s, idx.remove(pos), f) + f(s[idx[pos] as int]),
    decreases idx.len(),
{
    if pos == idx.len() - 1 {
        assert(idx.remove(pos) =~= idx.drop_last());
    } else {
        assert(idx.remove(pos).drop_last() =~= idx.drop_last().remove(pos));
        assert(idx.remove(pos).last() == idx.last());
        lemma_selsum_remove(s, idx.drop_last(), pos, f);
    }
}

/// A selected sum only reads the selected entries: dropping an
/// unselected final entry of the data changes nothing.
proof fn lemma_selsum_drop_data(s: Seq<Coordinate>, idx: Seq<usize>, f: spec_fn(Coordinate) -> int)
    requires
        s.len() >= 1,
        forall|j: int| 0 <= j < idx.len() ==> (#[trigger] idx[j]) < s.len() - 1,
    ensures
        selsum(s, idx, f) == selsum(s.drop_last(), idx, f),
    decreases idx.len(),
{
    if idx.len() > 0 {
        lemma_selsum_drop_data(s, idx.drop_last(), f);
        assert(s.drop_last()[idx.last() as int] == s[idx.last() as int]);
    }
}

/// Summing over a permutation of the indices gives the plain sum.
proof fn lemma_selsum_permutation(s: Seq<Coordinate>, p: Seq<usize>, f: spec_fn(Coordinate) -> int)
    requires
        s.len() <= usize::MAX,
        is_permutation(p, s.len()),
    ensures
        selsum(s, p, f) == csum(s, f),
    decreases s.len(),
{
    let n = s.len();
    if n > 0 {
        lemma_permutation_no_duplicates(p, n);
        assert(p.contains((n - 1) as usize));
        let pos = choose|j: int| 0 <= j < p.len() && p[j] == (n - 1) as usize;
        lemma_selsum_remove(s, p, pos, f);
        let q = p.remove(pos);
        p.remove_ensures(pos);
        assert forall|j: int| 0 <= j < q.len() implies (#[trigger] q[j]) < (n - 1) as nat by {
            if j < pos {
                assert(q[j] == p[j]);
                assert(p[j] != p[pos]);
            } else {
                assert(q[j] == p[j + 1]);
                assert(p[j + 1] != p[pos]);
            }
        }
        assert forall|w: usize| w < (n - 1) as nat implies #[trigger] q.contains(w) by {
            assert(p.contains(w));
            let j = choose|j: int| 0 <= j < p.len() && p[j] == w;
            if j < pos {
                assert(q[j] == w);
            } else {
                assert(j != pos);
                assert(q[j - 1] == w);
            }
        }
        assert(is_permutation(q, s.drop_last().len()));
        lemma_selsum_drop_data(s, q, f);
        lemma_selsum_permutation(s.drop_last(), q, f);
    }
}

/// The component sums agree with `csum` of the matching selector.
proof fn lemma_sums_are_csum(s: Seq<Coordinate>)
    ensures
        sum_x(s) == csum(s, |c: Coordinate| c.0 as int),
        sum_y(s) == csum(s, |c: Coordinate| c.1 as int),
        sum_z(s) == csum(s, |c: Coordinate| c.2 as int),
    decreases s.len(),
{
    if s.len() > 0 {
        lemma_sums_are_csum(s.drop_last());
    }
}

/// `csum` over a permuted sequence is the selected sum.
proof fn lemma_csum_permuted(s: Seq<Coordinate>, p: Seq<usize>, f: spec_fn(Coordinate) -> int)
    requires
        forall|j: int| 0 <= j < p.len() ==> (#[trigger] p[j]) < s.len(),
    ensures
        csum(permute_coords(s, p), f) == selsum(s, p, f),
    decreases p.len(),
{
    if p.len() > 0 {
        assert(permute_coords(s, p).drop_last() =~= permute_coords(s, p.drop_last()));
        assert(permute_coords(s, p).last() == s[p.last() as int]);
        lemma_csum_permuted(s, p.drop_last(), f);
    }
}

/// The component sums of a sequence are unchanged by permuting it.
pub proof fn lemma_sums_permutation_invariant(s: Seq<Coordinate>, p: Seq<usize>)
    requires
        s.len() <= usize::MAX,
        is_permutation(p, s.len()),
    ensures
        sum_x(permute_coords(s, p)) == sum_x(s),
        sum_y(permute_coords(s, p)) == sum_y(s),
        sum_z(permute_coords(s, p)) == sum_z(s),
{
    let fx = |c: Coordinate| c.0 as int;
    let fy = |c: Coordinate| c.1 as int;
    let fz = |c: Coordinate| c.2 as int;
    lemma_sums_are_csum(s);
    lemma_sums_are_csum(permute_coords(s, p));
    lemma_csum_permuted(s, p, fx);
    lemma_csum_permuted(s, p, fy);
    lemma_csum_permuted(s, p, fz);
    lemma_selsum_permutation(s, p, fx);
    lemma_selsum_permutation(s, p, fy);
    lemma_selsum_permutation(s, p, fz);
}

/// Centering commutes with permuting: the centered image of a reordered
/// sequence is the reordered centered image.
pub proof fn lemma_center_permute_commute(s: Seq<Coordinate>, p: Seq<usize>)
    requires
        s.len() <= usize::MAX,
        is_permutation(p, s.len()),
    ensures
        center_scaled(permute_coords(s, p)) == permute(center_scaled(s), p),
{
    lemma_sums_permutation_invariant(s, p);
    assert(center_scaled(permute_coords(s, p)) =~= permute(center_scaled(s), p));
}

/// Reordering twice is reordering by the composition.
pub proof fn lemma_permute_compose(s: Seq<CPoint>, p: Seq<usize>, q: Seq<usize>)
    requires
        is_permutation(p, s.len()),
        is_permutation(q, s.len()),
    ensures
        permute(permute(s, p), q) == permute(s, compose(p, q)),
{
    assert(permute(permute(s, p), q) =~= permute(s, compose(p, q)));
}

/// The composition of two permutations is a permutation.
pub proof fn lemma_compose_is_permutation(p: Seq<usize>, q: Seq<usize>, n: nat)
    requires
        n <= usize::MAX,
        is_permutation(p, n),
        is_permutation(q, n),
    ensures
        is_permutation(compose(p, q), n),
{
    let c = compose(p, q);
    assert forall|v: usize| v < n implies #[trigger] c.contains(v) by {
        assert(p.contains(v));
        let k = choose|k: int| 0 <= k < p.len() && p[k] == v;
        assert(q.contains(k as usize));
        let j = choose|j: int| 0 <= j < q.len() && q[j] == k as usize;
        assert(c[j] == v);
    }
}

/// Every permutation has an inverse permutation.
pub proof fn lemma_inverse_permutation(p: Seq<usize>, n: nat) -> (inv: Seq<usize>)
    requires
        n <= usize::MAX,
        is_permutation(p, n),
    ensures
        is_permutation(inv, n),
        forall|i: int| 0 <= i < n ==> p[#[trigger] inv[i] as int] as int == i,
{
    lemma_permutation_no_duplicates(p, n);
    let inv = Seq::new(n, |i: int| (choose|j: int| 0 <= j < p.len() && p[j] as int == i) as usize);
    assert forall|i: int| 0 <= i < n implies (#[trigger] inv[i]) < n && p[inv[i] as int] as int
        == i by {
        assert(p.contains(i as usize));
        let j0 = choose|j: int| 0 <= j < p.len() && p[j] == i as usize;
        assert(p[j0] as int == i);
        let j = choose|j: int| 0 <= j < p.len() && p[j] as int == i;
        assert(inv[i] == j as usize);
    }
    assert forall|v: usize| v < n implies #[trigger] inv.contains(v) by {
        let i = p[v as int] as int;
        assert(0 <= i < n);
        assert(p[inv[i] as int] as int == i);
        assert(p[v as int] as int == i);
        assert(inv[i] == v) by {
            if inv[i] != v {
                assert(p[inv[i] as int] == p[v as int]);
                assert(inv[i] as int != v as int);
            }
        }
    }
    inv
}


/// The coordinate sequence with its first axis negated.
pub open spec fn mirror_coords(s: Seq<Coordinate>) -> Seq<Coordinate> {
    Seq::new(s.len(), |i: int| Coordinate((-s[i].0) as i64, s[i].1, s[i].2))
}

/// The coordinate sequence with all three axes negated.
pub open spec fn invert_coords(s: Seq<Coordinate>) -> Seq<Coordinate> {
    Seq::new(
        s.len(),
        |i: int| Coordinate((-s[i].0) as i64, (-s[i].1) as i64, (-s[i].2) as i64),
    )
}

/// Component sums of a bounded sequence are bounded by the length times
/// the coordinate bound.
proof fn lemma_sums_bounded(s: Seq<Coordinate>)
    requires
        coords_bounded(s),
    ensures
        -(s.len() * 500_000) <= sum_x(s) <= s.len() * 500_000,
        -(s.len() * 500_000) <= sum_y(s) <= s.len() * 500_000,
        -(s.len() * 500_000) <= sum_z(s) <= s.len() * 500_000,
    decreases s.len(),
{
    if s.len() > 0 {
        assert(coords_bounded(s.drop_last())) by {
            assert(forall|i: int|
                0 <= i < s.drop_last().len() ==> s.drop_last()[i] == (#[trigger] s[i]));
        }
        lemma_sums_bounded(s.drop_last());
        assert(s.last().in_bounds());
    }
}

/// Component sums of the mirrored and inverted sequences.
proof fn lemma_sums_negated(s: Seq<Coordinate>)
    requires
        coords_bounded(s),
    ensures
        sum_x(mirror_coords(s)) == -sum_x(s),
        sum_y(mirror_coords(s)) == sum_y(s),
        sum_z(mirror_coords(s)) == sum_z(s),
        sum_x(invert_coords(s)) == -sum_x(s),
        sum_y(invert_coords(s)) == -sum_y(s),
        sum_z(invert_coords(s)) == -sum_z(s),
    decreases s.len(),
{
    if s.len() > 0 {
        assert(coords_bounded(s.drop_last())) by {
            assert(forall|i: int|
                0 <= i < s.drop_last().len() ==> s.drop_last()[i] == (#[trigger] s[i]));
        }
        lemma_sums_negated(s.drop_last());
        assert(mirror_coords(s).drop_last() =~= mirror_coords(s.drop_last()));
        assert(invert_coords(s).drop_last() =~= invert_coords(s.drop_last()));
        assert(s.last().in_bounds());
        assert(mirror_coords(s).last() == mirror_coords(s)[s.len() - 1]);
        assert(invert_coords(s).last() == invert_coords(s)[s.len() - 1]);
    }
}

/// The negated centered component: a ring identity plus the range that
/// keeps every cast exact.
proof fn lemma_neg_component(n: int, x: int, sx: int)
    by (nonlinear_arith)
    requires
        -500_000 <= x <= 500_000,
        0 <= n <= 18_446_744_073_709_551_615int,
        -(n * 500_000) <= sx <= n * 500_000,
    ensures
        n * (-x) - (-sx) == -(n * x - sx),
        -20_000_000_000_000_000_000_000_000 <= n * x - sx <= 20_000_000_000_000_000_000_000_000,
{
}

/// Mirroring the input mirrors the centered image, exactly: negating
/// the first axis of every point and then centering is the mirror
/// variant of the centered original.  The mirror variant of the search
/// is therefore exact in the model.
pub proof fn lemma_center_mirror_commute(s: Seq<Coordinate>)
    requires
        coords_bounded(s),
        s.len() <= usize::MAX,
    ensures
        center_scaled(mirror_coords(s)) == mirror(center_scaled(s)),
{
    lemma_sums_negated(s);
    lemma_sums_bounded(s);
    let n = s.len() as int;
    assert forall|i: int| 0 <= i < n implies center_scaled(mirror_coords(s))[i] == mirror(
        center_scaled(s),
    )[i] by {
        assert(s[i].in_bounds());
        lemma_neg_component(n, s[i].0 as int, sum_x(s));
        lemma_neg_component(n, s[i].1 as int, sum_y(s));
        lemma_neg_component(n, s[i].2 as int, sum_z(s));
        assert((mirror_coords(s)[i]).0 as int == -(s[i].0 as int));
        assert(n * ((mirror_coords(s)[i]).0 as int) == n * (-(s[i].0 as int)));
        assert((mirror_coords(s)[i]).1 == s[i].1);
        assert((mirror_coords(s)[i]).2 == s[i].2);
    }
    assert(center_scaled(mirror_coords(s)) =~= mirror(center_scaled(s)));
}

/// Inverting the input inverts the centered image, exactly: negating
/// every point and then centering is the inversion variant of the
/// centered original.  The inversion variant of the search is therefore
/// exact in the model.
pub proof fn lemma_center_invert_commute(s: Seq<Coordinate>)
    requires
        coords_bounded(s),
        s.len() <= usize::MAX,
    ensures
        center_scaled(invert_coords(s)) == invert(center_scaled(s)),
{
    lemma_sums_negated(s);
    lemma_sums_bounded(s);
    let n = s.len() as int;
    assert forall|i: int| 0 <= i < n implies center_scaled(invert_coords(s))[i] == invert(
        center_scaled(s),
    )[i] by {
        assert(s[i].in_bounds());
        lemma_neg_component(n, s[i].0 as int, sum_x(s));
        lemma_neg_component(n, s[i].1 as int, sum_y(s));
        lemma_neg_component(n, s[i].2 as int, sum_z(s));
        assert((invert_coords(s)[i]).0 as int == -(s[i].0 as int));
        assert((invert_coords(s)[i]).1 as int == -(s[i].1 as int));
        assert((invert_coords(s)[i]).2 as int == -(s[i].2 as int));
        assert(n * ((invert_coords(s)[i]).0 as int) == n * (-(s[i].0 as int)));
        assert(n * ((invert_coords(s)[i]).1 as int) == n * (-(s[i].1 as int)));
        assert(n * ((invert_coords(s)[i]).2 as int) == n * (-(s[i].2 as int)));
    }
    assert(center_scaled(invert_coords(s)) =~= invert(center_scaled(s)));
}

/// Mirroring twice gives back the original point set.
pub proof fn lemma_mirror_involution(s: Seq<CPoint>)
    requires
        points_bounded(s),
    ensures
        mirror(mirror(s)) == s,
{
    assert forall|i: int| 0 <= i < s.len() implies mirror(mirror(s))[i] == s[i] by {
        assert(s[i].in_bounds());
    }
    assert(mirror(mirror(s)) =~= s);
}

/// Inverting twice gives back the original point set.
pub proof fn lemma_invert_involution(s: Seq<CPoint>)
    requires
        points_bounded(s),
    ensures
        invert(invert(s)) == s,
{
    assert forall|i: int| 0 <= i < s.len() implies invert(invert(s))[i] == s[i] by {
        assert(s[i].in_bounds());
    }
    assert(invert(invert(s)) =~= s);
}

/// The score a given search candidate receives under a score function
/// `f`: `f` applied to the permuted centered first set and the chosen
/// variant of the centered second set.
pub open spec fn cand_score(
    a: Seq<Coordinate>,
    b: Seq<Coordinate>,
    p: Seq<usize>,
    v: int,
    f: spec_fn(Seq<CPoint>, Seq<CPoint>) -> u64,
) -> u64 {
    f(permute(center_scaled(a), p), variant_of(center_scaled(b), v))
}

/// `r` is the minimum of the symmetry search between `a` and `b` under
/// the score function `f`: some candidate attains it, and no candidate
/// is smaller.
pub open spec fn is_min_candidate(
    r: u64,
    a: Seq<Coordinate>,
    b: Seq<Coordinate>,
    f: spec_fn(Seq<CPoint>, Seq<CPoint>) -> u64,
) -> bool {
    &&& exists|p: Seq<usize>, v: int|
        is_permutation(p, a.len()) && 0 <= v < 3 && r == #[trigger] cand_score(a, b, p, v, f)
    &&& forall|p: Seq<usize>, v: int|
        is_permutation(p, a.len()) && 0 <= v < 3 ==> r <= #[trigger] cand_score(a, b, p, v, f)
}

/// Label-order invariance of the symmetry search: for any score
/// function, the minimum over all permutation-and-variant candidates is
/// the same whether the first point set is given in its original order
/// or reordered by an arbitrary permutation.  In particular the search
/// minimum never depends on how the atoms of the first structure are
/// labelled.
pub proof fn lemma_minimum_label_order_invariant(
    a: Seq<Coordinate>,
    b: Seq<Coordinate>,
    sigma: Seq<usize>,
    f: spec_fn(Seq<CPoint>, Seq<CPoint>) -> u64,
    r1: u64,
    r2: u64,
)
    requires
        a.len() <= usize::MAX,
        is_permutation(sigma, a.len()),
        is_min_candidate(r1, a, b, f),
        is_min_candidate(r2, permute_coords(a, sigma), b, f),
    ensures
        r1 == r2,
{
    let n = a.len();
    let ap = permute_coords(a, sigma);
    assert(ap.len() == n);
    lemma_center_permute_commute(a, sigma);

    // Every candidate of the reordered search scores like the composed
    // candidate of the original search.
    assert forall|q: Seq<usize>, v: int| is_permutation(q, n) && 0 <= v < 3 implies #[trigger] cand_score(
        ap,
        b,
        q,
        v,
        f,
    ) == cand_score(a, b, compose(sigma, q), v, f) by {
        lemma_permute_compose(center_scaled(a), sigma, q);
    }

    // r2 is at most r1: the witness of r1 is reachable from the
    // reordered search through the inverse of sigma.
    let (p1, v1) = choose|p: Seq<usize>, v: int|
        is_permutation(p, n) && 0 <= v < 3 && r1 == #[trigger] cand_score(a, b, p, v, f);
    let inv = lemma_inverse_permutation(sigma, n);
    let q1 = compose(inv, p1);
    lemma_compose_is_permutation(inv, p1, n);
    assert(compose(sigma, q1) =~= p1);
    assert(cand_score(ap, b, q1, v1, f) == cand_score(a, b, p1, v1, f));
    assert(r2 <= cand_score(ap, b, q1, v1, f));

    // r1 is at most r2: the witness of r2 composes back into the
    // original search.
    let (q2, v2) = choose|q: Seq<usize>, v: int|
        is_permutation(q, ap.len()) && 0 <= v < 3 && r2 == #[trigger] cand_score(ap, b, q, v, f);
    lemma_compose_is_permutation(sigma, q2, n);
    assert(cand_score(ap, b, q2, v2, f) == cand_score(a, b, compose(sigma, q2), v2, f));
    assert(r1 <= cand_score(a, b, compose(sigma, q2), v2, f));
}

/// Self-comparison never scores worse than the diagonal: when a point
/// set is searched against itself, the minimum is at most the score
/// `f` gives the centered set paired with itself, because the identity
/// permutation together with the identity variant is one of the
/// candidates.  (That the diagonal score itself vanishes is a property
/// of the numeric kernel, not of the search.)
pub proof fn lemma_self_comparison_bound(
    a: Seq<Coordinate>,
    f: spec_fn(Seq<CPoint>, Seq<CPoint>) -> u64,
    r: u64,
)
    requires
        a.len() <= usize::MAX,
        is_min_candidate(r, a, a, f),
    ensures
        r <= f(center_scaled(a), center_scaled(a)),
{
    let n = a.len();
    let idseq = Seq::new(n, |i: int| i as usize);
    assert(is_permutation(idseq, n)) by {
        assert forall|v: usize| v < n implies #[trigger] idseq.contains(v) by {
            assert(idseq[v as int] == v);
        }
    }
    assert(permute(center_scaled(a), idseq) =~= center_scaled(a));
    assert(variant_of(center_scaled(a), 0) == center_scaled(a));
    assert(r <= cand_score(a, a, idseq, 0, f));
}

/// Bridge from the executable pipeline to the abstract minimum: if the
/// candidate list is sound and complete for `a` and `b`, the score list
/// evaluates `f` on each candidate, and `m` is the least score, then `m`
/// is the minimum of the symmetry search under `f`.
pub proof fn lemma_min_over_candidates(
    c: Seq<(Vec<CPoint>, Vec<CPoint>)>,
    scores: Seq<u64>,
    m: u64,
    a: Seq<Coordinate>,
    b: Seq<Coordinate>,
    f: spec_fn(Seq<CPoint>, Seq<CPoint>) -> u64,
)
    requires
        forall|k: int| 0 <= k < c.len() ==> candidate_ok(#[trigger] c[k], a, b),
        forall|p: Seq<usize>, v: int|
            is_permutation(p, a.len()) && 0 <= v < 3 ==> #[trigger] candidate_present(
                c,
                a,
                b,
                p,
                v,
            ),
        scores.len() == c.len(),
        forall|k: int| 0 <= k < c.len() ==> #[trigger] scores[k] == f(c[k].0@, c[k].1@),
        scores.contains(m),
        forall|k: int| 0 <= k < scores.len() ==> m <= #[trigger] scores[k],
    ensures
        is_min_candidate(m, a, b, f),
{
    let k0 = choose|k: int| 0 <= k < scores.len() && scores[k] == m;
    assert(candidate_ok(c[k0], a, b));
    let (p0, v0) = choose|p: Seq<usize>, v: int|
        {
            &&& #[trigger] is_permutation(p, a.len())
            &&& 0 <= v < 3
            &&& c[k0].0@ == permute(center_scaled(a), p)
            &&& c[k0].1@ == #[trigger] variant_of(center_scaled(b), v)
        };
    assert(m == cand_score(a, b, p0, v0, f));
    assert forall|p: Seq<usize>, v: int|
        is_permutation(p, a.len()) && 0 <= v < 3 implies m <= #[trigger] cand_score(
        a,
        b,
        p,
        v,
        f,
    ) by {
        assert(candidate_present(c, a, b, p, v));
        let k = choose|k: int|
            0 <= k < c.len() && (#[trigger] c[k]).0@ == permute(center_scaled(a), p) && c[k].1@
                == variant_of(center_scaled(b), v);
        assert(scores[k] == f(c[k].0@, c[k].1@));
        assert(m <= scores[k]);
    }
}

} // verus!
