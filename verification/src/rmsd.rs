use vstd::prelude::*;

use crate::errors::AnalyzerError;
use crate::perms::{all_permutations, is_permutation};
use crate::structures::{Coordinate, COORD_LIMIT};

verus! {

/// Bound on the fields of a centered, length-scaled point.  A coordinate
/// is at most `COORD_LIMIT` and the scale factor is the point count, so
/// the magnitude stays below `usize::MAX * COORD_LIMIT * 2`.
pub const CENTERED_LIMIT: i128 = 20_000_000_000_000_000_000_000_000;

/// A centered point of a point set, scaled by the set's size: the point
/// count times the coordinate minus the coordinate sum, exact in
/// milliangstrom.  Scaling by the count avoids dividing by it, so
/// centering stays in integers; a best-fit score computed from these
/// points carries the count as a known factor.
#[derive(Clone, Copy, PartialEq, Eq, Structural, Debug)]
pub struct CPoint {
    pub x: i128,
    pub y: i128,
    pub z: i128,
}

impl CPoint {
    /// All three fields are within `CENTERED_LIMIT`.
    pub open spec fn in_bounds(self) -> bool {
        &&& -CENTERED_LIMIT <= self.x <= CENTERED_LIMIT
        &&& -CENTERED_LIMIT <= self.y <= CENTERED_LIMIT
        &&& -CENTERED_LIMIT <= self.z <= CENTERED_LIMIT
    }
}

/// Sum of the x components of a coordinate sequence.
pub open spec fn sum_x(s: Seq<Coordinate>) -> int
    decreases s.len(),
{
    if s.len() == 0 {
        0
    } else {
        sum_x(s.drop_last()) + s.last().0
    }
}

/// Sum of the y components of a coordinate sequence.
pub open spec fn sum_y(s: Seq<Coordinate>) -> int
    decreases s.len(),
{
    if s.len() == 0 {
        0
    } else {
        sum_y(s.drop_last()) + s.last().1
    }
}

/// Sum of the z components of a coordinate sequence.
pub open spec fn sum_z(s: Seq<Coordinate>) -> int
    decreases s.len(),
{
    if s.len() == 0 {
        0
    } else {
        sum_z(s.drop_last()) + s.last().2
    }
}

/// The centered, length-scaled image of a coordinate sequence: point i
/// becomes the count times point i minus the componentwise sum, which
/// translates the centroid to the origin up to the scale factor.
pub open spec fn center_scaled(s: Seq<Coordinate>) -> Seq<CPoint> {
    Seq::new(
        s.len(),
        |i: int|
            CPoint {
                x: (s.len() * s[i].0 - sum_x(s)) as i128,
                y: (s.len() * s[i].1 - sum_y(s)) as i128,
                z: (s.len() * s[i].2 - sum_z(s)) as i128,
            },
    )
}

/// The mirror variant: the first coordinate axis negated.
pub open spec fn mirror(s: Seq<CPoint>) -> Seq<CPoint> {
    Seq::new(s.len(), |i: int| CPoint { x: (-s[i].x) as i128, y: s[i].y, z: s[i].z })
}

/// The inversion variant: all three axes negated.
pub open spec fn invert(s: Seq<CPoint>) -> Seq<CPoint> {
    Seq::new(
        s.len(),
        |i: int| CPoint { x: (-s[i].x) as i128, y: (-s[i].y) as i128, z: (-s[i].z) as i128 },
    )
}

/// Variant `v` of a point set: 0 leaves it, 1 mirrors it, 2 inverts it.
pub open spec fn variant_of(s: Seq<CPoint>, v: int) -> Seq<CPoint> {
    if v == 0 {
        s
    } else if v == 1 {
        mirror(s)
    } else {
        invert(s)
    }
}

/// The point set reordered by a permutation: entry j becomes entry p[j].
pub open spec fn permute(s: Seq<CPoint>, p: Seq<usize>) -> Seq<CPoint> {
    Seq::new(p.len(), |j: int| s[p[j] as int])
}

/// Every point of a sequence is bounded.
pub open spec fn points_bounded(s: Seq<CPoint>) -> bool {
    forall|i: int| 0 <= i < s.len() ==> (#[trigger] s[i]).in_bounds()
}

/// Every coordinate of a sequence is bounded.
pub open spec fn coords_bounded(s: Seq<Coordinate>) -> bool {
    forall|i: int| 0 <= i < s.len() ==> (#[trigger] s[i]).in_bounds()
}

/// One candidate of the symmetry search: some permutation image of the
/// first centered set paired with some variant of the second.
pub open spec fn candidate_ok(
    pair: (Vec<CPoint>, Vec<CPoint>),
    a: Seq<Coordinate>,
    b: Seq<Coordinate>,
) -> bool {
    exists|p: Seq<usize>, v: int|
        {
            &&& #[trigger] is_permutation(p, a.len())
            &&& 0 <= v < 3
            &&& pair.0@ == permute(center_scaled(a), p)
            &&& pair.1@ == #[trigger] variant_of(center_scaled(b), v)
        }
}

/// The candidate for permutation `p` and variant `v` occurs in `c`.
pub open spec fn candidate_present(
    c: Seq<(Vec<CPoint>, Vec<CPoint>)>,
    a: Seq<Coordinate>,
    b: Seq<Coordinate>,
    p: Seq<usize>,
    v: int,
) -> bool {
    exists|k: int|
        0 <= k < c.len() && (#[trigger] c[k]).0@ == permute(center_scaled(a), p) && c[k].1@
            == variant_of(center_scaled(b), v)
}

/// Appending a candidate preserves `candidate_present`.
proof fn lemma_present_push(
    c: Seq<(Vec<CPoint>, Vec<CPoint>)>,
    w: (Vec<CPoint>, Vec<CPoint>),
    a: Seq<Coordinate>,
    b: Seq<Coordinate>,
    p: Seq<usize>,
    v: int,
)
    requires
        candidate_present(c, a, b, p, v),
    ensures
        candidate_present(c.push(w), a, b, p, v),
{
    let k = choose|k: int|
        0 <= k < c.len() && (#[trigger] c[k]).0@ == permute(center_scaled(a), p) && c[k].1@
            == variant_of(center_scaled(b), v);
    assert(c.push(w)[k] == c[k]);
}

/// Copy a point list; the copy's contents equal the original's.
pub fn copy_points(v: &Vec<CPoint>) -> (r: Vec<CPoint>)
    ensures
        r@ == v@,
{
    let mut r: Vec<CPoint> = Vec::new();
    let mut i: usize = 0;
    while i < v.len()
        invariant
            i <= v.len(),
            r@ =~= v@.subrange(0, i as int),
        decreases v.len() - i,
    {
        r.push(v[i]);
        i = i + 1;
    }
    proof {
        assert(r@ =~= v@);
    }
    r
}

/// The centered, length-scaled image of a bounded coordinate list.
pub fn center_scaled_points(s: &Vec<Coordinate>) -> (r: Vec<CPoint>)
    requires
        coords_bounded(s@),
    ensures
        r@ == center_scaled(s@),
        points_bounded(r@),
{
    let n = s.len();
    let mut sx: i128 = 0;
    let mut sy: i128 = 0;
    let mut sz: i128 = 0;
    let mut i: usize = 0;
    while i < n
        invariant
            coords_bounded(s@),
            n == s@.len(),
            i <= n,
            sx == sum_x(s@.subrange(0, i as int)),
            sy == sum_y(s@.subrange(0, i as int)),
            sz == sum_z(s@.subrange(0, i as int)),
            -(i as int) * (COORD_LIMIT as int) <= sx <= (i as int) * (COORD_LIMIT as int),
            -(i as int) * (COORD_LIMIT as int) <= sy <= (i as int) * (COORD_LIMIT as int),
            -(i as int) * (COORD_LIMIT as int) <= sz <= (i as int) * (COORD_LIMIT as int),
        decreases n - i,
    {
        proof {
            assert(s@.subrange(0, i + 1).drop_last() =~= s@.subrange(0, i as int));
            assert(s@.subrange(0, i + 1).last() == s@[i as int]);
        }
        sx = sx + (s[i].0 as i128);
        sy = sy + (s[i].1 as i128);
        sz = sz + (s[i].2 as i128);
        i = i + 1;
    }
    proof {
        assert(s@.subrange(0, n as int) =~= s@);
    }
    let nn: i128 = n as i128;
    let mut r: Vec<CPoint> = Vec::new();
    let mut j: usize = 0;
    while j < n
        invariant
            coords_bounded(s@),
            n == s@.len(),
            nn == n as i128,
            sx == sum_x(s@),
            sy == sum_y(s@),
            sz == sum_z(s@),
            -(n as int) * (COORD_LIMIT as int) <= sx <= (n as int) * (COORD_LIMIT as int),
            -(n as int) * (COORD_LIMIT as int) <= sy <= (n as int) * (COORD_LIMIT as int),
            -(n as int) * (COORD_LIMIT as int) <= sz <= (n as int) * (COORD_LIMIT as int),
            j <= n,
            r@ =~= center_scaled(s@).subrange(0, j as int),
            points_bounded(r@),
        decreases n - j,
    {
        let xi: i128 = s[j].0 as i128;
        let yi: i128 = s[j].1 as i128;
        let zi: i128 = s[j].2 as i128;
        assert(-10_000_000_000_000_000_000_000_000i128 <= nn * xi
            <= 10_000_000_000_000_000_000_000_000i128) by (nonlinear_arith)
            requires
                0 <= nn <= 18_446_744_073_709_551_615i128,
                -500_000 <= xi <= 500_000,
        ;
        assert(-10_000_000_000_000_000_000_000_000i128 <= nn * yi
            <= 10_000_000_000_000_000_000_000_000i128) by (nonlinear_arith)
            requires
                0 <= nn <= 18_446_744_073_709_551_615i128,
                -500_000 <= yi <= 500_000,
        ;
        assert(-10_000_000_000_000_000_000_000_000i128 <= nn * zi
            <= 10_000_000_000_000_000_000_000_000i128) by (nonlinear_arith)
            requires
                0 <= nn <= 18_446_744_073_709_551_615i128,
                -500_000 <= zi <= 500_000,
        ;
        assert((n as int) * (COORD_LIMIT as int) <= 10_000_000_000_000_000_000_000_000)
            by (nonlinear_arith)
            requires
                0 <= n as int <= 18_446_744_073_709_551_615int,
        ;
        let p = CPoint { x: nn * xi - sx, y: nn * yi - sy, z: nn * zi - sz };
        r.push(p);
        proof {
            assert(p == center_scaled(s@)[j as int]);
            assert(r@ =~= center_scaled(s@).subrange(0, j + 1));
        }
        j = j + 1;
    }
    proof {
        assert(center_scaled(s@).subrange(0, n as int) =~= center_scaled(s@));
    }
    r
}

/// The mirror variant of a bounded point list.
pub fn mirror_points(s: &Vec<CPoint>) -> (r: Vec<CPoint>)
    requires
        points_bounded(s@),
    ensures
        r@ == mirror(s@),
        points_bounded(r@),
{
    let mut r: Vec<CPoint> = Vec::new();
    let mut i: usize = 0;
    while i < s.len()
        invariant
            points_bounded(s@),
            i <= s@.len(),
            r@ =~= mirror(s@).subrange(0, i as int),
            points_bounded(r@),
        decreases s@.len() - i,
    {
        let p = CPoint { x: -s[i].x, y: s[i].y, z: s[i].z };
        r.push(p);
        proof {
            assert(p == mirror(s@)[i as int]);
            assert(r@ =~= mirror(s@).subrange(0, i + 1));
        }
        i = i + 1;
    }
    proof {
        assert(mirror(s@).subrange(0, s@.len() as int) =~= mirror(s@));
    }
    r
}

/// The inversion variant of a bounded point list.
pub fn invert_points(s: &Vec<CPoint>) -> (r: Vec<CPoint>)
    requires
        points_bounded(s@),
    ensures
        r@ == invert(s@),
        points_bounded(r@),
{
    let mut r: Vec<CPoint> = Vec::new();
    let mut i: usize = 0;
    while i < s.len()
        invariant
            points_bounded(s@),
            i <= s@.len(),
            r@ =~= invert(s@).subrange(0, i as int),
            points_bounded(r@),
        decreases s@.len() - i,
    {
        let p = CPoint { x: -s[i].x, y: -s[i].y, z: -s[i].z };
        r.push(p);
        proof {
            assert(p == invert(s@)[i as int]);
            assert(r@ =~= invert(s@).subrange(0, i + 1));
        }
        i = i + 1;
    }
    proof {
        assert(invert(s@).subrange(0, s@.len() as int) =~= invert(s@));
    }
    r
}

/// The point list reordered by a permutation.
pub fn apply_permutation(s: &Vec<CPoint>, p: &Vec<usize>) -> (r: Vec<CPoint>)
    requires
        is_permutation(p@, s@.len()),
    ensures
        r@ == permute(s@, p@),
{
    let mut r: Vec<CPoint> = Vec::new();
    let mut j: usize = 0;
    while j < p.len()
        invariant
            is_permutation(p@, s@.len()),
            j <= p@.len(),
            r@ =~= permute(s@, p@).subrange(0, j as int),
        decreases p@.len() - j,
    {
        r.push(s[p[j]]);
        proof {
            assert(r@ =~= permute(s@, p@).subrange(0, j + 1));
        }
        j = j + 1;
    }
    proof {
        assert(permute(s@, p@).subrange(0, p@.len() as int) =~= permute(s@, p@));
    }
    r
}

/// The smallest entry of a score list: `None` exactly when the list is
/// empty, otherwise an entry that is at most every entry.
pub fn minimum_score(scores: &Vec<u64>) -> (r: Option<u64>)
    ensures
        match r {
            Some(m) => {
                &&& scores@.len() > 0
                &&& scores@.contains(m)
                &&& forall|i: int| 0 <= i < scores@.len() ==> m <= #[trigger] scores@[i]
            },
            None => scores@.len() == 0,
        },
{
    if scores.len() == 0 {
        return None;
    }
    let mut m: u64 = scores[0];
    let mut i: usize = 1;
    while i < scores.len()
        invariant
            scores@.len() > 0,
            1 <= i <= scores@.len(),
            scores@.contains(m),
            forall|k: int| 0 <= k < i ==> m <= #[trigger] scores@[k],
        decreases scores@.len() - i,
    {
        if scores[i] < m {
            m = scores[i];
        }
        i = i + 1;
    }
    Some(m)
}

/// The full candidate list of the symmetry search for two equal-size
/// point sets: for every permutation `p` of the first set's order and
/// every variant `v` of the second set (identity, mirror, inversion, in
/// that order), the pair of the permuted centered first set and the
/// variant of the centered second set.  Fails with `CardinalityMismatch`
/// exactly when the sizes differ, and with `InvalidInput` exactly when
/// both sets are empty.
pub fn rmsd_candidates(structure1: &Vec<Coordinate>, structure2: &Vec<Coordinate>) -> (r: Result<
    Vec<(Vec<CPoint>, Vec<CPoint>)>,
    AnalyzerError,
>)
    requires
        coords_bounded(structure1@),
        coords_bounded(structure2@),
    ensures
        match r {
            Ok(c) => {
                &&& structure1@.len() == structure2@.len()
                &&& structure1@.len() >= 1
                &&& c@.len() >= 1
                &&& forall|k: int|
                    0 <= k < c@.len() ==> candidate_ok(#[trigger] c@[k], structure1@, structure2@)
                &&& forall|p: Seq<usize>, v: int|
                    is_permutation(p, structure1@.len()) && 0 <= v < 3
                        ==> #[trigger] candidate_present(c@, structure1@, structure2@, p, v)
            },
            Err(e) => {
                &&& (e == AnalyzerError::CardinalityMismatch <==> structure1@.len()
                    != structure2@.len())
                &&& (e == AnalyzerError::InvalidInput <==> structure1@.len() == structure2@.len()
                    && structure1@.len() == 0)
                &&& (e == AnalyzerError::CardinalityMismatch || e == AnalyzerError::InvalidInput)
            },
        },
{
    let n = structure1.len();
    if n != structure2.len() {
        return Err(AnalyzerError::CardinalityMismatch);
    }
    if n == 0 {
        return Err(AnalyzerError::InvalidInput);
    }
    let c1 = center_scaled_points(structure1);
    let c2 = center_scaled_points(structure2);
    let m2 = mirror_points(&c2);
    let i2 = invert_points(&c2);
    let perms = all_permutations(n);
    let mut c: Vec<(Vec<CPoint>, Vec<CPoint>)> = Vec::new();
    let mut t: usize = 0;
    while t < perms.len()
        invariant
            coords_bounded(structure1@),
            coords_bounded(structure2@),
            n == structure1@.len(),
            n == structure2@.len(),
            n >= 1,
            c1@ == center_scaled(structure1@),
            c2@ == center_scaled(structure2@),
            m2@ == mirror(center_scaled(structure2@)),
            i2@ == invert(center_scaled(structure2@)),
            forall|u: int|
                0 <= u < perms@.len() ==> is_permutation((#[trigger] perms@[u])@, n as nat),
            forall|s: Seq<usize>|
                #[trigger] is_permutation(s, n as nat) ==> exists|u: int|
                    0 <= u < perms@.len() && (#[trigger] perms@[u])@ == s,
            t <= perms@.len(),
            forall|k: int|
                0 <= k < c@.len() ==> candidate_ok(#[trigger] c@[k], structure1@, structure2@),
            forall|u: int, v: int|
                0 <= u < t && 0 <= v < 3 ==> #[trigger] candidate_present(
                    c@,
                    structure1@,
                    structure2@,
                    perms@[u]@,
                    v,
                ),
        decreases perms@.len() - t,
    {
        let pa = apply_permutation(&c1, &perms[t]);
        let ghost old_c0 = c@;
        c.push((copy_points(&pa), copy_points(&c2)));
        let ghost old_c1 = c@;
        c.push((copy_points(&pa), copy_points(&m2)));
        let ghost old_c2v = c@;
        c.push((copy_points(&pa), copy_points(&i2)));
        proof {
            let pseq = perms@[t as int]@;
            assert(old_c1[old_c1.len() - 1].0@ == permute(center_scaled(structure1@), pseq));
            assert(c@[c@.len() - 1].0@ == permute(center_scaled(structure1@), pseq));
            assert(old_c1[old_c1.len() - 1].1@ == variant_of(center_scaled(structure2@), 0));
            assert(c@[c@.len() - 2].1@ == variant_of(center_scaled(structure2@), 1));
            assert(c@[c@.len() - 1].1@ == variant_of(center_scaled(structure2@), 2));
            assert(c@[c@.len() - 3] == old_c1[old_c1.len() - 1]);
            assert(c@[c@.len() - 2] == old_c2v[old_c2v.len() - 1]);
            assert(candidate_present(c@, structure1@, structure2@, pseq, 0));
            assert(candidate_present(c@, structure1@, structure2@, pseq, 1));
            assert(candidate_present(c@, structure1@, structure2@, pseq, 2));
            assert(candidate_ok(c@[c@.len() - 3], structure1@, structure2@));
            assert(candidate_ok(c@[c@.len() - 2], structure1@, structure2@));
            assert(candidate_ok(c@[c@.len() - 1], structure1@, structure2@));
            assert forall|u: int, v: int| 0 <= u < t + 1 && 0 <= v < 3 implies
                #[trigger] candidate_present(c@, structure1@, structure2@, perms@[u]@, v) by {
                if u < t {
                    lemma_present_push(old_c0, old_c1[old_c1.len() - 1], structure1@, structure2@, perms@[u]@, v);
                    lemma_present_push(old_c1, old_c2v[old_c2v.len() - 1], structure1@, structure2@, perms@[u]@, v);
                    lemma_present_push(old_c2v, c@[c@.len() - 1], structure1@, structure2@, perms@[u]@, v);
                }
            }
            assert forall|k: int| 0 <= k < c@.len() implies candidate_ok(
                #[trigger] c@[k],
                structure1@,
                structure2@,
            ) by {
                if k < old_c0.len() {
                    assert(c@[k] == old_c0[k]);
                }
            }
        }
        t = t + 1;
    }
    proof {
        assert forall|p: Seq<usize>, v: int|
            is_permutation(p, structure1@.len()) && 0 <= v < 3 implies #[trigger] candidate_present(
            c@,
            structure1@,
            structure2@,
            p,
            v,
        ) by {
            let u = choose|u: int| 0 <= u < perms@.len() && (#[trigger] perms@[u])@ == p;
            assert(candidate_present(c@, structure1@, structure2@, perms@[u]@, v));
        }
        assert(c@.len() >= 1) by {
            assert(candidate_present(c@, structure1@, structure2@, perms@[0]@, 0));
        }
    }
    Ok(c)
}

} // verus!
