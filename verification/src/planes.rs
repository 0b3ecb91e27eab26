use vstd::multiset::Multiset;
use vstd::prelude::*;

use crate::coordination::sq;
use crate::errors::AnalyzerError;
use crate::structures::{Atom, Coordinate, COORD_LIMIT};

verus! {

/// An atom farther than this from every collected plane starts a new
/// plane: 0.1 angstrom, in milliangstrom.
pub const IN_PLANE_TOLERANCE: i64 = 100;

/// Bound on the components of a plane normal produced by a cross product
/// of two coordinate differences.
pub const NORMAL_LIMIT: i64 = 2_000_000_000_000;

/// Bound on the offset coefficient of a plane through a bounded point.
pub const OFFSET_LIMIT: i64 = 3_000_000_000_000_000_000;

/// A plane a*x + b*y + c*z + d == 0.  The normal (a, b, c) is an exact
/// cross product in milliangstrom^2; d is in milliangstrom^3.  The normal
/// need not be unit length: distances along it carry a factor of
/// sqrt(a^2 + b^2 + c^2).
#[derive(Clone, Copy, PartialEq, Eq, Structural, Debug)]
pub struct Plane {
    pub a: i64,
    pub b: i64,
    pub c: i64,
    pub d: i64,
}

impl Plane {
    /// The coefficients are within the bounds that keep every derived
    /// product inside `i128`.
    pub open spec fn wf(self) -> bool {
        &&& -NORMAL_LIMIT <= self.a <= NORMAL_LIMIT
        &&& -NORMAL_LIMIT <= self.b <= NORMAL_LIMIT
        &&& -NORMAL_LIMIT <= self.c <= NORMAL_LIMIT
        &&& -OFFSET_LIMIT <= self.d <= OFFSET_LIMIT
    }

    /// Squared length of the normal vector.
    pub open spec fn norm_sq(self) -> int {
        sq(self.a as int) + sq(self.b as int) + sq(self.c as int)
    }
}

/// First component of the cross product (p2 - p1) x (p3 - p1).
pub open spec fn cross_a(p1: Coordinate, p2: Coordinate, p3: Coordinate) -> int {
    (p2.1 - p1.1) * (p3.2 - p1.2) - (p2.2 - p1.2) * (p3.1 - p1.1)
}

/// Second component of the cross product (p2 - p1) x (p3 - p1).
pub open spec fn cross_b(p1: Coordinate, p2: Coordinate, p3: Coordinate) -> int {
    (p2.2 - p1.2) * (p3.0 - p1.0) - (p2.0 - p1.0) * (p3.2 - p1.2)
}

/// Third component of the cross product (p2 - p1) x (p3 - p1).
pub open spec fn cross_c(p1: Coordinate, p2: Coordinate, p3: Coordinate) -> int {
    (p2.0 - p1.0) * (p3.1 - p1.1) - (p2.1 - p1.1) * (p3.0 - p1.0)
}

/// The signed plane equation value a*x + b*y + c*z + d at a point.  Its
/// absolute value is the point's distance from the plane scaled by the
/// length of the normal.
pub open spec fn plane_eval(p: Plane, c: Coordinate) -> int {
    p.a * c.0 + p.b * c.1 + p.c * c.2 + p.d
}

/// A point counts as lying on a plane when its distance is at most the
/// in-plane tolerance.  Compared on squares, which is exact.
pub open spec fn on_plane(p: Plane, c: Coordinate) -> bool {
    sq(plane_eval(p, c)) <= IN_PLANE_TOLERANCE * IN_PLANE_TOLERANCE * p.norm_sq()
}

/// The parallel plane with `base`'s normal passing through `c`.
pub open spec fn plane_through(base: Plane, c: Coordinate) -> Plane {
    Plane {
        a: base.a,
        b: base.b,
        c: base.c,
        d: (-(base.a * c.0 + base.b * c.1 + base.c * c.2)) as i64,
    }
}

/// Whether `c` lies on some plane of `planes` (within tolerance).
pub open spec fn on_some_plane(planes: Seq<Plane>, c: Coordinate) -> bool {
    exists|i: int| 0 <= i < planes.len() && on_plane(planes[i], c)
}

/// The planes collected after scanning the first `k` atoms: starting
/// from the base plane, each atom farther than the tolerance from every
/// plane so far adds the parallel plane through itself.
pub open spec fn collect_planes(base: Plane, atoms: Seq<Atom>, k: int) -> Seq<Plane>
    decreases k,
{
    if k <= 0 {
        seq![base]
    } else {
        let prev = collect_planes(base, atoms, k - 1);
        if !on_some_plane(prev, atoms[k - 1].coordinate) {
            prev.push(plane_through(base, atoms[k - 1].coordinate))
        } else {
            prev
        }
    }
}

/// Planes ordered by ascending offset coefficient.
pub open spec fn sorted_by_d(s: Seq<Plane>) -> bool {
    forall|i: int, j: int| 0 <= i < j < s.len() ==> s[i].d <= s[j].d
}

/// What the spacing extractor promises of a successful result: `base` is
/// the exact plane through the three chosen atoms, `s` is the collected
/// plane family in ascending offset order, and the report holds the
/// adjacent offset differences together with the shared normal's squared
/// length.
pub open spec fn spacing_report_ok(
    report: SpacingReport,
    atoms: Seq<Atom>,
    i1: int,
    i2: int,
    i3: int,
    base: Plane,
    s: Seq<Plane>,
) -> bool {
    &&& base.a == cross_a(atoms[i1].coordinate, atoms[i2].coordinate, atoms[i3].coordinate)
    &&& base.b == cross_b(atoms[i1].coordinate, atoms[i2].coordinate, atoms[i3].coordinate)
    &&& base.c == cross_c(atoms[i1].coordinate, atoms[i2].coordinate, atoms[i3].coordinate)
    &&& base.d == -(base.a * atoms[i1].coordinate.0 + base.b * atoms[i1].coordinate.1 + base.c
        * atoms[i1].coordinate.2)
    &&& report.normal_norm_sq == base.norm_sq()
    &&& sorted_by_d(s)
    &&& s.to_multiset() == collect_planes(base, atoms, atoms.len() as int).to_multiset()
    &&& report.deltas@.len() + 1 == s.len()
    &&& forall|i: int|
        0 <= i < report.deltas@.len() ==> #[trigger] report.deltas@[i] == s[i + 1].d - s[i].d
}

/// The spacing extractor's arguments are acceptable: at least three
/// atoms, all three indices in range.
pub open spec fn spacing_args_valid(atoms: Seq<Atom>, i1: int, i2: int, i3: int) -> bool {
    &&& atoms.len() >= 3
    &&& 0 <= i1 < atoms.len()
    &&& 0 <= i2 < atoms.len()
    &&& 0 <= i3 < atoms.len()
}

/// The three chosen atoms are collinear: the cross product of the two
/// in-plane vectors is the zero vector.
pub open spec fn spacing_args_collinear(atoms: Seq<Atom>, i1: int, i2: int, i3: int) -> bool {
    &&& spacing_args_valid(atoms, i1, i2, i3)
    &&& cross_a(atoms[i1].coordinate, atoms[i2].coordinate, atoms[i3].coordinate) == 0
    &&& cross_b(atoms[i1].coordinate, atoms[i2].coordinate, atoms[i3].coordinate) == 0
    &&& cross_c(atoms[i1].coordinate, atoms[i2].coordinate, atoms[i3].coordinate) == 0
}

/// The full contract of the spacing extractor, over any outcome.
pub open spec fn spacing_outcome_ok(
    r: Result<SpacingReport, AnalyzerError>,
    atoms: Seq<Atom>,
    i1: int,
    i2: int,
    i3: int,
) -> bool {
    &&& (r is Ok ==> {
        &&& spacing_args_valid(atoms, i1, i2, i3)
        &&& !spacing_args_collinear(atoms, i1, i2, i3)
        &&& exists|base: Plane, s: Seq<Plane>|
            #[trigger] spacing_report_ok(r->Ok_0, atoms, i1, i2, i3, base, s)
    })
    &&& (r is Err ==> {
        &&& (r->Err_0 == AnalyzerError::InvalidInput <==> !spacing_args_valid(atoms, i1, i2, i3))
        &&& (r->Err_0 == AnalyzerError::CollinearPoints <==> spacing_args_collinear(
            atoms,
            i1,
            i2,
            i3,
        ))
        &&& (r->Err_0 == AnalyzerError::InvalidInput || r->Err_0
            == AnalyzerError::CollinearPoints)
    })
}

/// Packaging lemma: a witnessed report on acceptable, non-collinear
/// arguments satisfies the extractor's full contract.
proof fn lemma_spacing_outcome_intro(
    report: SpacingReport,
    atoms: Seq<Atom>,
    i1: int,
    i2: int,
    i3: int,
)
    requires
        spacing_args_valid(atoms, i1, i2, i3),
        !spacing_args_collinear(atoms, i1, i2, i3),
        exists|base: Plane, s: Seq<Plane>|
            #[trigger] spacing_report_ok(report, atoms, i1, i2, i3, base, s),
    ensures
        spacing_outcome_ok(Ok(report), atoms, i1, i2, i3),
{
    let (base, sorted) = choose|base: Plane, s: Seq<Plane>|
        spacing_report_ok(report, atoms, i1, i2, i3, base, s);
    let r: Result<SpacingReport, AnalyzerError> = Ok(report);
    assert(r->Ok_0 == report);
    assert(spacing_report_ok(r->Ok_0, atoms, i1, i2, i3, base, sorted));
}

/// The extractor's result: `deltas[i]` is the difference of the offset
/// coefficients of adjacent planes in ascending order, and
/// `normal_norm_sq` is the squared length of the shared normal.  The
/// physical spacing in milliangstrom is `deltas[i] / sqrt(normal_norm_sq)`.
pub struct SpacingReport {
    pub deltas: Vec<i64>,
    pub normal_norm_sq: i128,
}

/// 0 <= x * x <= m * m for bounded x.
proof fn lemma_sq_range(x: int, m: int)
    by (nonlinear_arith)
    requires
        -m <= x <= m,
        0 <= m,
    ensures
        0 <= x * x <= m * m,
{
}

/// |x * y| <= mx * my for bounded x and y.
proof fn lemma_mul_bound(x: int, y: int, mx: int, my: int)
    by (nonlinear_arith)
    requires
        -mx <= x <= mx,
        -my <= y <= my,
        0 <= mx,
        0 <= my,
    ensures
        -(mx * my) <= x * y <= mx * my,
{
}

/// All planes collected from a well-formed base share its normal and are
/// well formed.
proof fn lemma_collect_planes_wf(base: Plane, atoms: Seq<Atom>, k: int)
    requires
        base.wf(),
        0 <= k <= atoms.len(),
        forall|i: int| 0 <= i < atoms.len() ==> (#[trigger] atoms[i]).wf(),
    ensures
        collect_planes(base, atoms, k).len() >= 1,
        forall|i: int|
            0 <= i < collect_planes(base, atoms, k).len() ==> (#[trigger] collect_planes(
                base,
                atoms,
                k,
            )[i]).wf(),
        forall|i: int|
            0 <= i < collect_planes(base, atoms, k).len() ==> (#[trigger] collect_planes(
                base,
                atoms,
                k,
            )[i]).a == base.a && collect_planes(base, atoms, k)[i].b == base.b && collect_planes(
                base,
                atoms,
                k,
            )[i].c == base.c,
    decreases k,
{
    if k > 0 {
        lemma_collect_planes_wf(base, atoms, k - 1);
        let c = atoms[k - 1].coordinate;
        lemma_mul_bound(base.a as int, c.0 as int, NORMAL_LIMIT as int, COORD_LIMIT as int);
        lemma_mul_bound(base.b as int, c.1 as int, NORMAL_LIMIT as int, COORD_LIMIT as int);
        lemma_mul_bound(base.c as int, c.2 as int, NORMAL_LIMIT as int, COORD_LIMIT as int);
    }
}

/// Fit the plane through three atom positions.  Fails with
/// `CollinearPoints` exactly when the cross product of the two in-plane
/// vectors is the zero vector.
pub fn calculate_plane(a1: &Atom, a2: &Atom, a3: &Atom) -> (r: Result<Plane, AnalyzerError>)
    requires
        a1.wf(),
        a2.wf(),
        a3.wf(),
    ensures
        match r {
            Ok(p) => {
                &&& !(cross_a(a1.coordinate, a2.coordinate, a3.coordinate) == 0 && cross_b(
                    a1.coordinate,
                    a2.coordinate,
                    a3.coordinate,
                ) == 0 && cross_c(a1.coordinate, a2.coordinate, a3.coordinate) == 0)
                &&& p.a == cross_a(a1.coordinate, a2.coordinate, a3.coordinate)
                &&& p.b == cross_b(a1.coordinate, a2.coordinate, a3.coordinate)
                &&& p.c == cross_c(a1.coordinate, a2.coordinate, a3.coordinate)
                &&& p.d == -(p.a * a1.coordinate.0 + p.b * a1.coordinate.1 + p.c
                    * a1.coordinate.2)
                &&& p.wf()
            },
            Err(e) => {
                &&& e == AnalyzerError::CollinearPoints
                &&& cross_a(a1.coordinate, a2.coordinate, a3.coordinate) == 0
                &&& cross_b(a1.coordinate, a2.coordinate, a3.coordinate) == 0
                &&& cross_c(a1.coordinate, a2.coordinate, a3.coordinate) == 0
            },
        },
{
    let v1 = a2.sub(a1);
    let v2 = a3.sub(a1);
    proof {
        lemma_mul_bound(v1.1 as int, v2.2 as int, 1_000_000, 1_000_000);
        lemma_mul_bound(v1.2 as int, v2.1 as int, 1_000_000, 1_000_000);
        lemma_mul_bound(v1.2 as int, v2.0 as int, 1_000_000, 1_000_000);
        lemma_mul_bound(v1.0 as int, v2.2 as int, 1_000_000, 1_000_000);
        lemma_mul_bound(v1.0 as int, v2.1 as int, 1_000_000, 1_000_000);
        lemma_mul_bound(v1.1 as int, v2.0 as int, 1_000_000, 1_000_000);
    }
    let a: i64 = v1.1 * v2.2 - v1.2 * v2.1;
    let b: i64 = v1.2 * v2.0 - v1.0 * v2.2;
    let c: i64 = v1.0 * v2.1 - v1.1 * v2.0;
    if a == 0 && b == 0 && c == 0 {
        Err(AnalyzerError::CollinearPoints)
    } else {
        proof {
            lemma_mul_bound(a as int, a1.coordinate.0 as int, NORMAL_LIMIT as int, COORD_LIMIT as int);
            lemma_mul_bound(b as int, a1.coordinate.1 as int, NORMAL_LIMIT as int, COORD_LIMIT as int);
            lemma_mul_bound(c as int, a1.coordinate.2 as int, NORMAL_LIMIT as int, COORD_LIMIT as int);
        }
        let d: i64 = -(a * a1.coordinate.0 + b * a1.coordinate.1 + c * a1.coordinate.2);
        Ok(Plane { a, b, c, d })
    }
}

/// The parallel plane with `plane`'s normal through `atom`'s position.
pub fn calculate_b(plane: &Plane, atom: &Atom) -> (p: Plane)
    requires
        plane.wf(),
        atom.wf(),
    ensures
        p == plane_through(*plane, atom.coordinate),
        p.wf(),
{
    let coordinate = &atom.coordinate;
    proof {
        lemma_mul_bound(plane.a as int, coordinate.0 as int, NORMAL_LIMIT as int, COORD_LIMIT as int);
        lemma_mul_bound(plane.b as int, coordinate.1 as int, NORMAL_LIMIT as int, COORD_LIMIT as int);
        lemma_mul_bound(plane.c as int, coordinate.2 as int, NORMAL_LIMIT as int, COORD_LIMIT as int);
    }
    Plane {
        a: plane.a,
        b: plane.b,
        c: plane.c,
        d: -(plane.a * coordinate.0 + plane.b * coordinate.1 + plane.c * coordinate.2),
    }
}

/// Whether `c` is within the in-plane tolerance of `p`, decided exactly
/// on squares.
fn is_on_plane(p: &Plane, c: &Coordinate) -> (r: bool)
    requires
        p.wf(),
        c.in_bounds(),
    ensures
        r == on_plane(*p, *c),
{
    proof {
        lemma_mul_bound(p.a as int, c.0 as int, NORMAL_LIMIT as int, COORD_LIMIT as int);
        lemma_mul_bound(p.b as int, c.1 as int, NORMAL_LIMIT as int, COORD_LIMIT as int);
        lemma_mul_bound(p.c as int, c.2 as int, NORMAL_LIMIT as int, COORD_LIMIT as int);
        lemma_sq_range(p.a as int, NORMAL_LIMIT as int);
        lemma_sq_range(p.b as int, NORMAL_LIMIT as int);
        lemma_sq_range(p.c as int, NORMAL_LIMIT as int);
    }
    let e: i128 = (p.a as i128) * (c.0 as i128) + (p.b as i128) * (c.1 as i128) + (p.c as i128)
        * (c.2 as i128) + (p.d as i128);
    let n2: i128 = (p.a as i128) * (p.a as i128) + (p.b as i128) * (p.b as i128) + (p.c as i128)
        * (p.c as i128);
    proof {
        lemma_sq_range(e as int, 6_000_000_000_000_000_000);
        assert((IN_PLANE_TOLERANCE as i128) * (IN_PLANE_TOLERANCE as i128) == 10_000)
            by (nonlinear_arith);
        lemma_mul_bound(
            (IN_PLANE_TOLERANCE as i128) * (IN_PLANE_TOLERANCE as i128) as int,
            n2 as int,
            10_000,
            12_000_000_000_000_000_000_000_000,
        );
    }
    e * e <= (IN_PLANE_TOLERANCE as i128) * (IN_PLANE_TOLERANCE as i128) * n2
}

/// Sort planes by ascending offset coefficient; the result holds exactly
/// the input planes.
fn sort_planes(planes: Vec<Plane>) -> (r: Vec<Plane>)
    ensures
        sorted_by_d(r@),
        r@.to_multiset() == planes@.to_multiset(),
        r@.len() == planes@.len(),
{
    let mut rest = planes;
    let mut out: Vec<Plane> = Vec::new();
    proof {
        out@.to_multiset_ensures();
        rest@.to_multiset_ensures();
    }
    while rest.len() > 0
        invariant
            out@.to_multiset().add(rest@.to_multiset()) == planes@.to_multiset(),
            out@.len() + rest@.len() == planes@.len(),
            sorted_by_d(out@),
            forall|i: int, j: int|
                0 <= i < out@.len() && 0 <= j < rest@.len() ==> out@[i].d <= rest@[j].d,
        decreases rest@.len(),
    {
        let mut min_idx: usize = 0;
        let mut j: usize = 1;
        while j < rest.len()
            invariant
                rest@.len() > 0,
                min_idx < j <= rest@.len(),
                forall|k: int| 0 <= k < j ==> rest@[min_idx as int].d <= (#[trigger] rest@[k]).d,
            decreases rest@.len() - j,
        {
            if rest[j].d < rest[min_idx].d {
                min_idx = j;
            }
            j = j + 1;
        }
        let ghost old_out = out@;
        let ghost old_rest = rest@;
        let m = rest.remove(min_idx);
        out.push(m);
        proof {
            old_rest.to_multiset_ensures();
            old_out.to_multiset_ensures();
            assert(rest@.to_multiset() == old_rest.to_multiset().remove(m));
            assert(out@.to_multiset() == old_out.to_multiset().insert(m));
            assert(old_rest.to_multiset().count(m) > 0) by {
                assert(old_rest.contains(m));
            }
            assert(out@.to_multiset().add(rest@.to_multiset()) =~= old_out.to_multiset().add(
                old_rest.to_multiset(),
            ));
            assert forall|i: int, j2: int|
                0 <= i < out@.len() && 0 <= j2 < rest@.len() implies out@[i].d <= rest@[j2].d by {
                assert(rest@[j2] == if j2 < min_idx {
                    old_rest[j2]
                } else {
                    old_rest[j2 + 1]
                });
            }
        }
    }
    proof {
        assert(rest@ =~= Seq::<Plane>::empty());
        assert(rest@.to_multiset() =~= Multiset::<Plane>::empty());
        assert(out@.to_multiset() =~= out@.to_multiset().add(rest@.to_multiset()));
    }
    out
}

/// The interplanar spacings of the plane family parallel to the plane
/// through atoms `a1`, `a2`, `a3` of `structure`.
///
/// Starting from that base plane, every atom farther than the in-plane
/// tolerance from all planes found so far contributes the parallel plane
/// through itself; the planes are then ordered by their offset
/// coefficient, and adjacent differences are reported.  All planes share
/// the base normal by construction, so no parallelism check is needed.
///
/// Fails with `InvalidInput` when the structure has fewer than three
/// atoms or an index is out of range, and with `CollinearPoints` when the
/// three atoms do not determine a plane.
#[verifier::rlimit(100)]
pub fn calculate_interplanar_spacing(
    structure: &Vec<Atom>,
    a1: usize,
    a2: usize,
    a3: usize,
) -> (r: Result<SpacingReport, AnalyzerError>)
    requires
        forall|i: int| 0 <= i < structure@.len() ==> (#[trigger] structure@[i]).wf(),
    ensures
        spacing_outcome_ok(r, structure@, a1 as int, a2 as int, a3 as int),
{
    let n = structure.len();
    if n < 3 || a1 >= n || a2 >= n || a3 >= n {
        proof {
            assert(spacing_outcome_ok(
                Err::<SpacingReport, AnalyzerError>(AnalyzerError::InvalidInput),
                structure@,
                a1 as int,
                a2 as int,
                a3 as int,
            ));
        }
        return Err(AnalyzerError::InvalidInput);
    }
    let plane = match calculate_plane(&structure[a1], &structure[a2], &structure[a3]) {
        Ok(p) => p,
        Err(e) => {
            proof {
                assert(spacing_outcome_ok(
                    Err::<SpacingReport, AnalyzerError>(e),
                    structure@,
                    a1 as int,
                    a2 as int,
                    a3 as int,
                ));
            }
            return Err(e);
        },
    };
    let mut planes: Vec<Plane> = Vec::new();
    planes.push(plane);
    let mut k: usize = 0;
    while k < n
        invariant
            n == structure@.len(),
            forall|i: int| 0 <= i < structure@.len() ==> (#[trigger] structure@[i]).wf(),
            plane.wf(),
            k <= n,
            planes@ == collect_planes(plane, structure@, k as int),
        decreases n - k,
    {
        proof {
            lemma_collect_planes_wf(plane, structure@, k as int);
        }
        let atom = &structure[k];
        let mut any_near: bool = false;
        let mut p: usize = 0;
        while p < planes.len()
            invariant
                forall|i: int| 0 <= i < planes@.len() ==> (#[trigger] planes@[i]).wf(),
                atom.wf(),
                p <= planes@.len(),
                any_near == exists|i: int|
                    0 <= i < p && on_plane(#[trigger] planes@[i], atom.coordinate),
            decreases planes@.len() - p,
        {
            if is_on_plane(&planes[p], &atom.coordinate) {
                any_near = true;
            }
            p = p + 1;
        }
        if !any_near {
            let new_plane = calculate_b(&plane, atom);
            planes.push(new_plane);
        }
        k = k + 1;
    }
    proof {
        lemma_collect_planes_wf(plane, structure@, n as int);
    }
    let ghost collected = planes@;
    let sorted = sort_planes(planes);
    proof {
        lemma_mul_bound(plane.a as int, plane.a as int, NORMAL_LIMIT as int, NORMAL_LIMIT as int);
        lemma_mul_bound(plane.b as int, plane.b as int, NORMAL_LIMIT as int, NORMAL_LIMIT as int);
        lemma_mul_bound(plane.c as int, plane.c as int, NORMAL_LIMIT as int, NORMAL_LIMIT as int);
    }
    let norm_sq: i128 = (plane.a as i128) * (plane.a as i128) + (plane.b as i128) * (plane.b
        as i128) + (plane.c as i128) * (plane.c as i128);
    let mut deltas: Vec<i64> = Vec::new();
    proof {
        sorted@.to_multiset_ensures();
        collected.to_multiset_ensures();
        assert(sorted@.len() >= 1);
        assert forall|i: int| 0 <= i < sorted@.len() implies (#[trigger] sorted@[i]).wf() by {
            assert(sorted@.to_multiset().count(sorted@[i]) > 0);
            assert(collected.to_multiset().count(sorted@[i]) > 0);
            assert(collected.contains(sorted@[i]));
        }
    }
    let mut i: usize = 0;
    let m = sorted.len();
    while i < m - 1
        invariant
            m == sorted@.len(),
            m >= 1,
            forall|t: int| 0 <= t < sorted@.len() ==> (#[trigger] sorted@[t]).wf(),
            sorted_by_d(sorted@),
            i <= m - 1,
            deltas@.len() == i,
            forall|t: int| 0 <= t < i ==> #[trigger] deltas@[t] == sorted@[t + 1].d - sorted@[t].d,
        decreases m - i,
    {
        deltas.push(sorted[i + 1].d - sorted[i].d);
        i = i + 1;
    }
    let report = SpacingReport { deltas, normal_norm_sq: norm_sq };
    proof {
        assert(spacing_report_ok(
            report,
            structure@,
            a1 as int,
            a2 as int,
            a3 as int,
            plane,
            sorted@,
        ));
        lemma_spacing_outcome_intro(report, structure@, a1 as int, a2 as int, a3 as int);
    }
    Ok(report)
}

} // verus!
