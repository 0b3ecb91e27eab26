// The symmetry-search matcher, end to end: the library enumerates the
// candidate pairs (all permutations crossed with identity, mirror and
// inversion, centered exactly in fixed point) and takes the minimum;
// the numeric best-fit rotation score of each pair is computed here
// with nalgebra, as the embedding application does.

use arc_analyzer::errors::AnalyzerError;
use arc_analyzer::perms::all_permutations;
use arc_analyzer::rmsd::{minimum_score, rmsd_candidates, CPoint};
use arc_analyzer::search::{combinations, filter_atoms_by_element, filter_matches, substructure_candidates};
use arc_analyzer::periodic_table::PeriodicTable;
use arc_analyzer::structures::{Atom, Coordinate, CrystalInfo, StructureBlock};

type Mat3X = nalgebra::Matrix<
    f64,
    nalgebra::Const<3>,
    nalgebra::Dyn,
    nalgebra::VecStorage<f64, nalgebra::Const<3>, nalgebra::Dyn>,
>;

fn points_to_matrix(p: &Vec<CPoint>) -> Mat3X {
    Mat3X::from_fn(p.len(), |i, j| {
        let c = &p[j];
        match i {
            0 => c.x as f64,
            1 => c.y as f64,
            _ => c.z as f64,
        }
    })
}

/// The Kabsch best-fit rotation score of one centered candidate pair.
fn kabsch_rmsd(p: &Vec<CPoint>, q: &Vec<CPoint>) -> f64 {
    let pm = points_to_matrix(p);
    let qm = points_to_matrix(q);
    let h = &pm * qm.transpose();
    let svd = h.svd(true, true);
    let u = svd.u.unwrap();
    let v_t = svd.v_t.unwrap();
    let det = (&u * &v_t).determinant();
    let sign = if det > 0.0 { 1.0 } else { -1.0 };
    let s = nalgebra::Matrix3::from_diagonal(&nalgebra::Vector3::new(1.0, 1.0, sign));
    let rot = u * s * v_t;
    (rot * qm - pm).norm() / (p.len() as f64).sqrt()
}

/// Minimum RMSD in angstrom over all permutation and variant
/// candidates, composed from the library's verified pieces.
fn minimum_rmsd(a: &Vec<Coordinate>, b: &Vec<Coordinate>) -> Result<f64, AnalyzerError> {
    let cands = rmsd_candidates(a, b)?;
    let n = a.len() as f64;
    let mut scores: Vec<u64> = Vec::new();
    for (p, q) in cands.iter() {
        let r_scaled = kabsch_rmsd(p, q);
        let r_angstrom = r_scaled / (n * 1000.0);
        scores.push((r_angstrom * 1.0e9).round() as u64);
    }
    let m = minimum_score(&scores).unwrap();
    Ok(m as f64 * 1.0e-9)
}

fn coords(points: &[(f64, f64, f64)]) -> Vec<Coordinate> {
    points
        .iter()
        .map(|&(x, y, z)| {
            Coordinate(
                (x * 1000.0).round() as i64,
                (y * 1000.0).round() as i64,
                (z * 1000.0).round() as i64,
            )
        })
        .collect()
}

const S1: [(f64, f64, f64); 4] = [(1.0, 5.0, 9.0), (2.0, 6.0, 10.0), (3.0, 7.0, 11.0), (4.0, 8.0, 12.0)];

#[test]
fn test_calculate_rmsd_by_matrix() {
    // Identical structures.
    let structure1 = coords(&S1);
    let structure2 = coords(&S1);
    assert!(minimum_rmsd(&structure1, &structure2).unwrap() < 1e-6);
    // Identical but mirrored (x and y components exchanged).
    let structure2 = coords(&[
        (5.0, 1.0, 9.0),
        (6.0, 2.0, 10.0),
        (7.0, 3.0, 11.0),
        (8.0, 4.0, 12.0),
    ]);
    assert!(minimum_rmsd(&structure1, &structure2).unwrap() < 1e-6);
    // Identical but with the atom order partly reversed.
    let structure2 = coords(&[
        (1.0, 5.0, 9.0),
        (2.0, 6.0, 10.0),
        (4.0, 8.0, 12.0),
        (3.0, 7.0, 11.0),
    ]);
    assert!(minimum_rmsd(&structure1, &structure2).unwrap() < 1e-6);
    // Identical but inverted.
    let structure2 = coords(&[
        (-1.0, -5.0, -9.0),
        (-2.0, -6.0, -10.0),
        (-3.0, -7.0, -11.0),
        (-4.0, -8.0, -12.0),
    ]);
    assert!(minimum_rmsd(&structure1, &structure2).unwrap() < 1e-6);
    // Identical but rotated.
    let c = 0.7071;
    let rotated: Vec<(f64, f64, f64)> = S1
        .iter()
        .map(|&(x, y, z)| (x, c * y - c * z, c * y + c * z))
        .collect();
    let structure2 = coords(&rotated);
    assert!(minimum_rmsd(&structure1, &structure2).unwrap() < 1e-3);
}

#[test]
fn test_self_comparison_is_zero() {
    let s = coords(&[(0.0, 0.0, 0.0), (2.0, 0.1, 0.0), (0.3, 1.7, 0.4)]);
    assert!(minimum_rmsd(&s, &s).unwrap() < 1e-6);
}

#[test]
fn test_label_order_invariance() {
    let s = coords(&[(0.0, 0.0, 0.0), (2.0, 0.1, 0.0), (0.3, 1.7, 0.4), (1.1, 0.9, 2.2)]);
    let permuted = vec![s[2], s[0], s[3], s[1]];
    assert!(minimum_rmsd(&s, &permuted).unwrap() < 1e-6);
    let r1 = minimum_rmsd(&s, &coords(&[(9.0, 0.0, 0.0), (7.0, 0.5, 0.2), (8.1, 1.2, 0.0), (7.7, 0.1, 1.4)])).unwrap();
    let r2 = minimum_rmsd(
        &permuted,
        &coords(&[(9.0, 0.0, 0.0), (7.0, 0.5, 0.2), (8.1, 1.2, 0.0), (7.7, 0.1, 1.4)]),
    )
    .unwrap();
    assert!((r1 - r2).abs() < 1e-6);
}

#[test]
fn test_rotation_invariance() {
    let s = coords(&[(0.0, 0.0, 0.0), (2.0, 0.0, 0.0), (0.0, 1.5, 0.0), (0.4, 0.3, 1.8)]);
    // An exact rotation by 90 degrees about the z axis.
    let rotated = coords(&[(0.0, 0.0, 0.0), (0.0, 2.0, 0.0), (-1.5, 0.0, 0.0), (-0.3, 0.4, 1.8)]);
    assert!(minimum_rmsd(&s, &rotated).unwrap() < 1e-3);
}

#[test]
fn test_mirror_and_inversion_invariance() {
    let s = coords(&[(0.0, 0.0, 0.0), (2.0, 0.1, 0.0), (0.3, 1.7, 0.4), (1.1, 0.9, 2.2)]);
    let mirror_x: Vec<Coordinate> = s.iter().map(|c| Coordinate(-c.0, c.1, c.2)).collect();
    assert!(minimum_rmsd(&s, &mirror_x).unwrap() < 1e-6);
    let mirror_y: Vec<Coordinate> = s.iter().map(|c| Coordinate(c.0, -c.1, c.2)).collect();
    assert!(minimum_rmsd(&s, &mirror_y).unwrap() < 1e-6);
    let inverted: Vec<Coordinate> = s.iter().map(|c| Coordinate(-c.0, -c.1, -c.2)).collect();
    assert!(minimum_rmsd(&s, &inverted).unwrap() < 1e-6);
}

#[test]
fn test_cardinality_mismatch() {
    let a = coords(&[(0.0, 0.0, 0.0), (1.0, 0.0, 0.0)]);
    let b = coords(&[(0.0, 0.0, 0.0), (1.0, 0.0, 0.0), (2.0, 0.0, 0.0)]);
    assert!(matches!(rmsd_candidates(&a, &b), Err(AnalyzerError::CardinalityMismatch)));
    let empty: Vec<Coordinate> = vec![];
    assert!(matches!(rmsd_candidates(&empty, &empty), Err(AnalyzerError::InvalidInput)));
}

#[test]
fn test_single_atom_blocks_match() {
    // A single Fe atom at (5, 5, 5) against the same atom after a rigid
    // translation: centering removes the difference entirely.
    let a = coords(&[(5.0, 5.0, 5.0)]);
    let b = coords(&[(7.0, 3.5, 9.25)]);
    assert!(minimum_rmsd(&a, &b).unwrap() < 1e-6);
}

#[test]
fn test_minimum_score_exact() {
    assert_eq!(minimum_score(&vec![5, 3, 7, 3]), Some(3));
    assert_eq!(minimum_score(&vec![]), None);
}

#[test]
fn test_all_permutations_counts() {
    let p3 = all_permutations(3);
    assert_eq!(p3.len(), 6);
    for p in &p3 {
        let mut sorted = p.clone();
        sorted.sort();
        assert_eq!(sorted, vec![0, 1, 2]);
    }
    assert_eq!(all_permutations(0).len(), 1);
    assert_eq!(all_permutations(1).len(), 1);
    assert_eq!(all_permutations(4).len(), 24);
}

#[test]
fn test_combinations_counts() {
    let c = combinations(4, 2);
    assert_eq!(c.len(), 6);
    for comb in &c {
        assert_eq!(comb.len(), 2);
        assert!(comb[0] < comb[1]);
        assert!(comb[1] < 4);
    }
    assert_eq!(combinations(3, 0).len(), 1);
    assert_eq!(combinations(2, 3).len(), 0);
}

#[test]
fn test_substructure_search_end_to_end() {
    // A tetrahedron of Fe atoms with edge 2.4 angstrom (inside the
    // Fe-Fe bond threshold of 2.64): every atom has three bonded
    // neighbours, so each of the four atoms yields one size-4
    // candidate, and each candidate matches the reference exactly.
    let a = 2.4f64;
    let pts = [
        (0.0, 0.0, 0.0),
        (a, 0.0, 0.0),
        (a / 2.0, a * 3f64.sqrt() / 2.0, 0.0),
        (a / 2.0, a * 3f64.sqrt() / 6.0, a * (2f64 / 3.0).sqrt()),
    ];
    let positions = coords(&pts);
    let atoms: Vec<Atom> = positions
        .iter()
        .map(|c| Atom { element: "Fe".to_string(), coordinate: *c })
        .collect();
    let block = StructureBlock {
        number: 0,
        energy: 0,
        symmetry: "C1".to_string(),
        crystal: CrystalInfo {
            x: 10_000,
            y: 10_000,
            z: 10_000,
            alpha: 90_000,
            beta: 90_000,
            gamma: 90_000,
        },
        atoms,
    };
    let table = PeriodicTable::new();
    let candidates = substructure_candidates(&block, &table, 4).unwrap();
    assert_eq!(candidates.len(), 4);
    // Evaluate each candidate against the reference point set.
    let reference = positions.clone();
    let mut scores: Vec<u64> = Vec::new();
    for group in &candidates {
        assert_eq!(group.len(), 4);
        let candidate_points: Vec<Coordinate> =
            group.iter().map(|&i| block.atoms[i].coordinate).collect();
        let r = minimum_rmsd(&candidate_points, &reference).unwrap();
        scores.push((r * 1.0e9).round() as u64);
    }
    // 0.3 angstrom acceptance threshold, in nano-angstrom.
    let reports = filter_matches(0, &candidates, &scores, 300_000_000);
    assert_eq!(reports.len(), 4);
    for report in &reports {
        assert_eq!(report.structure_index, 0);
        let mut idx = report.atom_indices.clone();
        idx.sort();
        assert_eq!(idx, vec![0, 1, 2, 3]);
        assert!(report.rmsd < 10_000, "rmsd {}", report.rmsd);
    }
}

#[test]
fn test_filter_atoms_by_element() {
    let atoms = vec![
        Atom { element: "Fe".to_string(), coordinate: Coordinate(0, 0, 0) },
        Atom { element: "O".to_string(), coordinate: Coordinate(1_000, 0, 0) },
        Atom { element: "Fe".to_string(), coordinate: Coordinate(2_000, 0, 0) },
    ];
    let block = StructureBlock {
        number: 7,
        energy: 42,
        symmetry: "C1".to_string(),
        crystal: CrystalInfo {
            x: 10_000,
            y: 10_000,
            z: 10_000,
            alpha: 90_000,
            beta: 90_000,
            gamma: 90_000,
        },
        atoms,
    };
    let filtered = filter_atoms_by_element(&block, &"Fe".to_string());
    assert_eq!(filtered.number, 7);
    assert_eq!(filtered.energy, 42);
    assert_eq!(filtered.atoms.len(), 2);
    assert_eq!(filtered.atoms[0].coordinate.0, 0);
    assert_eq!(filtered.atoms[1].coordinate.0, 2_000);
    assert!(filtered.atoms.iter().all(|a| a.element == "Fe"));
}
