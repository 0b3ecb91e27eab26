// Coordination and bonding, exact in the fixed-point model: two atoms
// are bonded when their distance is at most the sum of their radii plus
// 0.3 angstrom (300 milliangstrom).

use arc_analyzer::coordination::{calc_coordination, calc_coordination_matrix, distance_squared};
use arc_analyzer::errors::AnalyzerError;
use arc_analyzer::periodic_table::PeriodicTable;
use arc_analyzer::structures::{Atom, Coordinate, CrystalInfo, StructureBlock};

fn block_of(atoms: Vec<Atom>) -> StructureBlock {
    StructureBlock {
        number: 0,
        energy: 0,
        symmetry: "C1".to_string(),
        crystal: CrystalInfo {
            x: 10_000,
            y: 10_000,
            z: 10_000,
            alpha: 90_000,
            beta: 90_000,
            gamma: 90_000,
        },
        atoms,
    }
}

fn fe_at(x: i64, y: i64, z: i64) -> Atom {
    Atom { element: "Fe".to_string(), coordinate: Coordinate(x, y, z) }
}

#[test]
fn test_distance_squared_exact() {
    let a = Coordinate(0, 0, 0);
    let b = Coordinate(3_000, 4_000, 0);
    assert_eq!(distance_squared(&a, &b), 25_000_000);
}

#[test]
fn test_bond_threshold_boundary() {
    // The Fe-Fe threshold is 1.17 + 1.17 + 0.3 = 2.64 angstrom.  Just
    // inside it the atoms are bonded; just outside they are not.
    let table = PeriodicTable::new();
    let inside = block_of(vec![fe_at(0, 0, 0), fe_at(2_639, 0, 0)]);
    assert_eq!(calc_coordination(&inside, &table).unwrap(), vec![1, 1]);
    let at_threshold = block_of(vec![fe_at(0, 0, 0), fe_at(2_640, 0, 0)]);
    assert_eq!(calc_coordination(&at_threshold, &table).unwrap(), vec![1, 1]);
    let outside = block_of(vec![fe_at(0, 0, 0), fe_at(2_641, 0, 0)]);
    assert_eq!(calc_coordination(&outside, &table).unwrap(), vec![0, 0]);
}

#[test]
fn test_coordination_scenario() {
    // Two Fe atoms exactly 2.34 angstrom apart (within the 2.64
    // threshold): coordination number 1 each; moved to 3.0 angstrom:
    // 0 each.
    let table = PeriodicTable::new();
    let close = block_of(vec![fe_at(0, 0, 0), fe_at(2_340, 0, 0)]);
    assert_eq!(calc_coordination(&close, &table).unwrap(), vec![1, 1]);
    let far = block_of(vec![fe_at(0, 0, 0), fe_at(3_000, 0, 0)]);
    assert_eq!(calc_coordination(&far, &table).unwrap(), vec![0, 0]);
}

#[test]
fn test_coordination_matrix_symmetric() {
    let table = PeriodicTable::new();
    let block = block_of(vec![
        fe_at(0, 0, 0),
        fe_at(2_000, 0, 0),
        Atom { element: "O".to_string(), coordinate: Coordinate(0, 1_500, 0) },
        fe_at(5_000, 5_000, 5_000),
    ]);
    let m = calc_coordination_matrix(&block, &table).unwrap();
    assert_eq!(m.n, 4);
    for i in 0..4 {
        for j in 0..4 {
            assert_eq!(m.get(i, j), m.get(j, i));
        }
        assert_eq!(m.get(i, i), 0);
    }
}

#[test]
fn test_coordination_matrix_entries() {
    let table = PeriodicTable::new();
    let block = block_of(vec![fe_at(0, 0, 0), fe_at(2_340, 0, 0), fe_at(10_000, 0, 0)]);
    let m = calc_coordination_matrix(&block, &table).unwrap();
    assert_eq!(m.get(0, 1), 1);
    assert_eq!(m.get(1, 0), 1);
    assert_eq!(m.get(0, 2), 0);
    assert_eq!(m.get(1, 2), 0);
}

#[test]
fn test_unknown_element() {
    let table = PeriodicTable::new();
    let block = block_of(vec![
        fe_at(0, 0, 0),
        Atom { element: "Xq".to_string(), coordinate: Coordinate(1_000, 0, 0) },
    ]);
    assert!(matches!(calc_coordination(&block, &table), Err(AnalyzerError::UnknownElement)));
    assert!(matches!(
        calc_coordination_matrix(&block, &table),
        Err(AnalyzerError::UnknownElement)
    ));
}
