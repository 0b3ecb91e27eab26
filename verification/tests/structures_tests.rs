// Ported module tests: fixed-point model units are milliangstrom for
// coordinates and radii, 10^-6 units for energies and masses, and
// 10^-3 units for scale factors and degrees.

use arc_analyzer::periodic_table::PeriodicTable;
use arc_analyzer::structures::{Atom, Coordinate, CoordinateChoice, CrystalInfo, StructureBlock};

fn cube_crystal() -> CrystalInfo {
    CrystalInfo { x: 10_000, y: 10_000, z: 10_000, alpha: 90_000, beta: 90_000, gamma: 90_000 }
}

#[test]
fn test_periodic_table() {
    let table = PeriodicTable::new();
    let iron = table.get(&"Fe".to_string()).unwrap();
    assert_eq!(iron.name, "Iron");
    assert_eq!(iron.atomic_number, 26);
    assert_eq!(iron.mass, 55_845_000);
    assert_eq!(iron.valence_electrons, 8);
    assert_eq!(iron.atom_radius, 1_170);
}

#[test]
fn test_periodic_table_missing_element() {
    let table = PeriodicTable::new();
    assert_eq!(table.get(&"NONEXIST".to_string()), None);
}

#[test]
fn test_atom_subtraction() {
    let atom1 = Atom { element: "Fe".to_string(), coordinate: Coordinate(5_000, 5_000, 5_000) };
    let atom2 = Atom { element: "Fe".to_string(), coordinate: Coordinate(1_000, 2_000, 3_000) };
    let diff = atom1.sub(&atom2);
    assert_eq!(diff.0, 4_000);
    assert_eq!(diff.1, 3_000);
    assert_eq!(diff.2, 2_000);
}

#[test]
fn test_addatom() {
    let mut block = StructureBlock {
        number: 1,
        energy: 0,
        symmetry: "P1".to_string(),
        crystal: cube_crystal(),
        atoms: vec![],
    };
    let atom = Atom { element: "Fe".to_string(), coordinate: Coordinate(1_000, 2_000, 3_000) };
    block.addatom(atom);
    assert_eq!(block.atoms.len(), 1);
    assert_eq!(block.atoms[0].element, "Fe");
    assert_eq!(block.atoms[0].coordinate.0, 1_000);
    assert_eq!(block.atoms[0].coordinate.1, 2_000);
    assert_eq!(block.atoms[0].coordinate.2, 3_000);
}

#[test]
fn test_set_crystal_info() {
    let mut block = StructureBlock {
        number: 1,
        energy: 0,
        symmetry: "P1".to_string(),
        crystal: cube_crystal(),
        atoms: vec![],
    };
    let new_crystal = CrystalInfo {
        x: 20_000,
        y: 20_000,
        z: 20_000,
        alpha: 90_000,
        beta: 90_000,
        gamma: 90_000,
    };
    block.set_crystal_info(new_crystal);
    assert_eq!(block.crystal.x, 20_000);
    assert_eq!(block.crystal.y, 20_000);
    assert_eq!(block.crystal.z, 20_000);
}

#[test]
fn test_expand_crystal() {
    let block = StructureBlock {
        number: 1,
        energy: 0,
        symmetry: "P1".to_string(),
        crystal: cube_crystal(),
        atoms: vec![],
    };
    let new_block = block.expand_crystal(2_000);
    assert_eq!(new_block.crystal.x, 20_000);
    assert_eq!(new_block.crystal.y, 20_000);
    assert_eq!(new_block.crystal.z, 20_000);
}

#[test]
fn test_scale_crystal() {
    let block = StructureBlock {
        number: 1,
        energy: 0,
        symmetry: "P1".to_string(),
        crystal: cube_crystal(),
        atoms: vec![],
    };
    let new_block = block.scale_crystal(CoordinateChoice::X, 2_000);
    assert_eq!(new_block.crystal.x, 20_000);
    assert_eq!(new_block.crystal.y, 10_000);
    assert_eq!(new_block.crystal.z, 10_000);
}
