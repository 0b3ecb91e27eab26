// Energy statistics and composition checks, over the fixed-point model:
// energies in 10^-6 units, coordinates in milliangstrom.

use arc_analyzer::analyzer::{
    check_atom_consistency, count_strucutre_block, extract_minimum, find_minimum_energy,
    list_energy, rearrange_atoms,
};
use arc_analyzer::structures::{Atom, Coordinate, CoordinateChoice, CrystalInfo, StructureBlock};

fn fe_at(x: i64, y: i64, z: i64) -> Atom {
    Atom { element: "Fe".to_string(), coordinate: Coordinate(x, y, z) }
}

fn block(number: u64, energy: i64, atoms: Vec<Atom>) -> StructureBlock {
    StructureBlock {
        number,
        energy,
        symmetry: "P1".to_string(),
        crystal: CrystalInfo {
            x: 10_000,
            y: 10_000,
            z: 10_000,
            alpha: 90_000,
            beta: 90_000,
            gamma: 90_000,
        },
        atoms,
    }
}

#[test]
fn test_find_minimum_energy() {
    let blocks = vec![
        block(1, 1_000_000, vec![fe_at(5_000, 5_000, 5_000)]),
        block(2, 2_000_000, vec![fe_at(5_000, 5_000, 5_000)]),
        block(3, 3_000_000, vec![fe_at(5_000, 5_000, 5_000)]),
    ];
    assert_eq!(find_minimum_energy(&blocks).unwrap(), 1_000_000);
    let empty_blocks: Vec<StructureBlock> = vec![];
    assert!(find_minimum_energy(&empty_blocks).is_none());
}

#[test]
fn test_count_structure_block() {
    let blocks = vec![
        block(1, 1_000_000, vec![fe_at(5_000, 5_000, 5_000)]),
        block(2, 2_000_000, vec![fe_at(5_000, 5_000, 5_000)]),
        block(3, 3_000_000, vec![fe_at(5_000, 5_000, 5_000)]),
    ];
    assert_eq!(count_strucutre_block(&blocks), 3);
    assert_eq!(count_strucutre_block(&vec![]), 0);
}

#[test]
fn test_check_atom_consistency() {
    // Blocks with the same atoms.
    let blocks = vec![
        block(1, 1_000_000, vec![fe_at(5_000, 5_000, 5_000)]),
        block(2, 2_000_000, vec![fe_at(5_000, 5_000, 5_000)]),
        block(3, 3_000_000, vec![fe_at(5_000, 5_000, 5_000)]),
    ];
    assert!(check_atom_consistency(&blocks).is_some());
    // Blocks with different atoms.
    let blocks = vec![
        block(1, 1_000_000, vec![fe_at(5_000, 5_000, 5_000)]),
        block(2, 2_000_000, vec![fe_at(5_000, 5_000, 5_000)]),
        block(
            3,
            3_000_000,
            vec![Atom { element: "O".to_string(), coordinate: Coordinate(5_000, 5_000, 5_000) }],
        ),
    ];
    assert!(check_atom_consistency(&blocks).is_none());
    // Blocks with different numbers of atoms.
    let blocks = vec![
        block(1, 1_000_000, vec![fe_at(5_000, 5_000, 5_000)]),
        block(2, 2_000_000, vec![fe_at(5_000, 5_000, 5_000)]),
        block(3, 3_000_000, vec![fe_at(5_000, 5_000, 5_000), fe_at(5_000, 5_000, 5_000)]),
    ];
    assert!(check_atom_consistency(&blocks).is_none());
    // The empty list is consistent.
    let empty_blocks: Vec<StructureBlock> = vec![];
    assert!(check_atom_consistency(&empty_blocks).is_some());
}

#[test]
fn test_check_atom_consistency_composition() {
    let blocks = vec![
        block(
            1,
            0,
            vec![
                fe_at(0, 0, 0),
                Atom { element: "O".to_string(), coordinate: Coordinate(1_000, 0, 0) },
                fe_at(2_000, 0, 0),
            ],
        ),
    ];
    let m = check_atom_consistency(&blocks).unwrap();
    assert_eq!(m.len(), 2);
    assert!(m.iter().any(|(e, c)| e == "Fe" && *c == 2));
    assert!(m.iter().any(|(e, c)| e == "O" && *c == 1));
}

#[test]
fn test_list_energy() {
    let blocks = vec![
        block(1, 1_000_000, vec![fe_at(5_000, 5_000, 5_000)]),
        block(2, 1_000_000, vec![fe_at(5_000, 5_000, 5_000)]),
        block(
            3,
            2_000_000,
            vec![Atom { element: "O".to_string(), coordinate: Coordinate(5_000, 5_000, 5_000) }],
        ),
    ];
    let energy_list = list_energy(&blocks);
    assert_eq!(energy_list.len(), 2);
    assert!(energy_list.iter().any(|info| info.energy == 1_000_000 && info.count == 2));
    assert!(energy_list.iter().any(|info| info.energy == 2_000_000 && info.count == 1));
    // An empty input gives an empty histogram.
    let empty_blocks: Vec<StructureBlock> = vec![];
    let energy_list = list_energy(&empty_blocks);
    assert!(energy_list.is_empty());
}

#[test]
fn test_list_energy_threshold() {
    // 0.0005 units apart: same level; 0.002 apart: separate levels.
    let blocks = vec![
        block(1, 1_000_000, vec![]),
        block(2, 1_000_500, vec![]),
        block(3, 1_002_000, vec![]),
    ];
    let energy_list = list_energy(&blocks);
    assert_eq!(energy_list.len(), 2);
    assert!(energy_list.iter().any(|info| info.energy == 1_000_000 && info.count == 2));
    assert!(energy_list.iter().any(|info| info.energy == 1_002_000 && info.count == 1));
}

#[test]
fn test_extract_minimum() {
    let blocks = vec![
        block(1, 1_000_000, vec![fe_at(5_000, 5_000, 5_000)]),
        block(2, 2_000_000, vec![fe_at(5_000, 5_000, 5_000)]),
        block(3, 3_000_000, vec![fe_at(5_000, 5_000, 5_000)]),
    ];
    let min_block = extract_minimum(&blocks).unwrap();
    assert_eq!(min_block.energy, 1_000_000);
    let empty_blocks: Vec<StructureBlock> = vec![];
    assert!(extract_minimum(&empty_blocks).is_none());
}

#[test]
fn test_rearrange_atoms_sorts_by_axis() {
    let mut b = block(
        1,
        0,
        vec![fe_at(3_000, 1_000, 0), fe_at(1_000, 2_000, 0), fe_at(2_000, 3_000, 0)],
    );
    rearrange_atoms(&mut b, CoordinateChoice::X);
    let xs: Vec<i64> = b.atoms.iter().map(|a| a.coordinate.0).collect();
    assert_eq!(xs, vec![1_000, 2_000, 3_000]);
    rearrange_atoms(&mut b, CoordinateChoice::Y);
    let ys: Vec<i64> = b.atoms.iter().map(|a| a.coordinate.1).collect();
    assert_eq!(ys, vec![1_000, 2_000, 3_000]);
}
