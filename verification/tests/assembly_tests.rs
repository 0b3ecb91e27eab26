// Block assembly from a classified line stream: the logic of reading
// one structure file, with the text classification already done.

use arc_analyzer::assembly::{parse_structure, ParseError, ParsedLine};
use arc_analyzer::structures::{Atom, Coordinate, CrystalInfo, StructureBlock};

fn header(number: u64, energy: i64, symmetry: &str) -> ParsedLine {
    ParsedLine::HeaderLine(StructureBlock {
        number,
        energy,
        symmetry: symmetry.to_string(),
        crystal: CrystalInfo { x: 0, y: 0, z: 0, alpha: 0, beta: 0, gamma: 0 },
        atoms: vec![],
    })
}

#[test]
fn test_parse_structure_success() {
    // One block: header, cell parameters, one carbon atom, a filler
    // line ("end"), as an .arc file yields them.
    let lines = vec![
        header(0, -3_620_679_360, "C1"),
        ParsedLine::CellLine(CrystalInfo {
            x: 20_195,
            y: 20_195,
            z: 29_514,
            alpha: 90_000,
            beta: 90_000,
            gamma: 120_000,
        }),
        ParsedLine::AtomLine(Atom {
            element: "C".to_string(),
            coordinate: Coordinate(7_210, 10_148, 814),
        }),
        ParsedLine::BlankLine,
    ];
    let result = parse_structure(&lines, false);
    assert!(result.is_ok());
    let blocks = result.unwrap().unwrap();
    assert_eq!(blocks.len(), 1);
    let block = &blocks[0];
    assert_eq!(block.number, 0);
    assert_eq!(block.energy, -3_620_679_360);
    assert_eq!(block.symmetry, "C1");
    assert_eq!(block.crystal.x, 20_195);
    assert_eq!(block.crystal.gamma, 120_000);
    assert_eq!(block.atoms.len(), 1);
    let atom = &block.atoms[0];
    assert_eq!(atom.element, "C");
    assert_eq!(atom.coordinate.0, 7_210);
    assert_eq!(atom.coordinate.1, 10_148);
    assert_eq!(atom.coordinate.2, 814);
}

#[test]
fn test_parse_structure_fail() {
    // A line no rule accepts: ignored when asked to, a parse error
    // otherwise.
    let lines = vec![ParsedLine::IllegalLine("some_random_string".to_string())];
    let result = parse_structure(&lines, true);
    assert!(result.is_ok());
    assert!(result.unwrap().is_none());
    let result = parse_structure(&lines, false);
    assert!(result.is_err());
    match result.unwrap_err() {
        ParseError::ParseError(bad) => {
            assert_eq!(bad, vec!["some_random_string".to_string()]);
        },
        ParseError::IoError(_) => panic!("expected a parse error"),
    }
}

#[test]
fn test_parse_structure_two_blocks() {
    let lines = vec![
        header(0, 1_000_000, "C1"),
        ParsedLine::AtomLine(Atom {
            element: "Fe".to_string(),
            coordinate: Coordinate(0, 0, 0),
        }),
        header(1, 2_000_000, "C1"),
        ParsedLine::AtomLine(Atom {
            element: "O".to_string(),
            coordinate: Coordinate(1_000, 0, 0),
        }),
        ParsedLine::AtomLine(Atom {
            element: "O".to_string(),
            coordinate: Coordinate(2_000, 0, 0),
        }),
    ];
    let blocks = parse_structure(&lines, false).unwrap().unwrap();
    assert_eq!(blocks.len(), 2);
    assert_eq!(blocks[0].atoms.len(), 1);
    assert_eq!(blocks[1].atoms.len(), 2);
    assert_eq!(blocks[1].atoms[1].element, "O");
}

#[test]
fn test_parse_structure_empty_input() {
    let lines: Vec<ParsedLine> = vec![];
    let result = parse_structure(&lines, false);
    assert!(result.is_ok());
    assert!(result.unwrap().is_none());
}

#[test]
fn test_atoms_before_header_are_dropped() {
    let lines = vec![
        ParsedLine::AtomLine(Atom {
            element: "Fe".to_string(),
            coordinate: Coordinate(0, 0, 0),
        }),
        header(0, 0, "C1"),
    ];
    let blocks = parse_structure(&lines, false).unwrap().unwrap();
    assert_eq!(blocks.len(), 1);
    assert_eq!(blocks[0].atoms.len(), 0);
}
