// Interplanar spacing extraction.  A spacing in milliangstrom is
// delta / sqrt(normal_norm_sq); the report's values are exact integers.

use arc_analyzer::errors::AnalyzerError;
use arc_analyzer::planes::calculate_interplanar_spacing;
use arc_analyzer::structures::{Atom, Coordinate};

fn fe_at(x: i64, y: i64, z: i64) -> Atom {
    Atom { element: "Fe".to_string(), coordinate: Coordinate(x, y, z) }
}

#[test]
fn test_collinear_points_rejected() {
    // Three points on the x axis do not determine a plane.
    let atoms = vec![fe_at(0, 0, 0), fe_at(1_000, 0, 0), fe_at(2_000, 0, 0), fe_at(0, 0, 2_000)];
    assert!(matches!(
        calculate_interplanar_spacing(&atoms, 0, 1, 2),
        Err(AnalyzerError::CollinearPoints)
    ));
}

#[test]
fn test_invalid_input_rejected() {
    let atoms = vec![fe_at(0, 0, 0), fe_at(1_000, 0, 0), fe_at(0, 1_000, 0)];
    assert!(matches!(
        calculate_interplanar_spacing(&atoms, 0, 1, 3),
        Err(AnalyzerError::InvalidInput)
    ));
    let two = vec![fe_at(0, 0, 0), fe_at(1_000, 0, 0)];
    assert!(matches!(
        calculate_interplanar_spacing(&two, 0, 1, 1),
        Err(AnalyzerError::InvalidInput)
    ));
}

#[test]
fn test_cubic_slab_spacings_exact() {
    // A slab with layers at z = 0, 2, 4 angstrom.  The base plane is
    // fitted through three atoms of the z = 0 layer, so its normal is
    // (0, 0, 10^6) in model units and normal_norm_sq is 10^12; each
    // delta is then 2 angstrom times 10^6.
    let atoms = vec![
        fe_at(0, 0, 0),
        fe_at(1_000, 0, 0),
        fe_at(0, 1_000, 0),
        fe_at(0, 0, 2_000),
        fe_at(0, 0, 4_000),
    ];
    let report = calculate_interplanar_spacing(&atoms, 0, 1, 2).unwrap();
    assert_eq!(report.normal_norm_sq, 1_000_000_000_000);
    assert_eq!(report.deltas, vec![2_000_000_000, 2_000_000_000]);
}

#[test]
fn test_cubic_slab_spacings_within_tolerance() {
    // The same slab, checked as a physical length: every spacing is
    // within the in-plane tolerance (0.1 angstrom) of the known layer
    // distance d = 2 angstrom.
    let atoms = vec![
        fe_at(0, 0, 0),
        fe_at(1_000, 0, 0),
        fe_at(0, 1_000, 0),
        fe_at(500, 500, 30),
        fe_at(0, 0, 2_000),
        fe_at(700, 100, 2_010),
        fe_at(0, 0, 4_000),
    ];
    let report = calculate_interplanar_spacing(&atoms, 0, 1, 2).unwrap();
    assert_eq!(report.deltas.len(), 2);
    let norm = (report.normal_norm_sq as f64).sqrt();
    for delta in &report.deltas {
        let spacing_angstrom = (*delta as f64 / norm) / 1000.0;
        assert!((spacing_angstrom - 2.0).abs() < 0.1, "spacing {}", spacing_angstrom);
    }
}

#[test]
fn test_single_layer_gives_no_spacings() {
    let atoms = vec![fe_at(0, 0, 0), fe_at(1_000, 0, 0), fe_at(0, 1_000, 0), fe_at(500, 500, 50)];
    let report = calculate_interplanar_spacing(&atoms, 0, 1, 2).unwrap();
    assert!(report.deltas.is_empty());
}
