use japanmesh::gridsquare::{
    eighth_patches, half_patches, primaries_from_bounds, primary_patches, quarter_patches,
    secondary_patches, standard_patches, LngLat, LngLatBox, PrimaryCode,
};

/// Every primary code of the grid, row by row.
fn whole_grid() -> Vec<PrimaryCode> {
    (0..=9999u16)
        .map(|code| PrimaryCode::from_int(code).unwrap())
        .collect()
}

#[test]
fn test_patches() {
    // (141.305438074, 42.939466350) - (141.563765511, 43.129434849)
    let boundary = LngLatBox::new(
        LngLat::new(141_305_438_074, 42_939_466_350),
        LngLat::new(141_563_765_511, 43_129_434_849),
    );
    let seeds = whole_grid();

    let patches = primary_patches(seeds.clone(), Some(boundary)).collect();
    assert!(patches.iter().all(|(_, e)| boundary.intersects_box(e)));
    assert_eq!(patches.len(), 1);

    let patches = secondary_patches(seeds.clone(), Some(boundary)).collect();
    assert!(patches.iter().all(|(_, e)| boundary.intersects_box(e)));
    assert_eq!(patches.len(), 9);

    let patches = standard_patches(seeds.clone(), Some(boundary)).collect();
    assert!(patches.iter().all(|(_, e)| boundary.intersects_box(e)));
    assert_eq!(patches.len(), 528);

    let patches = half_patches(seeds.clone(), Some(boundary)).collect();
    assert!(patches.iter().all(|(_, e)| boundary.intersects_box(e)));
    assert_eq!(patches.len(), 2021);

    let patches = quarter_patches(seeds.clone(), Some(boundary)).collect();
    assert!(patches.iter().all(|(_, e)| boundary.intersects_box(e)));
    assert_eq!(patches.len(), 7812);

    let patches = eighth_patches(seeds.clone(), Some(boundary)).collect();
    assert!(patches.iter().all(|(_, e)| boundary.intersects_box(e)));
    assert_eq!(patches.len(), 30544);
}

#[test]
fn test_primaries_from_bounds() {
    assert_eq!(
        primaries_from_bounds(LngLatBox::new(
            LngLat::new(141_305_438_074, 42_939_466_350),
            LngLat::new(141_563_765_511, 43_129_434_849),
        ))
        .len(),
        1
    );
    assert_eq!(
        primaries_from_bounds(LngLatBox::new(
            LngLat::new(141_305_438_074, 42_939_466_350),
            LngLat::new(142_000_000_000, 43_529_434_849), // lat exceeds the boundary
        ))
        .len(),
        2
    );
    assert_eq!(
        primaries_from_bounds(LngLatBox::new(
            LngLat::new(141_305_438_074, 42_939_466_350),
            LngLat::new(142_010_000_000, 43_129_434_849), // lng exceeds the boundary
        ))
        .len(),
        2
    );
    assert_eq!(
        primaries_from_bounds(LngLatBox::new(
            LngLat::new(141_305_438_074, 42_939_466_350),
            LngLat::new(142_010_000_000, 43_529_434_849), // both lng and lat exceeds the boundary
        ))
        .len(),
        4
    );
}
