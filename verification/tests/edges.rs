use japanmesh::gridsquare::{
    primaries_from_bounds, primary_patches, secondary_patches, CodeText, EighthCode,
    GridSquareCode, HalfCode, LngLat, LngLatBox, PrimaryCode, QuarterCode, SecondaryCode,
    StandardCode, DEGREE, MAX_UNSCALED, MULTIPLIER,
};
use japanmesh::Error;

#[test]
fn new_scales_by_thirty() {
    let point = LngLat::new(139_250_000_000, -35_500_000_000);
    assert_eq!(point.vlng, 139_250_000_000 * 30);
    assert_eq!(point.vlat, -35_500_000_000 * 30);
    assert_eq!(MULTIPLIER, 30);
    assert_eq!(DEGREE, 1_000_000_000);
    assert_eq!(point, LngLat::new_raw(4_177_500_000_000, -1_065_000_000_000));
    assert_eq!(point.lng(), 139_250_000_000);
    assert_eq!(point.lat(), -35_500_000_000);
    let limit = LngLat::new(MAX_UNSCALED, -MAX_UNSCALED);
    assert_eq!(limit.lng(), MAX_UNSCALED);
    assert_eq!(limit.lat(), -MAX_UNSCALED);
}

#[test]
fn unscaling_rounds_down() {
    assert_eq!(LngLat::new_raw(59, 60).lng(), 1);
    assert_eq!(LngLat::new_raw(59, 60).lat(), 2);
    assert_eq!(LngLat::new_raw(-1, -30).lng(), -1);
    assert_eq!(LngLat::new_raw(-1, -30).lat(), -1);
    assert_eq!(LngLat::new_raw(-31, 0).lng(), -2);
    assert_eq!(LngLat::new_raw(i64::MIN, i64::MAX).lng(), -307_445_734_561_825_861);
    assert_eq!(LngLat::new_raw(i64::MIN, i64::MAX).lat(), 307_445_734_561_825_860);
}

#[test]
fn points_are_written_in_degrees() {
    assert_eq!(LngLat::new(0, 0).to_string(), "LngLat(0, 0)");
    assert_eq!(
        LngLat::new(141_000_000_000, 43_000_000_000).to_string(),
        "LngLat(141, 43)"
    );
    assert_eq!(
        LngLat::new(-139_250_000_000, -500_000_000).to_string(),
        "LngLat(-139.25, -0.5)"
    );
    assert_eq!(
        LngLat::new(141_305_438_074, 42_939_466_350).to_string(),
        "LngLat(141.305438074, 42.93946635)"
    );
    assert_eq!(
        LngLat::new(1, 1_000_000_001).to_string(),
        "LngLat(0.000000001, 1.000000001)"
    );
    assert_eq!(
        LngLat::new(100_000_000_000, 10_050_000_000).to_string(),
        "LngLat(100, 10.05)"
    );
}

#[test]
fn a_point_on_the_upper_edge_is_outside() {
    let cell = LngLatBox::new(LngLat::new_raw(0, 0), LngLat::new_raw(10, 10));
    assert!(cell.contains_point(LngLat::new_raw(0, 0)));
    assert!(cell.contains_point(LngLat::new_raw(9, 9)));
    assert!(!cell.contains_point(LngLat::new_raw(10, 5)));
    assert!(!cell.contains_point(LngLat::new_raw(5, 10)));
    assert!(!cell.contains_point(LngLat::new_raw(-1, 5)));
    assert!(!cell.contains_point(LngLat::new_raw(5, -1)));
}

#[test]
fn boxes_that_touch_intersect() {
    let cell = LngLatBox::new(LngLat::new_raw(0, 0), LngLat::new_raw(10, 10));
    let beside = LngLatBox::new(LngLat::new_raw(10, 0), LngLat::new_raw(20, 10));
    let corner = LngLatBox::new(LngLat::new_raw(10, 10), LngLat::new_raw(20, 20));
    let apart = LngLatBox::new(LngLat::new_raw(11, 0), LngLat::new_raw(20, 10));
    let above = LngLatBox::new(LngLat::new_raw(0, 11), LngLat::new_raw(10, 20));
    let inside = LngLatBox::new(LngLat::new_raw(2, 2), LngLat::new_raw(3, 3));
    assert!(cell.intersects_box(&cell));
    assert!(cell.intersects_box(&beside));
    assert!(beside.intersects_box(&cell));
    assert!(cell.intersects_box(&corner));
    assert!(!cell.intersects_box(&apart));
    assert!(!apart.intersects_box(&cell));
    assert!(!cell.intersects_box(&above));
    assert!(cell.intersects_box(&inside));
    assert!(inside.intersects_box(&cell));
    assert!(cell.contains_box(&inside));
    assert!(!inside.contains_box(&cell));
    assert!(!cell.contains_box(&beside));
}

#[test]
fn split_cuts_into_equal_cells() {
    let cell = LngLatBox::new(LngLat::new_raw(100, 200), LngLat::new_raw(160, 230));
    assert_eq!(
        cell.split::<2>(0, 0),
        LngLatBox::new(LngLat::new_raw(100, 200), LngLat::new_raw(130, 215))
    );
    assert_eq!(
        cell.split::<2>(1, 1),
        LngLatBox::new(LngLat::new_raw(130, 215), LngLat::new_raw(160, 230))
    );
    assert_eq!(
        cell.split::<3>(1, 2),
        LngLatBox::new(LngLat::new_raw(120, 220), LngLat::new_raw(140, 230))
    );
    assert_eq!(cell.split::<1>(0, 0), cell);
    // where the width does not divide, the cuts are rounded down
    let odd = LngLatBox::new(LngLat::new_raw(0, 0), LngLat::new_raw(10, 7));
    assert_eq!(
        odd.split::<3>(0, 0),
        LngLatBox::new(LngLat::new_raw(0, 0), LngLat::new_raw(3, 2))
    );
    assert_eq!(
        odd.split::<3>(1, 1),
        LngLatBox::new(LngLat::new_raw(3, 2), LngLat::new_raw(6, 4))
    );
    assert_eq!(
        odd.split::<3>(2, 2),
        LngLatBox::new(LngLat::new_raw(6, 4), LngLat::new_raw(10, 7))
    );
    // the ends of the range of coordinates
    let wide = LngLatBox::new(
        LngLat::new_raw(i64::MIN, i64::MIN),
        LngLat::new_raw(i64::MAX, i64::MAX),
    );
    assert_eq!(
        wide.split::<255>(254, 0),
        LngLatBox::new(
            LngLat::new_raw(9151031864016699134, i64::MIN),
            LngLat::new_raw(i64::MAX, -9151031864016699135),
        )
    );
}

#[test]
fn coordinates_outside_the_grid_are_out_of_bounds() {
    let outside = [
        (99_999_999_999, 35_000_000_000),
        (200_000_000_000, 35_000_000_000),
        (135_000_000_000, -1),
        (135_000_000_000, 66_666_666_667),
        (-135_000_000_000, 35_000_000_000),
        (41_990_000_000, 43_330_000_000),
        (241_990_000_000, 43_330_000_000),
    ];
    for (lng, lat) in outside {
        let point = LngLat::new(lng, lat);
        assert_eq!(PrimaryCode::from_lnglat(point), Err(Error::OutOfBounds));
        assert_eq!(SecondaryCode::from_lnglat(point), Err(Error::OutOfBounds));
        assert_eq!(StandardCode::from_lnglat(point), Err(Error::OutOfBounds));
        assert_eq!(HalfCode::from_lnglat(point), Err(Error::OutOfBounds));
        assert_eq!(QuarterCode::from_lnglat(point), Err(Error::OutOfBounds));
        assert_eq!(EighthCode::from_lnglat(point), Err(Error::OutOfBounds));
    }
    let corner = PrimaryCode::from_lnglat(LngLat::new(100_000_000_000, 0)).unwrap();
    assert_eq!(corner.to_string(), "0000");
    let last = PrimaryCode::from_lnglat(LngLat::new(199_999_999_999, 66_666_666_666)).unwrap();
    assert_eq!(last.to_string(), "9999");
    let last = EighthCode::from_lnglat(LngLat::new(199_999_999_999, 66_666_666_666)).unwrap();
    assert_eq!(last.to_string(), "99997799444");
}

#[test]
fn texts_that_are_not_digits_are_invalid() {
    for text in ["12a4", "+1+2", "-123", "12 4", " 123", "１２", "12.4", ""] {
        assert_eq!(PrimaryCode::from_str(text), Err(Error::InvalidCode));
    }
    assert_eq!(PrimaryCode::from_str("123"), Err(Error::InvalidCode));
    assert_eq!(PrimaryCode::from_str("12345"), Err(Error::InvalidCode));
    assert_eq!(SecondaryCode::from_str("12345"), Err(Error::InvalidCode));
    assert_eq!(SecondaryCode::from_str("12a456"), Err(Error::InvalidCode));
    assert_eq!(SecondaryCode::from_str("1234+6"), Err(Error::InvalidCode));
    assert_eq!(StandardCode::from_str("1234567"), Err(Error::InvalidCode));
    assert_eq!(StandardCode::from_str("123456x8"), Err(Error::InvalidCode));
    assert_eq!(HalfCode::from_str("12345678"), Err(Error::InvalidCode));
    assert_eq!(HalfCode::from_str("12345678a"), Err(Error::InvalidCode));
    assert_eq!(QuarterCode::from_str("123456781"), Err(Error::InvalidCode));
    assert_eq!(EighthCode::from_str("1234567812"), Err(Error::InvalidCode));
    assert_eq!(EighthCode::from_str("é234567812"), Err(Error::InvalidCode));
}

#[test]
fn quadrants_are_one_to_four() {
    for quad in [0u32, 5, 6, 7, 8, 9] {
        assert_eq!(
            HalfCode::from_int(123456780 + quad),
            Err(Error::InvalidCode)
        );
    }
    for quad in 1..=4u32 {
        assert_eq!(
            HalfCode::from_int(123456780 + quad).unwrap().quad1() as u32,
            quad
        );
    }
    assert_eq!(HalfCode::from_str("123456780"), Err(Error::InvalidCode));
    assert_eq!(HalfCode::from_str("123456785"), Err(Error::InvalidCode));
    assert_eq!(QuarterCode::from_int(1234567810), Err(Error::InvalidCode));
    assert_eq!(QuarterCode::from_int(1234567815), Err(Error::InvalidCode));
    assert_eq!(QuarterCode::from_int(1234567801), Err(Error::InvalidCode));
    assert_eq!(QuarterCode::from_str("1234567851"), Err(Error::InvalidCode));
    assert_eq!(EighthCode::from_int(12345678120), Err(Error::InvalidCode));
    assert_eq!(EighthCode::from_int(12345678105), Err(Error::InvalidCode));
    assert_eq!(EighthCode::from_str("12345678125"), Err(Error::InvalidCode));
    assert!(EighthCode::from_str("12345678444").is_ok());
}

#[test]
fn numbers_that_are_too_long_are_invalid() {
    assert_eq!(PrimaryCode::from_int(10000), Err(Error::InvalidCode));
    assert_eq!(PrimaryCode::from_int(u16::MAX), Err(Error::InvalidCode));
    assert_eq!(SecondaryCode::from_int(1000000), Err(Error::InvalidCode));
    assert_eq!(StandardCode::from_int(100000000), Err(Error::InvalidCode));
    assert_eq!(HalfCode::from_int(1000000001), Err(Error::InvalidCode));
    assert_eq!(HalfCode::from_int(u32::MAX), Err(Error::InvalidCode));
    assert_eq!(QuarterCode::from_int(10000000011), Err(Error::InvalidCode));
    assert_eq!(EighthCode::from_int(100000000111), Err(Error::InvalidCode));
    assert_eq!(EighthCode::from_int(u64::MAX), Err(Error::InvalidCode));
    // a number whose upper part does not fit in 32 bits
    assert_eq!(
        QuarterCode::from_int((4_294_967_296 + 123_456_781) * 10 + 2),
        Err(Error::InvalidCode)
    );
    assert_eq!(
        EighthCode::from_int(((4_294_967_296 + 123_456_781) * 10 + 2) * 10 + 3),
        Err(Error::InvalidCode)
    );
}

#[test]
fn short_numbers_read_with_leading_zeros() {
    let code = PrimaryCode::from_int(12).unwrap();
    assert_eq!(code.y1(), 0);
    assert_eq!(code.x1(), 12);
    assert_eq!(code.to_string(), "0012");
    assert_eq!(SecondaryCode::from_int(5).unwrap().to_string(), "000005");
    assert_eq!(StandardCode::from_int(99).unwrap().to_string(), "00000099");
    assert_eq!(HalfCode::from_int(1).unwrap().to_string(), "000000001");
}

#[test]
fn patches_have_the_size_of_their_level() {
    let u = DEGREE;
    let sizes = [
        (PrimaryCode::from_int(5339).unwrap().patch(), 30 * u, 20 * u),
        (
            SecondaryCode::from_int(533945).unwrap().patch(),
            30 * u / 8,
            20 * u / 8,
        ),
        (
            StandardCode::from_int(53394526).unwrap().patch(),
            30 * u / 80,
            20 * u / 80,
        ),
        (
            HalfCode::from_int(533945263).unwrap().patch(),
            30 * u / 160,
            20 * u / 160,
        ),
        (
            QuarterCode::from_int(5339452634).unwrap().patch(),
            30 * u / 320,
            20 * u / 320,
        ),
        (
            EighthCode::from_int(53394526341).unwrap().patch(),
            30 * u / 640,
            20 * u / 640,
        ),
    ];
    for (patch, width, height) in sizes {
        assert_eq!(patch.max().vlng - patch.min().vlng, width);
        assert_eq!(patch.max().vlat - patch.min().vlat, height);
    }
    // 5339: from (139, 35 + 1/3) to (140, 36)
    let patch = PrimaryCode::from_int(5339).unwrap().patch();
    assert_eq!(patch.min(), LngLat::new_raw(139 * 30 * u, 53 * 20 * u));
    assert_eq!(patch.max(), LngLat::new(140 * u, 36 * u));
    assert_eq!(patch.min().lng(), 139 * u);
    assert_eq!(patch.min().lat(), 35_333_333_333);
}

#[test]
fn primaries_from_bounds_is_cut_down_to_the_grid() {
    let everything = LngLatBox::new(
        LngLat::new(-180 * DEGREE, -90 * DEGREE),
        LngLat::new(360 * DEGREE, 90 * DEGREE),
    );
    let all = primaries_from_bounds(everything);
    assert_eq!(all.len(), 10_000);
    assert_eq!(all[0].to_string(), "0000");
    assert_eq!(all[1].to_string(), "0001");
    assert_eq!(all[100].to_string(), "0100");
    assert_eq!(all[9_999].to_string(), "9999");

    let west = LngLatBox::new(LngLat::new(0, 0), LngLat::new(99 * DEGREE, 10 * DEGREE));
    assert_eq!(primaries_from_bounds(west).len(), 0);
    let north = LngLatBox::new(
        LngLat::new(120 * DEGREE, 70 * DEGREE),
        LngLat::new(130 * DEGREE, 80 * DEGREE),
    );
    assert_eq!(primaries_from_bounds(north).len(), 0);
    let south = LngLatBox::new(
        LngLat::new(120 * DEGREE, -10 * DEGREE),
        LngLat::new(130 * DEGREE, -1),
    );
    assert_eq!(primaries_from_bounds(south).len(), 0);

    // a box that is one point lies in one cell, or on an edge in none
    let point = LngLat::new(141_500_000_000, 43_000_000_000);
    let listed = primaries_from_bounds(LngLatBox::new(point, point));
    assert_eq!(listed.len(), 1);
    assert_eq!(listed[0].to_string(), "6441");
    let on_edge = LngLat::new(141 * DEGREE, 43_000_000_000);
    assert_eq!(primaries_from_bounds(LngLatBox::new(on_edge, on_edge)).len(), 0);

    // a box that is one cell
    let cell = PrimaryCode::from_int(6441).unwrap().patch();
    let listed = primaries_from_bounds(cell);
    assert_eq!(listed.len(), 1);
    assert_eq!(listed[0].to_string(), "6441");
}

#[test]
fn streams_hand_out_one_entry_at_a_time() {
    let seeds = vec![
        PrimaryCode::from_int(6441).unwrap(),
        PrimaryCode::from_int(1234).unwrap(),
        PrimaryCode::from_int(6442).unwrap(),
    ];
    let boundary = LngLatBox::new(
        LngLat::new(141_500_000_000, 43_000_000_000),
        LngLat::new(142_500_000_000, 43_100_000_000),
    );
    let mut stream = primary_patches(seeds.clone(), Some(boundary));
    let first = stream.next().unwrap();
    assert_eq!(first.0, seeds[0]);
    assert_eq!(first.1, seeds[0].patch());
    let second = stream.next().unwrap();
    assert_eq!(second.0, seeds[2]);
    assert_eq!(stream.next(), None);
    assert_eq!(stream.next(), None);

    let mut stream = primary_patches(seeds.clone(), None);
    assert_eq!(stream.next().unwrap().0, seeds[0]);
    assert_eq!(stream.collect().len(), 2);

    let empty: Vec<PrimaryCode> = Vec::new();
    assert_eq!(secondary_patches(empty, Some(boundary)).next(), None);
    let mut stream = secondary_patches(seeds, Some(boundary));
    let first = stream.next().unwrap();
    assert_eq!(first.0.to_string(), "644133");
    assert!(boundary.intersects_box(&first.1));
}

#[test]
fn a_query_box_that_is_a_point_yields_the_cells_that_touch_it() {
    let point = LngLat::new(141_500_000_000, 43_000_000_000);
    let boundary = LngLatBox::new(point, point);
    let seeds = vec![PrimaryCode::from_int(6441).unwrap()];
    assert_eq!(primary_patches(seeds.clone(), Some(boundary)).collect().len(), 1);
    // the point is a corner of four secondary cells
    let cells = secondary_patches(seeds, Some(boundary)).collect();
    let texts: Vec<String> = cells.iter().map(|(code, _)| code.to_string()).collect();
    assert_eq!(texts, vec!["644133", "644134", "644143", "644144"]);
}

#[test]
fn errors_have_a_message() {
    assert_eq!(Error::InvalidCode.message(), "Invalid code");
    assert_eq!(Error::OutOfBounds.message(), "Out of bounds");
    assert_eq!(Error::UnsupportedLevel.message(), "Unsupported level");
}
