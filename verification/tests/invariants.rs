use japanmesh::gridsquare::{
    eighth_codes, half_codes, primaries_from_bounds, quarter_codes, secondary_codes,
    standard_codes, standard_patches, CodeStream, CodeText, EighthCode, GridSquareCode, HalfCode,
    LevelAndCode, LngLat, LngLatBox, PrimaryCode, Quad, QuarterCode, SecondaryCode, StandardCode,
    Subdivide,
};
use japanmesh::Error;

/// Everything that a stream still holds, in order.
fn drain<S: CodeStream>(mut stream: S) -> Vec<S::Code> {
    let mut out = Vec::new();
    while let Some(code) = stream.next() {
        out.push(code);
    }
    out
}

#[test]
fn text_round_trip_at_every_level() {
    let primary = PrimaryCode::from_int(305).unwrap();
    assert_eq!(primary.to_string(), "0305");
    assert_eq!(PrimaryCode::from_str(&primary.to_string()), Ok(primary));

    let secondary = SecondaryCode::from_int(30506).unwrap();
    assert_eq!(secondary.to_string(), "030506");
    assert_eq!(SecondaryCode::from_str(&secondary.to_string()), Ok(secondary));

    let standard = StandardCode::from_int(64416698).unwrap();
    assert_eq!(StandardCode::from_str(&standard.to_string()), Ok(standard));

    let half = HalfCode::from_int(644166984).unwrap();
    assert_eq!(HalfCode::from_str(&half.to_string()), Ok(half));

    let quarter = QuarterCode::from_int(6441669841).unwrap();
    assert_eq!(QuarterCode::from_str(&quarter.to_string()), Ok(quarter));

    let eighth = EighthCode::from_int(64416698413).unwrap();
    assert_eq!(EighthCode::from_str(&eighth.to_string()), Ok(eighth));

    for text in ["0000", "9999", "6441"] {
        assert_eq!(PrimaryCode::from_str(text).unwrap().to_string(), text);
    }
    for text in ["000000", "999966", "644142"] {
        assert_eq!(SecondaryCode::from_str(text).unwrap().to_string(), text);
    }
    assert_eq!(
        StandardCode::from_str("64414299").unwrap().to_string(),
        "64414299"
    );
    assert_eq!(
        HalfCode::from_str("644142994").unwrap().to_string(),
        "644142994"
    );
    assert_eq!(
        QuarterCode::from_str("6441429941").unwrap().to_string(),
        "6441429941"
    );
    assert_eq!(
        EighthCode::from_str("64414299414").unwrap().to_string(),
        "64414299414"
    );
}

#[test]
fn secondary_digit_seven_is_written_but_not_read() {
    // The point lies in row 7, column 7 of its primary cell.
    let code = SecondaryCode::from_lnglat(LngLat::new(141_885_960_000, 43_259_350_000)).unwrap();
    assert_eq!(code.y2(), 7);
    assert_eq!(code.x2(), 7);
    assert_eq!(code.to_string(), "644177");
    assert_eq!(SecondaryCode::from_str("644177"), Err(Error::InvalidCode));
    assert_eq!(SecondaryCode::from_int(644177), Err(Error::InvalidCode));
}

#[test]
fn secondary_rejects_sub_digits_from_seven() {
    for text in ["123470", "123407", "123477", "123480", "123409", "123499"] {
        assert_eq!(SecondaryCode::from_str(text), Err(Error::InvalidCode));
    }
    for code in [123470, 123407, 123477, 123480, 123409, 123499] {
        assert_eq!(SecondaryCode::from_int(code), Err(Error::InvalidCode));
    }
    assert!(SecondaryCode::from_str("123466").is_ok());
    assert!(SecondaryCode::from_int(123466).is_ok());
    assert!(SecondaryCode::from_str("123400").is_ok());
    // the levels below read the same two digits
    assert_eq!(StandardCode::from_str("12347000"), Err(Error::InvalidCode));
    assert_eq!(HalfCode::from_int(123407001), Err(Error::InvalidCode));
    assert_eq!(QuarterCode::from_str("1234770011"), Err(Error::InvalidCode));
    assert_eq!(EighthCode::from_int(12347700111), Err(Error::InvalidCode));
}

#[test]
fn children_lie_within_their_parent() {
    let primary = PrimaryCode::from_int(6441).unwrap();
    let secondaries = primary.iter_secondary();
    assert_eq!(secondaries.len(), 64);
    for child in &secondaries {
        assert_eq!(child.primary(), primary);
        assert!(primary.patch().contains_box(&child.patch()));
    }
    let secondary = secondaries[63];
    let standards = secondary.iter_standard();
    assert_eq!(standards.len(), 100);
    for child in &standards {
        assert_eq!(child.secondary(), secondary);
        assert!(secondary.patch().contains_box(&child.patch()));
    }
    let standard = standards[99];
    let halves = standard.iter_half();
    assert_eq!(halves.len(), 4);
    for child in &halves {
        assert_eq!(child.parent(), standard);
        assert!(standard.patch().contains_box(&child.patch()));
    }
    let half = halves[3];
    let quarters = half.iter_quad();
    assert_eq!(quarters.len(), 4);
    for child in &quarters {
        assert_eq!(child.parent(), half);
        assert!(half.patch().contains_box(&child.patch()));
    }
    let quarter = quarters[0];
    let eighths = quarter.children();
    assert_eq!(eighths.len(), 4);
    for child in &eighths {
        assert!(quarter.patch().contains_box(&child.patch()));
    }
}

#[test]
fn children_come_row_by_row() {
    let primary = PrimaryCode::from_int(6441).unwrap();
    let texts: Vec<String> = primary
        .iter_secondary()
        .iter()
        .map(|c| c.to_string())
        .collect();
    assert_eq!(texts[0], "644100");
    assert_eq!(texts[1], "644101");
    assert_eq!(texts[7], "644107");
    assert_eq!(texts[8], "644110");
    assert_eq!(texts[63], "644177");

    let secondary = SecondaryCode::from_int(644142).unwrap();
    let texts: Vec<String> = secondary
        .iter_standard()
        .iter()
        .map(|c| c.to_string())
        .collect();
    assert_eq!(texts[0], "64414200");
    assert_eq!(texts[9], "64414209");
    assert_eq!(texts[10], "64414210");
    assert_eq!(texts[99], "64414299");

    let standard = StandardCode::from_int(64414278).unwrap();
    let quads: Vec<u8> = standard.iter_half().iter().map(|c| c.quad1()).collect();
    assert_eq!(quads, vec![1, 2, 3, 4]);
    let half = HalfCode::from_int(644142782).unwrap();
    let quads: Vec<u8> = half.iter_quad().iter().map(|c| c.quad2()).collect();
    assert_eq!(quads, vec![1, 2, 3, 4]);
    let quarter = QuarterCode::from_int(6441427823).unwrap();
    let quads: Vec<u8> = quarter.iter_quad().iter().map(|c| c.quad3()).collect();
    assert_eq!(quads, vec![1, 2, 3, 4]);
}

#[test]
fn quadrants_are_numbered_from_the_lower_left() {
    let standard = StandardCode::from_int(64414278).unwrap();
    let cell = standard.patch();
    let halves = standard.iter_half();
    // 3 4
    // 1 2
    assert_eq!(halves[0].patch(), cell.split::<2>(0, 0));
    assert_eq!(halves[1].patch(), cell.split::<2>(1, 0));
    assert_eq!(halves[2].patch(), cell.split::<2>(0, 1));
    assert_eq!(halves[3].patch(), cell.split::<2>(1, 1));
    assert_eq!(halves[0].patch().min(), cell.min());
    assert_eq!(halves[3].patch().max(), cell.max());
    assert_eq!(Quad::new(standard, 4), halves[3]);
    assert_eq!(Quad::new(standard, 1).quad(), 1);
}

#[test]
fn box_order_does_not_matter() {
    let a = LngLat::new(139_250_000_000, 35_500_000_000);
    let b = LngLat::new(139_300_000_000, 35_600_000_000);
    let in_order = LngLatBox::new(a, b);
    assert_eq!(LngLatBox::new(b, a), in_order);
    assert_eq!(
        LngLatBox::new(
            LngLat::new_raw(b.vlng, a.vlat),
            LngLat::new_raw(a.vlng, b.vlat)
        ),
        in_order
    );
    assert_eq!(
        LngLatBox::new(
            LngLat::new_raw(a.vlng, b.vlat),
            LngLat::new_raw(b.vlng, a.vlat)
        ),
        in_order
    );
    assert_eq!(LngLatBox::new(in_order.min(), in_order.max()), in_order);
    assert_eq!(in_order.min(), a);
    assert_eq!(in_order.max(), b);
}

#[test]
fn the_code_found_for_a_point_holds_the_point() {
    let points = [
        (141_868_637_200, 43_240_493_100),
        (100_000_000_000, 0),
        (199_999_999_999, 66_666_666_666),
        (139_767_125_000, 35_681_236_000),
        (129_999_999_999, 33_333_333_333),
    ];
    for (lng, lat) in points {
        let point = LngLat::new(lng, lat);
        let primary = PrimaryCode::from_lnglat(point).unwrap();
        assert!(primary.patch().contains_point(point));
        let secondary = SecondaryCode::from_lnglat(point).unwrap();
        assert!(secondary.patch().contains_point(point));
        assert_eq!(secondary.primary(), primary);
        let standard = StandardCode::from_lnglat(point).unwrap();
        assert!(standard.patch().contains_point(point));
        assert_eq!(standard.secondary(), secondary);
        let half = HalfCode::from_lnglat(point).unwrap();
        assert!(half.patch().contains_point(point));
        assert_eq!(half.parent(), standard);
        let quarter = QuarterCode::from_lnglat(point).unwrap();
        assert!(quarter.patch().contains_point(point));
        assert_eq!(quarter.parent(), half);
        let eighth = EighthCode::from_lnglat(point).unwrap();
        assert!(eighth.patch().contains_point(point));
        assert_eq!(eighth.parent(), quarter);
    }
}

#[test]
fn the_lower_corner_of_a_cell_belongs_to_it() {
    let code = EighthCode::from_int(64414278234).unwrap();
    let cell = code.patch();
    assert_eq!(EighthCode::from_lnglat(cell.min()), Ok(code));
    // the upper corner belongs to the cell above and to the right
    let other = EighthCode::from_lnglat(cell.max()).unwrap();
    assert_ne!(other, code);
    assert_eq!(other.patch().min(), cell.max());
    // one unit inside the upper corner is still this cell
    let inside = LngLat::new_raw(cell.max().vlng - 1, cell.max().vlat - 1);
    assert_eq!(EighthCode::from_lnglat(inside), Ok(code));
}

#[test]
fn pruning_loses_no_cell() {
    // (141.305438074, 42.939466350) - (141.563765511, 43.129434849)
    let boundary = LngLatBox::new(
        LngLat::new(141_305_438_074, 42_939_466_350),
        LngLat::new(141_563_765_511, 43_129_434_849),
    );
    let seeds = vec![
        PrimaryCode::from_int(6440).unwrap(),
        PrimaryCode::from_int(6441).unwrap(),
        PrimaryCode::from_int(6442).unwrap(),
    ];
    // every standard code below the seeds, then only those that meet the box
    let mut all = Vec::new();
    for primary in &seeds {
        for secondary in primary.iter_secondary() {
            for standard in secondary.iter_standard() {
                if boundary.intersects_box(&standard.patch()) {
                    all.push(standard);
                }
            }
        }
    }
    assert_eq!(drain(standard_codes(seeds.clone(), Some(boundary))), all);
    assert_eq!(all.len(), 528);
    let with_boxes: Vec<(StandardCode, LngLatBox)> =
        all.iter().map(|code| (*code, code.patch())).collect();
    assert_eq!(
        standard_patches(seeds.clone(), Some(boundary)).collect(),
        with_boxes
    );
}

#[test]
fn enumeration_goes_seed_by_seed() {
    let boundary = LngLatBox::new(
        LngLat::new(141_900_000_000, 43_000_000_000),
        LngLat::new(142_100_000_000, 43_400_000_000),
    );
    let first = vec![PrimaryCode::from_int(6441).unwrap()];
    let second = vec![
        PrimaryCode::from_int(6442).unwrap(),
        PrimaryCode::from_int(6542).unwrap(),
    ];
    let mut both = first.clone();
    both.extend(second.iter().copied());

    let mut apart = drain(half_codes(first.clone(), Some(boundary)));
    apart.extend(drain(half_codes(second.clone(), Some(boundary))));
    assert!(!apart.is_empty());
    assert_eq!(drain(half_codes(both.clone(), Some(boundary))), apart);

    let mut apart = drain(secondary_codes(first.clone(), Some(boundary)));
    apart.extend(drain(secondary_codes(second.clone(), Some(boundary))));
    assert_eq!(drain(secondary_codes(both, Some(boundary))), apart);
}

#[test]
fn without_a_query_box_every_cell_is_listed() {
    let seeds = vec![PrimaryCode::from_int(6441).unwrap()];
    assert_eq!(drain(secondary_codes(seeds.clone(), None)).len(), 64);
    assert_eq!(drain(standard_codes(seeds.clone(), None)).len(), 6400);
    assert_eq!(drain(half_codes(seeds.clone(), None)).len(), 25_600);
    assert_eq!(drain(quarter_codes(seeds.clone(), None)).len(), 102_400);
    assert_eq!(drain(eighth_codes(seeds.clone(), None)).len(), 409_600);
    let secondaries = drain(secondary_codes(seeds.clone(), None));
    assert_eq!(secondaries, seeds[0].iter_secondary());
}

#[test]
fn primaries_from_bounds_lists_the_cells_that_overlap() {
    let bounds = LngLatBox::new(
        LngLat::new(141_305_438_074, 42_939_466_350),
        LngLat::new(142_010_000_000, 43_529_434_849),
    );
    let listed = primaries_from_bounds(bounds);
    let texts: Vec<String> = listed.iter().map(|c| c.to_string()).collect();
    assert_eq!(texts, vec!["6441", "6442", "6541", "6542"]);
    for code in (0..=9999u16).map(|n| PrimaryCode::from_int(n).unwrap()) {
        let cell = code.patch();
        let overlaps = cell.min().vlng < bounds.max().vlng
            && bounds.min().vlng < cell.max().vlng
            && cell.min().vlat < bounds.max().vlat
            && bounds.min().vlat < cell.max().vlat;
        assert_eq!(listed.contains(&code), overlaps);
    }
}

#[test]
fn dispatcher_goes_by_the_number_of_digits() {
    assert!(matches!(
        LevelAndCode::from_int(9999),
        Ok(LevelAndCode::Primary(_))
    ));
    assert!(matches!(
        LevelAndCode::from_int(123456),
        Ok(LevelAndCode::Secondary(_))
    ));
    assert!(matches!(
        LevelAndCode::from_int(12345678),
        Ok(LevelAndCode::Standard(_))
    ));
    assert!(matches!(
        LevelAndCode::from_int(123456781),
        Ok(LevelAndCode::Half(_))
    ));
    assert!(matches!(
        LevelAndCode::from_int(1234567812),
        Ok(LevelAndCode::Quarter(_))
    ));
    assert!(matches!(
        LevelAndCode::from_int(12345678123),
        Ok(LevelAndCode::Eighth(_))
    ));
    assert!(matches!(
        LevelAndCode::from_str("123456"),
        Ok(LevelAndCode::Secondary(_))
    ));
    for code in [0u64, 1, 12, 123, 12345, 123456781234, u64::MAX] {
        assert_eq!(LevelAndCode::from_int(code), Err(Error::InvalidCode));
    }
    for text in ["", "1", "12", "123", "12345", "123456781234"] {
        assert_eq!(LevelAndCode::from_str(text), Err(Error::InvalidCode));
    }
    assert_eq!(
        LevelAndCode::from_int(1234561),
        Err(Error::UnsupportedLevel)
    );
    assert_eq!(
        LevelAndCode::from_str("1234561"),
        Err(Error::UnsupportedLevel)
    );
    assert_eq!(
        LevelAndCode::from_str("abcdefg"),
        Err(Error::UnsupportedLevel)
    );
    // the right width, but not a code of the level
    assert_eq!(LevelAndCode::from_int(123477), Err(Error::InvalidCode));
    assert_eq!(LevelAndCode::from_str("12a4"), Err(Error::InvalidCode));
    assert_eq!(LevelAndCode::from_int(123456785), Err(Error::InvalidCode));
    assert_eq!(
        LevelAndCode::from_int(1234),
        Ok(LevelAndCode::Primary(PrimaryCode::from_int(1234).unwrap()))
    );
}

#[test]
fn codes_are_read_with_parse() {
    assert_eq!("1234".parse::<PrimaryCode>(), PrimaryCode::from_str("1234"));
    assert_eq!("123456".parse::<SecondaryCode>(), SecondaryCode::from_str("123456"));
    assert_eq!(
        "12345678".parse::<StandardCode>(),
        StandardCode::from_str("12345678")
    );
    assert_eq!("123456781".parse::<HalfCode>(), HalfCode::from_str("123456781"));
    assert_eq!(
        "1234567812".parse::<QuarterCode>(),
        QuarterCode::from_str("1234567812")
    );
    assert_eq!(
        "12345678123".parse::<EighthCode>(),
        EighthCode::from_str("12345678123")
    );
    assert_eq!(
        "12345678123".parse::<LevelAndCode>(),
        LevelAndCode::from_str("12345678123")
    );
    assert!("1234".parse::<PrimaryCode>().is_ok());
    assert_eq!("123477".parse::<SecondaryCode>(), Err(Error::InvalidCode));
    assert_eq!("1234567".parse::<LevelAndCode>(), Err(Error::UnsupportedLevel));
}

#[test]
fn numbers_and_digits_agree() {
    for code in [0u16, 5, 305, 1234, 6441, 9999] {
        let text = format!("{:04}", code);
        assert_eq!(PrimaryCode::from_int(code), PrimaryCode::from_str(&text));
    }
    for code in [5u32, 30506, 123456, 644142, 644177, 999966, 999999] {
        let text = format!("{:06}", code);
        assert_eq!(SecondaryCode::from_int(code), SecondaryCode::from_str(&text));
    }
    for code in [99u32, 12345678, 64414278, 64417700, 99996699] {
        let text = format!("{:08}", code);
        assert_eq!(StandardCode::from_int(code), StandardCode::from_str(&text));
    }
    for code in [1u32, 123456781, 644142782, 644142785, 999966994] {
        let text = format!("{:09}", code);
        assert_eq!(HalfCode::from_int(code), HalfCode::from_str(&text));
    }
    for code in [11u64, 1234567812, 6441427823, 6441427803, 9999669944] {
        let text = format!("{:010}", code);
        assert_eq!(QuarterCode::from_int(code), QuarterCode::from_str(&text));
    }
    for code in [111u64, 12345678123, 64414278234, 64414278534, 99996699444] {
        let text = format!("{:011}", code);
        assert_eq!(EighthCode::from_int(code), EighthCode::from_str(&text));
    }
}
