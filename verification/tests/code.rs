use japanmesh::gridsquare::{
    CodeText, EighthCode, GridSquareCode, HalfCode, LevelAndCode, LngLat, LngLatBox, PrimaryCode,
    QuarterCode, SecondaryCode, StandardCode, DEGREE,
};

/// One scaled unit of longitude or latitude: a thirtieth of a degree.
const U: i64 = DEGREE;

#[test]
fn test_primary_code() {
    assert!(matches!(
        LevelAndCode::from_int(9999),
        Ok(LevelAndCode::Primary(_))
    ));
    assert!(matches!(
        LevelAndCode::from_str("9999"),
        Ok(LevelAndCode::Primary(_))
    ));

    let code = PrimaryCode::from_int(1234).unwrap();
    assert_eq!(code.y1(), 12);
    assert_eq!(code.x1(), 34);

    let code = PrimaryCode::from_str("1234").unwrap();
    assert_eq!(code.y1(), 12);
    assert_eq!(code.x1(), 34);

    assert_eq!(code.to_string(), "1234");
    PrimaryCode::from_str("12345").expect_err("must be 4 digits");

    let code = PrimaryCode::from_int(6441).unwrap();
    assert_eq!(
        code.patch(),
        LngLatBox::new(
            LngLat::new_raw(30 * U * 141, 20 * U * 64),
            LngLat::new_raw(30 * U * 142, 20 * U * 65)
        )
    );

    // (141.99, 43.33)
    let code = PrimaryCode::from_lnglat(LngLat::new(141_990_000_000, 43_330_000_000)).unwrap();
    assert_eq!(code.to_string(), "6441");

    // (142.01, 43.34)
    let code = PrimaryCode::from_lnglat(LngLat::new(142_010_000_000, 43_340_000_000)).unwrap();
    assert_eq!(code.to_string(), "6542");
}

#[test]
fn test_secondary_code() {
    assert!(matches!(
        LevelAndCode::from_int(123456),
        Ok(LevelAndCode::Secondary(_))
    ));

    let code = SecondaryCode::from_int(123456).unwrap();
    assert_eq!(code.y1(), 12);
    assert_eq!(code.x1(), 34);
    assert_eq!(code.y2(), 5);
    assert_eq!(code.x2(), 6);
    assert_eq!(code.to_string(), "123456");
    assert_eq!(code.primary(), PrimaryCode::from_int(1234).unwrap());

    let code = SecondaryCode::from_str("123456").unwrap();
    assert_eq!(code.y1(), 12);
    assert_eq!(code.x1(), 34);
    assert_eq!(code.y2(), 5);
    assert_eq!(code.x2(), 6);

    SecondaryCode::from_str("1234567").expect_err("must be 6 digits");
    SecondaryCode::from_str("123488").expect_err("y2 and x2 must be less than 8");

    let code = SecondaryCode::from_int(644142).unwrap();
    assert_eq!(
        code.patch(),
        LngLatBox::new(
            // 30 * (141 + 2 / 8), 20 * (64 + 4 / 8)
            LngLat::new_raw(30 * U * 141 + 30 * U * 2 / 8, 20 * U * 64 + 20 * U * 4 / 8),
            // 30 * (141 + 3 / 8), 20 * (64 + 5 / 8)
            LngLat::new_raw(30 * U * 141 + 30 * U * 3 / 8, 20 * U * 64 + 20 * U * 5 / 8)
        )
    );

    // (141.87132, 43.24550)
    let code = SecondaryCode::from_lnglat(LngLat::new(141_871_320_000, 43_245_500_000)).unwrap();
    assert_eq!(code.to_string(), "644166");

    // (141.88596, 43.25935)
    let code = SecondaryCode::from_lnglat(LngLat::new(141_885_960_000, 43_259_350_000)).unwrap();
    assert_eq!(code.to_string(), "644177");
}

#[test]
fn test_standard_code() {
    assert!(matches!(
        LevelAndCode::from_int(12345678),
        Ok(LevelAndCode::Standard(_))
    ));
    assert!(matches!(
        LevelAndCode::from_str("12345678"),
        Ok(LevelAndCode::Standard(_))
    ));

    let code = StandardCode::from_int(12345678).unwrap();
    assert_eq!(code.y1(), 12);
    assert_eq!(code.x1(), 34);
    assert_eq!(code.y2(), 5);
    assert_eq!(code.x2(), 6);
    assert_eq!(code.y3(), 7);
    assert_eq!(code.x3(), 8);
    assert_eq!(code.to_string(), "12345678");
    assert_eq!(code.secondary(), SecondaryCode::from_int(123456).unwrap());
    assert_eq!(code.primary(), PrimaryCode::from_int(1234).unwrap());

    let code = StandardCode::from_str("12345678").unwrap();
    assert_eq!(code.y1(), 12);
    assert_eq!(code.x1(), 34);
    assert_eq!(code.y2(), 5);
    assert_eq!(code.x2(), 6);
    assert_eq!(code.y3(), 7);
    assert_eq!(code.x3(), 8);

    SecondaryCode::from_str("123456789").expect_err("must be 8 digits");
    SecondaryCode::from_str("12348899").expect_err("y2 and x2 must be less than 8");

    let code = StandardCode::from_int(64414278).unwrap();
    assert_eq!(
        code.patch(),
        LngLatBox::new(
            // 30 * 141 + 30 * (2 + 8 / 10) / 8, 20 * 64 + 20 * (4 + 7 / 10) / 8
            LngLat::new_raw(
                30 * U * 141 + 30 * U * 28 / 80,
                20 * U * 64 + 20 * U * 47 / 80,
            ),
            // 30 * 141 + 30 * (2 + 9 / 10) / 8, 20 * 64 + 20 * (4 + 8 / 10) / 8
            LngLat::new_raw(
                30 * U * 141 + 30 * U * 29 / 80,
                20 * U * 64 + 20 * U * 48 / 80,
            ),
        )
    );

    // (141.861882, 43.249259)
    let code = StandardCode::from_lnglat(LngLat::new(141_861_882_000, 43_249_259_000)).unwrap();
    assert_eq!(code.to_string(), "64416698");
}

#[test]
fn test_half_code() {
    assert!(matches!(
        LevelAndCode::from_int(123456781),
        Ok(LevelAndCode::Half(_))
    ));
    assert!(matches!(
        LevelAndCode::from_str("123456781"),
        Ok(LevelAndCode::Half(_))
    ));

    let code = HalfCode::from_int(123456781).unwrap();
    assert_eq!(code.y1(), 12);
    assert_eq!(code.x1(), 34);
    assert_eq!(code.y2(), 5);
    assert_eq!(code.x2(), 6);
    assert_eq!(code.y3(), 7);
    assert_eq!(code.x3(), 8);
    assert_eq!(code.quad1(), 1);
    assert_eq!(code.to_string(), "123456781");

    let code2 = HalfCode::from_str("123456781").unwrap();
    assert_eq!(code, code2);

    let code = HalfCode::from_int(644142782).unwrap();
    assert_eq!(
        code.patch(),
        LngLatBox::new(
            // 30 * 141 + 30 * (2 + (8 + 0.5) / 10) / 8, 20 * 64 + 20 * (4 + 7 / 10) / 8
            LngLat::new_raw(
                30 * U * 141 + 30 * U * 285 / 800,
                20 * U * 64 + 20 * U * 47 / 80,
            ),
            // 30 * (141 + (2 + 9 / 10) / 8), 20 * 64 + 20 * (4 + (7 + 0.5) / 10) / 8
            LngLat::new_raw(
                30 * U * 141 + 30 * U * 29 / 80,
                20 * U * 64 + 20 * U * 475 / 800,
            ),
        )
    );

    // (141.8686782, 43.2405564)
    let code = HalfCode::from_lnglat(LngLat::new(141_868_678_200, 43_240_556_400)).unwrap();
    assert_eq!(code.to_string(), "644166893");
}

#[test]
fn test_quarter_code() {
    assert!(matches!(
        LevelAndCode::from_int(1234567812),
        Ok(LevelAndCode::Quarter(_))
    ));
    assert!(matches!(
        LevelAndCode::from_str("1234567812"),
        Ok(LevelAndCode::Quarter(_))
    ));

    let code = QuarterCode::from_int(1234567812).unwrap();
    assert_eq!(code.y1(), 12);
    assert_eq!(code.x1(), 34);
    assert_eq!(code.y2(), 5);
    assert_eq!(code.x2(), 6);
    assert_eq!(code.y3(), 7);
    assert_eq!(code.x3(), 8);
    assert_eq!(code.quad1(), 1);
    assert_eq!(code.quad2(), 2);
    assert_eq!(code.to_string(), "1234567812");

    let code2 = QuarterCode::from_str("1234567812").unwrap();
    assert_eq!(code, code2);

    let code = QuarterCode::from_int(6441427823).unwrap();
    assert_eq!(
        code.patch(),
        LngLatBox::new(
            // 30 * 141 + 30 * (2 + (8 + 0.5) / 10) / 8,
            // 20 * 64 + 20 * (4 + (7 + 0.25) / 10) / 8
            LngLat::new_raw(
                30 * U * 141 + 30 * U * 285 / 800,
                20 * U * 64 + 20 * U * 4725 / 8000,
            ),
            // 30 * 141 + 30 * (2 + (8 + 0.5 + 0.25) / 10) / 8,
            // 20 * 64 + 20 * (4 + (7 + 0.5) / 10) / 8
            LngLat::new_raw(
                30 * U * 141 + 30 * U * 2875 / 8000,
                20 * U * 64 + 20 * U * 475 / 800,
            ),
        )
    );

    // (141.8686782, 43.2405564)
    let code = QuarterCode::from_lnglat(LngLat::new(141_868_678_200, 43_240_556_400)).unwrap();
    assert_eq!(code.to_string(), "6441668934");
}

#[test]
fn test_eighth_code() {
    assert!(matches!(
        LevelAndCode::from_int(12345678123),
        Ok(LevelAndCode::Eighth(_))
    ));
    assert!(matches!(
        LevelAndCode::from_str("12345678123"),
        Ok(LevelAndCode::Eighth(_))
    ));

    let code = EighthCode::from_int(12345678123).unwrap();
    assert_eq!(code.y1(), 12);
    assert_eq!(code.x1(), 34);
    assert_eq!(code.y2(), 5);
    assert_eq!(code.x2(), 6);
    assert_eq!(code.y3(), 7);
    assert_eq!(code.x3(), 8);
    assert_eq!(code.quad1(), 1);
    assert_eq!(code.quad2(), 2);
    assert_eq!(code.quad3(), 3);
    assert_eq!(code.to_string(), "12345678123");

    let code2 = EighthCode::from_str("12345678123").unwrap();
    assert_eq!(code, code2);

    let code = EighthCode::from_int(64414278234).unwrap();
    assert_eq!(
        code.patch(),
        LngLatBox::new(
            // 30 * 141 + 30 * (2 + (8 + 0.5 + 0.125) / 10) / 8,
            // 20 * 64 + 20 * (4 + (7 + 0.25 + 0.125) / 10) / 8
            LngLat::new_raw(
                30 * U * 141 + 30 * U * 28625 / 80000,
                20 * U * 64 + 20 * U * 47375 / 80000,
            ),
            // 30 * 141 + 30 * (2 + (8 + 0.5 + 0.25) / 10) / 8,
            // 20 * 64 + 20 * (4 + (7 + 0.5) / 10) / 8
            LngLat::new_raw(
                30 * U * 141 + 30 * U * 2875 / 8000,
                20 * U * 64 + 20 * U * 475 / 800,
            ),
        )
    );

    // (141.8686372, 43.2404931)
    let code = EighthCode::from_lnglat(LngLat::new(141_868_637_200, 43_240_493_100)).unwrap();
    assert_eq!(code.to_string(), "64416689342");
}
