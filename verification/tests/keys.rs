use grib_viewer::error::GribViewerError;
use grib_viewer::grib_helpers::{
    fixed_surfaces_from_key, grib_parameter_from_key, parameter_key, surface_key, FixedSurface,
};
use grib_viewer::text::{parse_int_in, IntErrorKind};

fn invalid_key_message(e: GribViewerError) -> String {
    match e {
        GribViewerError::InvalidKey(m) => m,
        other => panic!("expected InvalidKey, got {:?}", other),
    }
}

#[test]
fn parameter_key_reads_three_numbers() {
    assert_eq!(grib_parameter_from_key("grib2_0_2_2").unwrap(), (0, 2, 2));
    assert_eq!(grib_parameter_from_key("grib2_10_191_255").unwrap(), (10, 191, 255));
    assert_eq!(grib_parameter_from_key("grib2_+1_007_3").unwrap(), (1, 7, 3));
}

#[test]
fn parameter_key_wrong_format() {
    let expected = "invalid key format, expected 'grib2_<discipline>_<category>_<parameter>'";
    for key in ["", "grib2_0_2", "grib2_0_2_2_1", "grib1_0_2_2", "GRIB2_0_2_2", "grib2"] {
        let e = grib_parameter_from_key(key).unwrap_err();
        assert_eq!(invalid_key_message(e), expected, "key {:?}", key);
    }
}

#[test]
fn parameter_key_bad_numbers() {
    let e = grib_parameter_from_key("grib2_256_2_2").unwrap_err();
    assert_eq!(
        invalid_key_message(e),
        "Failed to parse discipline: number too large to fit in target type"
    );
    let e = grib_parameter_from_key("grib2_0__2").unwrap_err();
    assert_eq!(
        invalid_key_message(e),
        "Failed to parse category: cannot parse integer from empty string"
    );
    let e = grib_parameter_from_key("grib2_0_1_-2").unwrap_err();
    assert_eq!(
        invalid_key_message(e),
        "Failed to parse parameter: invalid digit found in string"
    );
}

#[test]
fn parameter_key_error_texts_match_std() {
    for (text, part) in [("300", "discipline"), ("x", "discipline"), ("", "discipline")] {
        let key = format!("grib2_{}_1_1", text);
        let std_err = text.parse::<u8>().unwrap_err();
        let e = grib_parameter_from_key(&key).unwrap_err();
        assert_eq!(
            invalid_key_message(e),
            format!("Failed to parse {}: {}", part, std_err)
        );
    }
}

#[test]
fn parameter_key_roundtrip_examples() {
    for (d, c, p) in [(0u8, 0u8, 0u8), (0, 2, 2), (255, 255, 255), (10, 0, 191)] {
        let key = parameter_key(d, c, p);
        assert_eq!(key, format!("grib2_{}_{}_{}", d, c, p));
        assert_eq!(grib_parameter_from_key(&key).unwrap(), (d, c, p));
    }
}

#[test]
fn surface_key_reads_two_surfaces() {
    let (s1, s2) = fixed_surfaces_from_key("surface_103_0_10_255_-1_-2147483648").unwrap();
    assert_eq!(
        s1,
        FixedSurface {
            surface_type: 103,
            scale_factor: 0,
            scaled_value: 10
        }
    );
    assert_eq!(
        s2,
        FixedSurface {
            surface_type: 255,
            scale_factor: -1,
            scaled_value: -2147483648
        }
    );
}

#[test]
fn surface_key_errors() {
    let e = fixed_surfaces_from_key("surface_1_2_3_4_5").unwrap_err();
    assert_eq!(
        invalid_key_message(e),
        "invalid key format, expected 'surface_<t1>_<f1>_<v1>_<t2>_<f2>_<v2>'"
    );
    let e = fixed_surfaces_from_key("surface_1_128_3_4_5_6").unwrap_err();
    assert_eq!(
        invalid_key_message(e),
        "Failed to parse scale_factor: number too large to fit in target type"
    );
    let e = fixed_surfaces_from_key("surface_1_0_3_4_-129_6").unwrap_err();
    assert_eq!(
        invalid_key_message(e),
        "Failed to parse scale_factor: number too small to fit in target type"
    );
    let e = fixed_surfaces_from_key("surface_1_0_3_x_0_6").unwrap_err();
    assert_eq!(
        invalid_key_message(e),
        "Failed to parse surface_type: invalid digit found in string"
    );
    let e = fixed_surfaces_from_key("surface_1_0_3_4_0_2147483648").unwrap_err();
    assert_eq!(
        invalid_key_message(e),
        "Failed to parse scaled_value: number too large to fit in target type"
    );
}

#[test]
fn surface_key_roundtrip_examples() {
    let cases = [
        (
            FixedSurface { surface_type: 1, scale_factor: 0, scaled_value: 0 },
            FixedSurface { surface_type: 255, scale_factor: -128, scaled_value: -2147483648 },
        ),
        (
            FixedSurface { surface_type: 103, scale_factor: 127, scaled_value: 2147483647 },
            FixedSurface { surface_type: 0, scale_factor: -5, scaled_value: 42 },
        ),
    ];
    for (s1, s2) in cases {
        let key = surface_key(&s1, &s2);
        assert_eq!(
            key,
            format!(
                "surface_{}_{}_{}_{}_{}_{}",
                s1.surface_type,
                s1.scale_factor,
                s1.scaled_value,
                s2.surface_type,
                s2.scale_factor,
                s2.scaled_value
            )
        );
        assert_eq!(fixed_surfaces_from_key(&key).unwrap(), (s1, s2));
    }
}

fn std_kind(e: &std::num::ParseIntError) -> IntErrorKind {
    match e.kind() {
        std::num::IntErrorKind::Empty => IntErrorKind::Empty,
        std::num::IntErrorKind::InvalidDigit => IntErrorKind::InvalidDigit,
        std::num::IntErrorKind::PosOverflow => IntErrorKind::PosOverflow,
        std::num::IntErrorKind::NegOverflow => IntErrorKind::NegOverflow,
        _ => panic!("unexpected kind"),
    }
}

#[test]
fn integer_parsing_agrees_with_std() {
    let inputs = [
        "", "+", "-", "0", "00", "+0", "-0", "1", "+1", "-1", "127", "128", "-128", "-129", "255",
        "256", "999x", "x999", "1x", "12a", "2147483647", "2147483648", "-2147483648",
        "-2147483649", "99999999999", "--1", "+-1", " 1", "1 ", "٣",
    ];
    for s in inputs {
        let chars: Vec<char> = s.chars().collect();
        let ours = parse_int_in(&chars, 0, 255);
        match s.parse::<u8>() {
            Ok(v) => assert_eq!(ours, Ok(v as i64), "u8 {:?}", s),
            Err(e) => assert_eq!(ours, Err(std_kind(&e)), "u8 {:?}", s),
        }
        let ours = parse_int_in(&chars, -128, 127);
        match s.parse::<i8>() {
            Ok(v) => assert_eq!(ours, Ok(v as i64), "i8 {:?}", s),
            Err(e) => assert_eq!(ours, Err(std_kind(&e)), "i8 {:?}", s),
        }
        let ours = parse_int_in(&chars, -2147483648, 2147483647);
        match s.parse::<i32>() {
            Ok(v) => assert_eq!(ours, Ok(v as i64), "i32 {:?}", s),
            Err(e) => assert_eq!(ours, Err(std_kind(&e)), "i32 {:?}", s),
        }
    }
}

#[test]
fn int_error_texts_match_std() {
    let cases = [
        ("", IntErrorKind::Empty),
        ("x", IntErrorKind::InvalidDigit),
        ("300", IntErrorKind::PosOverflow),
    ];
    for (s, kind) in cases {
        assert_eq!(kind.describe(), s.parse::<u8>().unwrap_err().to_string());
    }
    assert_eq!(
        IntErrorKind::NegOverflow.describe(),
        "-300".parse::<i8>().unwrap_err().to_string()
    );
}
