use chrono::{TimeDelta, TimeZone, Utc};
use grib_viewer::calendar::{check_forecast_overflows, check_timestamp_in_range, utc_time_text};
use grib_viewer::grib_source::utc_date_text;

/// Whether chrono finds the reference time valid and then overflows adding
/// the forecast seconds.
fn chrono_overflows(reference: (u16, u8, u8, u8, u8, u8), seconds: i64) -> bool {
    let (y, mo, d, h, mi, s) = reference;
    match Utc
        .with_ymd_and_hms(y.into(), mo.into(), d.into(), h.into(), mi.into(), s.into())
        .single()
    {
        None => false,
        Some(start) => start
            .checked_add_signed(TimeDelta::try_seconds(seconds).unwrap())
            .is_none(),
    }
}

const UNITS: [(u8, i64); 7] = [
    (13, 1),
    (0, 60),
    (1, 3600),
    (10, 10800),
    (11, 21600),
    (12, 43200),
    (2, 86400),
];

#[test]
fn forecast_overflow_agrees_with_chrono() {
    let references = [
        (1970, 1, 1, 0, 0, 0),
        (2024, 1, 1, 0, 0, 0),
        (2024, 2, 29, 12, 30, 59),
        (2023, 2, 28, 23, 59, 59),
        (2000, 2, 29, 6, 0, 0),
        (0, 1, 1, 0, 0, 0),
        (0, 2, 29, 0, 0, 0),
        (9999, 12, 31, 23, 59, 59),
        (65535, 12, 31, 23, 59, 59),
        (2023, 2, 29, 0, 0, 0),
        (2024, 13, 1, 0, 0, 0),
        (2024, 1, 1, 0, 0, 60),
    ];
    let values = [0u32, 1, 6, 48, 1000, 123_456, 70_000_000, 100_000_000, 4_294_967_295];
    for reference in references {
        for (unit, step) in UNITS {
            for value in values {
                let expected = chrono_overflows(reference, value as i64 * step);
                let got = check_forecast_overflows(reference, Some((unit, value)));
                assert_eq!(got, expected, "{:?} {} {}", reference, unit, value);
            }
        }
        // no forecast time, or a unit without a fixed length: nothing is added
        assert!(!check_forecast_overflows(reference, None));
        assert!(!check_forecast_overflows(reference, Some((3, 4_294_967_295))));
    }
    assert!(!check_forecast_overflows((2024, 1, 1, 0, 0, 0), Some((13, 0))));
    assert!(check_forecast_overflows((2024, 1, 1, 0, 0, 0), Some((2, 100_000_000))));
}

#[test]
fn time_of_day_text_agrees_with_chrono() {
    for t in [
        0i64,
        1,
        59,
        3599,
        86399,
        86400,
        1704067200 + 6 * 3600 + 7 * 60 + 8,
        -1,
        -86401,
        -62167219200,
        8210266876799,
    ] {
        let expected = chrono::DateTime::from_timestamp(t, 0).unwrap().time().to_string();
        let got: String = utc_time_text(t).into_iter().collect();
        assert_eq!(got, expected, "{}", t);
    }
}

#[test]
fn date_text_and_range() {
    assert!(check_timestamp_in_range(0));
    assert!(check_timestamp_in_range(-62167219200));
    assert!(!check_timestamp_in_range(-62167219201));
    assert!(check_timestamp_in_range(8210266876799));
    assert!(!check_timestamp_in_range(8210266876800));
    assert!(chrono::DateTime::from_timestamp(8210266876799, 0).is_some());
    assert!(chrono::DateTime::from_timestamp(8210266876800, 0).is_none());
    assert_eq!(utc_date_text(1704067200).unwrap(), "2024-01-01");
    assert_eq!(utc_date_text(-62167219200).unwrap(), "0000-01-01");
    assert_eq!(utc_date_text(8210266876799).unwrap(), "+262142-12-31");
}
