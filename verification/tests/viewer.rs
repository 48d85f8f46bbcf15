use grib::codetables::{CodeTable4_2, CodeTable4_5, Lookup};
use grib::def::grib2;
use grib::encoder;
use grib::encoder::WriteGrib2Message;
use grib_viewer::error::GribViewerError;
use grib_viewer::grib_helpers::{
    fixed_surfaces_from_key, format_surfaces, grib_parameter_from_key, parameter_key, surface_key,
    FixedSurface,
};
use grib_viewer::framing::check_frames;
use grib_viewer::viewer::{message_summaries, GribViewer};

/// One GRIB2 message on a 2 by 2 lat/lon grid, with product definition
/// template 4.0.
fn message(
    discipline: u8,
    category: u8,
    number: u8,
    forecast_hours: u32,
    surface1: (u8, u8, u32),
    surface2: (u8, u8, u32),
    values: &[f64],
) -> Vec<u8> {
    message_with_unit(discipline, category, number, 1, forecast_hours, surface1, surface2, values)
}

/// One GRIB2 message whose forecast time is `value` steps of `unit` (code
/// table 4.4).
fn message_with_unit(
    discipline: u8,
    category: u8,
    number: u8,
    unit: u8,
    value: u32,
    surface1: (u8, u8, u32),
    surface2: (u8, u8, u32),
    values: &[f64],
) -> Vec<u8> {
    let forecast_hours = value;
    let ident = grib2::Section1Payload {
        centre_id: 0,
        subcentre_id: 0,
        master_table_version: 2,
        local_table_version: 0,
        ref_time_significance: 1,
        ref_time: grib2::template::param_set::DateTime {
            year: 2024,
            month: 1,
            day: 1,
            hour: 0,
            minute: 0,
            second: 0,
        },
        prod_status: 0,
        data_type: 1,
        optional: None,
    };
    let grid = encoder::LatLonGrid {
        shape: (2, 2),
        first_point: (50.0, 3.0),
        last_point: (51.0, 4.0),
        i_consecutive: true,
    };
    let missing = grib2::template::param_set::ScaledValue {
        scale_factor: 0xff,
        scaled_value: 0xffffffff,
    };
    let section3 = grib2::Section3Payload {
        grid_def_source: 0,
        num_points: 4,
        num_point_list_octets: 0,
        point_list_interpretation: 0,
        template_num: 0,
        template: grib2::GridDefinitionTemplate::_3_0(grib2::template::Template3_0 {
            earth: grib2::template::param_set::EarthShape {
                shape: 6,
                spherical_earth_radius: missing.clone(),
                major_axis: missing.clone(),
                minor_axis: missing,
            },
            lat_lon: grib2::template::param_set::LatLonGrid::from(&grid),
        }),
    };
    let mut product: Vec<u8> = vec![0, 0, 0, 0, category, number, 2, 0, 0, 0, 0, 0, unit];
    product.extend_from_slice(&forecast_hours.to_be_bytes());
    product.push(surface1.0);
    product.push(surface1.1);
    product.extend_from_slice(&surface1.2.to_be_bytes());
    product.push(surface2.0);
    product.push(surface2.1);
    product.extend_from_slice(&surface2.2.to_be_bytes());
    let encoded = encoder::GpvEncoder::new(
        std::borrow::Cow::Borrowed(values),
        encoder::EncodingMethod::SimplePacking(encoder::SimplePackingStrategy::Decimal(1)),
    );
    let single = encoder::SingleGrib2Message::new(
        discipline,
        &ident,
        None::<&[u8]>,
        &section3,
        product.as_slice(),
        encoded,
    );
    let mut buf = vec![0; single.num_octets()];
    single.write(&mut buf).expect("message written");
    buf
}

const TEN_METRES: (u8, u8, u32) = (103, 0, 10);
const GROUND: (u8, u8, u32) = (1, 0, 0);
const NONE: (u8, u8, u32) = (255, 0, 0);
const START: i64 = 1704067200;

/// u and v wind at 10 m at +0 h and +6 h, u wind at the ground at +3 h, and
/// temperature at the ground at +0 h.
fn sample_file() -> Vec<u8> {
    let mut bytes = Vec::new();
    bytes.extend(message(0, 2, 2, 6, TEN_METRES, NONE, &[1.0, 2.0, 3.0, 4.0]));
    bytes.extend(message(0, 2, 3, 6, TEN_METRES, NONE, &[0.5, 0.5, 0.5, 0.5]));
    bytes.extend(message(0, 2, 2, 0, TEN_METRES, NONE, &[5.0, 6.0, 7.0, 8.0]));
    bytes.extend(message(0, 2, 3, 0, TEN_METRES, NONE, &[1.0, 1.0, 1.0, 1.0]));
    bytes.extend(message(0, 2, 2, 3, GROUND, NONE, &[0.0, 0.0, 0.0, 0.0]));
    bytes.extend(message(0, 0, 0, 0, GROUND, NONE, &[280.0, 281.0, 282.0, 283.0]));
    bytes
}

fn name(discipline: u8, category: u8, number: u8) -> String {
    CodeTable4_2::new(discipline, category)
        .lookup(usize::from(number))
        .to_string()
}

fn ten_metres_key() -> String {
    surface_key(
        &FixedSurface { surface_type: 103, scale_factor: 0, scaled_value: 10 },
        &FixedSurface { surface_type: 255, scale_factor: 0, scaled_value: 0 },
    )
}

#[test]
fn viewer_reads_every_submessage() {
    let viewer = GribViewer::new(sample_file()).expect("file is read");
    let records = viewer.records();
    assert_eq!(records.len(), 6);
    assert_eq!(records[0].index, (0, 0));
    assert_eq!(records[5].index, (5, 0));
    assert_eq!(records[1].discipline, 0);
    assert_eq!(records[1].category, Some(2));
    assert_eq!(records[1].number, Some(3));
    assert_eq!(records[0].forecast_time, Some(START + 6 * 3600));
    assert_eq!(records[2].forecast_time, Some(START));
    assert_eq!(
        records[0].surfaces,
        Some((
            FixedSurface { surface_type: 103, scale_factor: 0, scaled_value: 10 },
            FixedSurface { surface_type: 255, scale_factor: 0, scaled_value: 0 },
        ))
    );
    assert!(viewer.records_consistent());
}

const MALFORMED: &str = "malformed GRIB2 data: a declared length is out of range";

fn expect_malformed(bytes: Vec<u8>) {
    assert!(!check_frames(&bytes));
    match GribViewer::new(bytes) {
        Err(GribViewerError::Other(m)) => assert_eq!(m, MALFORMED),
        Err(e) => panic!("unexpected error {}", e.message()),
        Ok(_) => panic!("expected an error"),
    }
}

#[test]
fn viewer_rejects_truncated_file() {
    // the lengths are sound; the reader finds the data cut short
    let mut bytes = message(0, 2, 2, 6, TEN_METRES, NONE, &[1.0, 2.0, 3.0, 4.0]);
    bytes.truncate(bytes.len() / 2);
    assert!(check_frames(&bytes));
    match GribViewer::new(bytes) {
        Err(e) => {
            assert!(matches!(e, GribViewerError::Grib(_)));
            assert!(e.message().starts_with("Grib error: "));
        }
        Ok(_) => panic!("expected an error"),
    }
}

#[test]
fn viewer_rejects_section_past_its_message() {
    // section 1 declares more bytes than its message has left
    let mut bytes = message(0, 2, 2, 6, TEN_METRES, NONE, &[1.0, 2.0, 3.0, 4.0]);
    let total = bytes.len() as u32;
    bytes[16..20].copy_from_slice(&total.to_be_bytes());
    expect_malformed(bytes);
}

#[test]
fn viewer_rejects_short_total_length() {
    // a total length under the 16 bytes of the indicator section
    let mut bytes = message(0, 2, 2, 6, TEN_METRES, NONE, &[1.0, 2.0, 3.0, 4.0]);
    bytes[8..16].copy_from_slice(&15u64.to_be_bytes());
    expect_malformed(bytes);
}

#[test]
fn viewer_rejects_short_section_header() {
    // section 1 declares a length under its 5-byte header
    let mut bytes = message(0, 2, 2, 6, TEN_METRES, NONE, &[1.0, 2.0, 3.0, 4.0]);
    bytes[16..20].copy_from_slice(&4u32.to_be_bytes());
    expect_malformed(bytes);
}

/// The offset of the section with number `num` in one message.
fn section_offset(bytes: &[u8], num: u8) -> usize {
    let mut p = 16;
    loop {
        let size = u32::from_be_bytes([bytes[p], bytes[p + 1], bytes[p + 2], bytes[p + 3]]) as usize;
        if bytes[p + 4] == num {
            return p;
        }
        p += size;
    }
}

#[test]
fn viewer_rejects_empty_bitmap_section() {
    // section 6 of 5 bytes: no room for its bit-map indicator
    let mut bytes = message(0, 2, 2, 6, TEN_METRES, NONE, &[1.0, 2.0, 3.0, 4.0]);
    let p = section_offset(&bytes, 6);
    let size = u32::from_be_bytes([bytes[p], bytes[p + 1], bytes[p + 2], bytes[p + 3]]);
    assert_eq!(size, 6);
    bytes[p..p + 4].copy_from_slice(&5u32.to_be_bytes());
    expect_malformed(bytes);
}

#[test]
fn viewer_reports_reader_errors() {
    // GRIB edition 1 in a well-framed message: the reader refuses it
    let mut bytes = message(0, 2, 2, 6, TEN_METRES, NONE, &[1.0, 2.0, 3.0, 4.0]);
    bytes[7] = 1;
    assert!(check_frames(&bytes));
    match GribViewer::new(bytes) {
        Err(e) => {
            assert!(matches!(e, GribViewerError::Grib(_)));
            assert!(e.message().starts_with("Grib error: "));
        }
        Ok(_) => panic!("expected an error"),
    }
}

#[test]
fn sample_frames_fit() {
    assert!(check_frames(&sample_file()));
    assert!(check_frames(&Vec::new()));
    // bytes before and between messages are skipped by the reader
    let mut bytes = vec![1, 2, 3];
    bytes.extend(sample_file());
    assert!(check_frames(&bytes));
    assert_eq!(GribViewer::new(bytes).unwrap().records().len(), 6);
}

#[test]
fn forecast_beyond_chrono_range_has_no_time() {
    // 100 000 000 days after 2024: past the last year chrono holds
    let bytes = message_with_unit(0, 2, 2, 2, 100_000_000, TEN_METRES, NONE, &[1.0, 2.0, 3.0, 4.0]);
    let viewer = GribViewer::new(bytes).unwrap();
    assert_eq!(viewer.records()[0].forecast_time, None);
    assert_eq!(viewer.records()[0].category, Some(2));
    // a forecast in days within range
    let bytes = message_with_unit(0, 2, 2, 2, 3, TEN_METRES, NONE, &[1.0, 2.0, 3.0, 4.0]);
    let viewer = GribViewer::new(bytes).unwrap();
    assert_eq!(viewer.records()[0].forecast_time, Some(START + 3 * 86400));
    // a unit without a fixed length (month)
    let bytes = message_with_unit(0, 2, 2, 3, 1, TEN_METRES, NONE, &[1.0, 2.0, 3.0, 4.0]);
    let viewer = GribViewer::new(bytes).unwrap();
    assert_eq!(viewer.records()[0].forecast_time, None);
}

#[test]
fn records_agree_with_reader() {
    let bytes = sample_file();
    let file = grib::from_bytes(bytes.clone()).unwrap();
    let viewer = GribViewer::new(bytes).unwrap();
    let records = viewer.records();
    assert_eq!(records.len(), file.len());
    for (k, (index, m)) in file.iter().enumerate() {
        let r = &records[k];
        assert_eq!(r.index, index);
        assert_eq!(r.discipline, m.indicator().discipline);
        assert_eq!(r.category, m.prod_def().parameter_category());
        assert_eq!(r.number, m.prod_def().parameter_number());
        let t = m.temporal_info().forecast_time_target.map(|t| t.timestamp());
        assert_eq!(r.forecast_time, t);
        let (s1, s2) = m.prod_def().fixed_surfaces().unwrap();
        let (a, b) = r.surfaces.unwrap();
        assert_eq!((a.surface_type, a.scale_factor, a.scaled_value), (s1.surface_type, s1.scale_factor, s1.scaled_value));
        assert_eq!((b.surface_type, b.scale_factor, b.scaled_value), (s2.surface_type, s2.scale_factor, s2.scaled_value));
    }
}

#[test]
fn message_info_and_dump() {
    let bytes = sample_file();
    let file = grib::from_bytes(bytes.clone()).unwrap();
    let viewer = GribViewer::new(bytes).unwrap();
    let surface = ten_metres_key();
    let (_, m) = file.iter().nth(2).unwrap();
    let expected_info = m.describe();
    let mut expected_dump = Vec::new();
    m.dump(&mut expected_dump).unwrap();
    drop(m);
    assert_eq!(viewer.message_info("grib2_0_2_2", &surface, START).unwrap(), expected_info);
    assert_eq!(
        viewer.message_dump("grib2_0_2_2", &surface, START).unwrap(),
        String::from_utf8(expected_dump).unwrap()
    );
    assert!(matches!(
        viewer.message_info("grib2_0_2_2", &surface, START + 1),
        Err(GribViewerError::MessageNotFound(_))
    ));
    assert!(matches!(
        viewer.message_dump("grib2_0_2_2", "surface_1", START),
        Err(GribViewerError::InvalidKey(_))
    ));
}

#[test]
fn summaries_of_the_messages() {
    let viewer = GribViewer::new(sample_file()).unwrap();
    let summaries = message_summaries(viewer.records());
    assert_eq!(summaries.len(), 6);
    assert_eq!(summaries[0].index, (0, 0));
    assert_eq!(summaries[0].name, name(0, 2, 2));
    assert_eq!(summaries[0].category, 2);
    assert_eq!(summaries[0].forecast_time, START + 6 * 3600);
    assert_eq!(summaries[0].forecast_date, "2024-01-01");
    assert_eq!(summaries[0].forecast_clock, "06:00:00");
    assert_eq!(summaries[4].forecast_clock, "03:00:00");
    assert_eq!(summaries[5].name, name(0, 0, 0));
    // a message without a forecast time is left out
    let mut bytes = message_with_unit(0, 2, 2, 3, 1, TEN_METRES, NONE, &[1.0, 2.0, 3.0, 4.0]);
    bytes.extend(message(0, 0, 0, 0, GROUND, NONE, &[280.0, 281.0, 282.0, 283.0]));
    let viewer = GribViewer::new(bytes).unwrap();
    let summaries = message_summaries(viewer.records());
    assert_eq!(summaries.len(), 1);
    assert_eq!(summaries[0].index, (1, 0));
}

#[test]
fn viewer_of_bytes_without_messages() {
    let viewer = GribViewer::new(Vec::new()).expect("no messages is no error");
    assert!(viewer.records().is_empty());
    assert!(viewer.get_available_parameters().is_empty());
}

#[test]
fn available_parameters_once_per_name() {
    let viewer = GribViewer::new(sample_file()).unwrap();
    let entries = viewer.get_available_parameters();
    let mut found: Vec<(String, String)> =
        entries.into_iter().map(|e| (e.name, e.key)).collect();
    found.sort();
    let mut expected = vec![
        (name(0, 2, 2), "grib2_0_2_2".to_string()),
        (name(0, 2, 3), "grib2_0_2_3".to_string()),
        (name(0, 0, 0), "grib2_0_0_0".to_string()),
    ];
    expected.sort();
    assert_eq!(found, expected);
    for (_, key) in found {
        assert!(grib_parameter_from_key(&key).is_ok());
    }
}

#[test]
fn available_surfaces_sorted_by_key() {
    let viewer = GribViewer::new(sample_file()).unwrap();
    let entries = viewer.get_available_surfaces("grib2_0_2_2").unwrap();
    let keys: Vec<String> = entries.iter().map(|e| e.key.clone()).collect();
    assert_eq!(
        keys,
        vec![
            "surface_103_0_10_255_0_0".to_string(),
            "surface_1_0_0_255_0_0".to_string(),
        ]
    );
    let ground = CodeTable4_5.lookup(1).to_string();
    assert_eq!(entries[1].description, format!("{}: 0", ground));
    let (s1, s2) = fixed_surfaces_from_key(&entries[0].key).unwrap();
    assert_eq!(entries[0].description, format_surfaces(&s1, &s2));
    assert!(entries[0].description.ends_with(": 10m"));
}

#[test]
fn available_surfaces_bad_key() {
    let viewer = GribViewer::new(sample_file()).unwrap();
    assert!(matches!(
        viewer.get_available_surfaces("temperature"),
        Err(GribViewerError::InvalidKey(_))
    ));
}

#[test]
fn available_timestamps_sorted_and_unique() {
    let viewer = GribViewer::new(sample_file()).unwrap();
    let times = viewer
        .get_available_timestamps("grib2_0_2_2", &ten_metres_key())
        .unwrap();
    assert_eq!(times, vec![START, START + 6 * 3600]);
    let times = viewer
        .get_available_timestamps("grib2_0_2_2", "surface_1_0_0_255_0_0")
        .unwrap();
    assert_eq!(times, vec![START + 3 * 3600]);
    let times = viewer
        .get_available_timestamps("grib2_0_0_0", &ten_metres_key())
        .unwrap();
    assert!(times.is_empty());
}

#[test]
fn every_listed_time_finds_its_message() {
    let viewer = GribViewer::new(sample_file()).unwrap();
    let surface = ten_metres_key();
    for key in ["grib2_0_2_2", "grib2_0_2_3"] {
        for time in viewer.get_available_timestamps(key, &surface).unwrap() {
            assert!(viewer.message_index(key, &surface, time).is_ok());
        }
    }
}

#[test]
fn message_index_finds_first_match() {
    let viewer = GribViewer::new(sample_file()).unwrap();
    let surface = ten_metres_key();
    assert_eq!(viewer.message_index("grib2_0_2_2", &surface, START).unwrap(), (2, 0));
    assert_eq!(
        viewer.message_index("grib2_0_2_3", &surface, START + 6 * 3600).unwrap(),
        (1, 0)
    );
    match viewer.message_index("grib2_0_2_2", &surface, START + 1) {
        Err(GribViewerError::MessageNotFound(m)) => assert_eq!(
            m,
            format!("No message with: disc: 0, cat: 2, param: 2, time: {}", START + 1)
        ),
        _ => panic!("expected MessageNotFound"),
    }
    assert!(matches!(
        viewer.message_index("grib2_0_2", &surface, START),
        Err(GribViewerError::InvalidKey(_))
    ));
}

#[test]
fn parameter_keys_of_listing_read_back() {
    let viewer = GribViewer::new(sample_file()).unwrap();
    for entry in viewer.get_available_parameters() {
        let (d, c, p) = grib_parameter_from_key(&entry.key).unwrap();
        assert_eq!(parameter_key(d, c, p), entry.key);
        assert_eq!(name(d, c, p), entry.name);
    }
}
