use grib_viewer::catalog::{
    available_timestamps, check_consistent_until_request, check_records_consistent, find_grib_index,
    get_message,
    messages_of_parameter, messages_of_parameter_and_surface, pair_components_by_time,
    MessageRecord,
};
use grib_viewer::error::GribViewerError;
use grib_viewer::grib_helpers::FixedSurface;

const S10: FixedSurface = FixedSurface { surface_type: 103, scale_factor: 0, scaled_value: 10 };
const S2: FixedSurface = FixedSurface { surface_type: 103, scale_factor: 0, scaled_value: 2 };
const MISSING: FixedSurface = FixedSurface { surface_type: 255, scale_factor: 0, scaled_value: 0 };

fn rec(
    index: usize,
    category: Option<u8>,
    number: Option<u8>,
    time: Option<i64>,
    surface: Option<FixedSurface>,
) -> MessageRecord {
    MessageRecord {
        index: (index, 0),
        discipline: 0,
        category,
        number,
        forecast_time: time,
        surfaces: surface.map(|s| (s, MISSING)),
    }
}

fn records() -> Vec<MessageRecord> {
    vec![
        rec(0, Some(2), Some(2), Some(600), Some(S10)),
        rec(1, Some(2), Some(3), Some(600), Some(S10)),
        rec(2, Some(2), Some(2), Some(0), Some(S10)),
        rec(3, None, None, Some(0), Some(S10)),
        rec(4, Some(2), Some(2), None, Some(S10)),
        rec(5, Some(2), Some(2), Some(300), Some(S2)),
        rec(6, Some(2), Some(2), Some(0), None),
        rec(7, Some(2), Some(3), Some(0), Some(S10)),
        rec(8, Some(2), Some(2), Some(600), Some(S10)),
    ]
}

#[test]
fn messages_of_parameter_in_file_order() {
    assert_eq!(messages_of_parameter(&records(), 0, 2, 2), vec![0, 2, 4, 5, 6, 8]);
    assert_eq!(messages_of_parameter(&records(), 0, 2, 3), vec![1, 7]);
    assert_eq!(messages_of_parameter(&records(), 1, 2, 2), Vec::<usize>::new());
}

#[test]
fn messages_of_parameter_and_surface_in_file_order() {
    assert_eq!(
        messages_of_parameter_and_surface(&records(), 0, 2, 2, &S10, &MISSING),
        vec![0, 2, 4, 8]
    );
    assert_eq!(
        messages_of_parameter_and_surface(&records(), 0, 2, 2, &S2, &MISSING),
        vec![5]
    );
}

#[test]
fn get_message_first_match() {
    let r = records();
    assert_eq!(get_message(&r, 0, 2, 2, &S10, &MISSING, 600).unwrap(), (0, 0));
    assert_eq!(get_message(&r, 0, 2, 2, &S10, &MISSING, 0).unwrap(), (2, 0));
    assert_eq!(get_message(&r, 0, 2, 3, &S10, &MISSING, 0).unwrap(), (7, 0));
    match get_message(&r, 0, 2, 2, &S2, &MISSING, 0) {
        Err(GribViewerError::MessageNotFound(m)) => {
            assert_eq!(m, "No message with: disc: 0, cat: 2, param: 2, time: 0")
        }
        _ => panic!("expected MessageNotFound"),
    }
    match get_message(&r, 0, 255, 7, &S2, &MISSING, -9223372036854775808) {
        Err(e) => assert_eq!(
            e.message(),
            "Message not found: No message with: disc: 0, cat: 255, param: 7, time: -9223372036854775808"
        ),
        _ => panic!("expected MessageNotFound"),
    }
}

#[test]
fn find_grib_index_any_surface() {
    let r = records();
    assert_eq!(find_grib_index(&r, 0, 2, 2, 300).unwrap(), (5, 0));
    assert_eq!(find_grib_index(&r, 0, 2, 2, 0).unwrap(), (2, 0));
    assert!(find_grib_index(&r, 0, 2, 2, 1).is_err());
}

#[test]
fn timestamps_sorted_unique() {
    let r = records();
    assert_eq!(available_timestamps(&r, 0, 2, 2, Some((S10, MISSING))), vec![0, 600]);
    assert_eq!(available_timestamps(&r, 0, 2, 2, None), vec![0, 300, 600]);
    assert_eq!(available_timestamps(&r, 0, 2, 3, None), vec![0, 600]);
    assert_eq!(available_timestamps(&r, 0, 0, 0, None), Vec::<i64>::new());
}

#[test]
fn pairs_components_by_time() {
    let r = records();
    let pairs = pair_components_by_time(&r, (0, 2, 2), (0, 2, 3));
    assert_eq!(
        pairs,
        vec![(0, Some(1)), (2, Some(7)), (5, None), (6, Some(7)), (8, Some(1))]
    );
}

#[test]
fn consistency_of_records() {
    assert!(check_records_consistent(&records()));
    let mut r = records();
    r.push(rec(9, Some(1), None, Some(0), None));
    assert!(!check_records_consistent(&r));
}

#[test]
fn lookup_stops_before_inconsistent_records() {
    // a record with a category and no number after the first answer
    let mut r = records();
    r.push(rec(9, Some(1), None, Some(0), None));
    let surfaces = Some((S10, MISSING));
    assert!(check_consistent_until_request(&r, 0, 2, 2, surfaces, 0));
    assert_eq!(get_message(&r, 0, 2, 2, &S10, &MISSING, 0).unwrap(), (2, 0));
    assert!(check_consistent_until_request(&r, 0, 2, 2, None, 600));
    assert_eq!(find_grib_index(&r, 0, 2, 2, 600).unwrap(), (0, 0));
    // no answer: the search reaches the record
    assert!(!check_consistent_until_request(&r, 0, 2, 2, surfaces, 1));
    // the record before the first answer
    let mut r = vec![rec(0, Some(1), None, Some(0), None)];
    r.extend(records());
    assert!(!check_consistent_until_request(&r, 0, 2, 2, surfaces, 0));
}

#[test]
fn error_messages() {
    assert_eq!(
        GribViewerError::InvalidKey("x".to_string()).message(),
        "Invalid key: x"
    );
    assert_eq!(GribViewerError::Other("plain".to_string()).message(), "plain");
    assert_eq!(
        GribViewerError::MessageNotFound("y".to_string()).message(),
        "Message not found: y"
    );
}
