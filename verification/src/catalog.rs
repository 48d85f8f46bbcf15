//! What the viewer knows of each submessage of a GRIB2 file, and the choice
//! of submessages for a request: by parameter, by fixed surfaces and by
//! forecast time.
use crate::error::GribViewerError;
use crate::grib_helpers::FixedSurface;
use crate::text::{push_signed_decimal, push_str_chars, signed_decimal, string_from_chars};
use vstd::prelude::*;

verus! {

/// The index of a submessage in a GRIB2 file: the message and the
/// submessage within it.
pub type MessageIndex = (usize, usize);

/// What the viewer reads from one submessage. A field is `None` where the
/// submessage does not carry it in a form the reader supports.
#[derive(Debug, Clone, Copy)]
pub struct MessageRecord {
    pub index: MessageIndex,
    /// Discipline (code table 0.0).
    pub discipline: u8,
    /// Parameter category (code table 4.1).
    pub category: Option<u8>,
    /// Parameter number (code table 4.2).
    pub number: Option<u8>,
    /// Forecast target time, in seconds since the Unix epoch.
    pub forecast_time: Option<i64>,
    /// The first and second fixed surfaces.
    pub surfaces: Option<(FixedSurface, FixedSurface)>,
}

/// The submessage is of the parameter (discipline, category, number).
pub open spec fn has_parameter(r: MessageRecord, discipline: u8, category: u8, parameter: u8) -> bool {
    r.discipline == discipline && r.category == Some(category) && r.number == Some(parameter)
}

/// The submessage is of the parameter and lies on the given fixed surfaces.
pub open spec fn has_parameter_and_surface(
    r: MessageRecord,
    discipline: u8,
    category: u8,
    parameter: u8,
    surface1: FixedSurface,
    surface2: FixedSurface,
) -> bool {
    has_parameter(r, discipline, category, parameter) && r.surfaces == Some((surface1, surface2))
}

/// A submessage that states a category states a parameter number too.
pub open spec fn record_consistent(r: MessageRecord) -> bool {
    r.category is Some ==> r.number is Some
}

pub open spec fn records_consistent(records: Seq<MessageRecord>) -> bool {
    forall|k: int| 0 <= k < records.len() ==> record_consistent(#[trigger] records[k])
}

/// Whether every record that states a category states a parameter number.
pub fn check_records_consistent(records: &Vec<MessageRecord>) -> (r: bool)
    ensures
        r == records_consistent(records@),
{
    let mut k: usize = 0;
    while k < records.len()
        invariant
            k <= records@.len(),
            forall|j: int| 0 <= j < k ==> record_consistent(#[trigger] records@[j]),
        decreases records.len() - k,
    {
        if records[k].category.is_some() && records[k].number.is_none() {
            assert(!record_consistent(records@[k as int]));
            return false;
        }
        k = k + 1;
    }
    true
}

fn matches_parameter(r: &MessageRecord, discipline: u8, category: u8, parameter: u8) -> (b: bool)
    ensures
        b == has_parameter(*r, discipline, category, parameter),
{
    r.discipline == discipline && match (r.category, r.number) {
        (Some(c), Some(p)) => c == category && p == parameter,
        _ => false,
    }
}

fn same_surfaces(
    found: Option<(FixedSurface, FixedSurface)>,
    surface1: &FixedSurface,
    surface2: &FixedSurface,
) -> (b: bool)
    ensures
        b == (found == Some((*surface1, *surface2))),
{
    match found {
        Some((s1, s2)) => s1 == *surface1 && s2 == *surface2,
        None => false,
    }
}

/// The positions, in file order, of the records for which `pred` holds: a
/// strictly increasing list that holds every such position.
pub open spec fn positions_of(
    records: Seq<MessageRecord>,
    positions: Seq<usize>,
    pred: spec_fn(MessageRecord) -> bool,
) -> bool {
    &&& forall|i: int, j: int| 0 <= i < j < positions.len() ==> positions[i] < positions[j]
    &&& forall|i: int|
        0 <= i < positions.len() ==> #[trigger] positions[i] < records.len() && pred(
            records[positions[i] as int],
        )
    &&& forall|k: int| 0 <= k < records.len() && pred(#[trigger] records[k]) ==> positions.contains(
        k as usize,
    )
}

/// The positions of the records of the parameter (discipline, category,
/// number), in file order.
pub fn messages_of_parameter(records: &Vec<MessageRecord>, discipline: u8, category: u8, parameter: u8) -> (r: Vec<usize>)
    ensures
        positions_of(records@, r@, |m: MessageRecord| has_parameter(m, discipline, category, parameter)),
{
    let ghost pred = |m: MessageRecord| has_parameter(m, discipline, category, parameter);
    let mut out: Vec<usize> = Vec::new();
    let mut k: usize = 0;
    while k < records.len()
        invariant
            k <= records@.len(),
            pred == (|m: MessageRecord| has_parameter(m, discipline, category, parameter)),
            forall|i: int, j: int| 0 <= i < j < out@.len() ==> out@[i] < out@[j],
            forall|i: int| 0 <= i < out@.len() ==> #[trigger] out@[i] < k && pred(records@[out@[i] as int]),
            forall|j: int| 0 <= j < k && pred(#[trigger] records@[j]) ==> out@.contains(j as usize),
        decreases records.len() - k,
    {
        let ghost old_out = out@;
        if matches_parameter(&records[k], discipline, category, parameter) {
            out.push(k);
            assert(out@[out@.len() - 1] == k);
        }
        proof {
            assert forall|j: int| 0 <= j < k + 1 && pred(#[trigger] records@[j]) implies out@.contains(
                j as usize,
            ) by {
                if j == k {
                    assert(out@[out@.len() - 1] == k);
                } else {
                    assert(old_out.contains(j as usize));
                    let w = choose|w: int| 0 <= w < old_out.len() && old_out[w] == j as usize;
                    assert(out@[w] == old_out[w]);
                }
            }
        }
        k = k + 1;
    }
    out
}

/// The positions of the records of the parameter that lie on the given
/// fixed surfaces, in file order.
pub fn messages_of_parameter_and_surface(
    records: &Vec<MessageRecord>,
    discipline: u8,
    category: u8,
    parameter: u8,
    surface1: &FixedSurface,
    surface2: &FixedSurface,
) -> (r: Vec<usize>)
    ensures
        positions_of(
            records@,
            r@,
            |m: MessageRecord|
                has_parameter_and_surface(m, discipline, category, parameter, *surface1, *surface2),
        ),
{
    let ghost pred = |m: MessageRecord|
        has_parameter_and_surface(m, discipline, category, parameter, *surface1, *surface2);
    let mut out: Vec<usize> = Vec::new();
    let mut k: usize = 0;
    while k < records.len()
        invariant
            k <= records@.len(),
            pred == (|m: MessageRecord|
                has_parameter_and_surface(m, discipline, category, parameter, *surface1, *surface2)),
            forall|i: int, j: int| 0 <= i < j < out@.len() ==> out@[i] < out@[j],
            forall|i: int| 0 <= i < out@.len() ==> #[trigger] out@[i] < k && pred(records@[out@[i] as int]),
            forall|j: int| 0 <= j < k && pred(#[trigger] records@[j]) ==> out@.contains(j as usize),
        decreases records.len() - k,
    {
        let ghost old_out = out@;
        if matches_parameter(&records[k], discipline, category, parameter) && same_surfaces(
            records[k].surfaces,
            surface1,
            surface2,
        ) {
            out.push(k);
            assert(out@[out@.len() - 1] == k);
        }
        proof {
            assert forall|j: int| 0 <= j < k + 1 && pred(#[trigger] records@[j]) implies out@.contains(
                j as usize,
            ) by {
                if j == k {
                    assert(out@[out@.len() - 1] == k);
                } else {
                    assert(old_out.contains(j as usize));
                    let w = choose|w: int| 0 <= w < old_out.len() && old_out[w] == j as usize;
                    assert(out@[w] == old_out[w]);
                }
            }
        }
        k = k + 1;
    }
    out
}

// ---------------------------------------------------------------------------
// One message for a request
// ---------------------------------------------------------------------------

/// The record answers the request for a parameter on fixed surfaces
/// (`Some`) or on any surface (`None`) at a forecast time.
pub open spec fn is_requested(
    r: MessageRecord,
    discipline: u8,
    category: u8,
    parameter: u8,
    surfaces: Option<(FixedSurface, FixedSurface)>,
    time: i64,
) -> bool {
    &&& has_parameter(r, discipline, category, parameter)
    &&& r.forecast_time == Some(time)
    &&& match surfaces {
        Some(s) => r.surfaces == Some(s),
        None => true,
    }
}

/// The text of the error when no message answers a request.
pub open spec fn not_found_text(discipline: u8, category: u8, parameter: u8, time: i64) -> Seq<char> {
    "No message with: disc: "@ + signed_decimal(discipline as int) + ", cat: "@ + signed_decimal(
        category as int,
    ) + ", param: "@ + signed_decimal(parameter as int) + ", time: "@ + signed_decimal(time as int)
}

/// The first record that answers the request: its position, and that no
/// earlier record answers it.
pub open spec fn is_first_requested(
    records: Seq<MessageRecord>,
    k: int,
    discipline: u8,
    category: u8,
    parameter: u8,
    surfaces: Option<(FixedSurface, FixedSurface)>,
    time: i64,
) -> bool {
    &&& 0 <= k < records.len()
    &&& is_requested(records[k], discipline, category, parameter, surfaces, time)
    &&& forall|j: int|
        0 <= j < k ==> !is_requested(#[trigger] records[j], discipline, category, parameter, surfaces, time)
}

/// The error is `MessageNotFound` with the text for the request.
pub open spec fn is_not_found_error(e: GribViewerError, discipline: u8, category: u8, parameter: u8, time: i64) -> bool {
    e matches GribViewerError::MessageNotFound(m) && m@ == not_found_text(discipline, category, parameter, time)
}

fn not_found_error(discipline: u8, category: u8, parameter: u8, time: i64) -> (e: GribViewerError)
    ensures
        e matches GribViewerError::MessageNotFound(m) && m@ == not_found_text(
            discipline,
            category,
            parameter,
            time,
        ),
{
    let mut out: Vec<char> = Vec::new();
    push_str_chars(&mut out, "No message with: disc: ");
    push_signed_decimal(&mut out, discipline as i64);
    push_str_chars(&mut out, ", cat: ");
    push_signed_decimal(&mut out, category as i64);
    push_str_chars(&mut out, ", param: ");
    push_signed_decimal(&mut out, parameter as i64);
    push_str_chars(&mut out, ", time: ");
    push_signed_decimal(&mut out, time);
    GribViewerError::MessageNotFound(string_from_chars(&out))
}

/// Every record that states a category but no parameter number comes after
/// a record that answers the request: a search for the first answer in file
/// order reaches no such record (the reader promises that none exists).
pub open spec fn consistent_until_request(
    records: Seq<MessageRecord>,
    discipline: u8,
    category: u8,
    parameter: u8,
    surfaces: Option<(FixedSurface, FixedSurface)>,
    time: i64,
) -> bool {
    forall|j: int|
        0 <= j < records.len() && !record_consistent(#[trigger] records[j]) ==> exists|i: int|
            0 <= i < j && is_requested(records[i], discipline, category, parameter, surfaces, time)
}

/// Whether a search for the first record that answers the request reaches
/// no record that states a category but no parameter number.
pub fn check_consistent_until_request(
    records: &Vec<MessageRecord>,
    discipline: u8,
    category: u8,
    parameter: u8,
    surfaces: Option<(FixedSurface, FixedSurface)>,
    time: i64,
) -> (r: bool)
    ensures
        r == consistent_until_request(records@, discipline, category, parameter, surfaces, time),
{
    let mut k: usize = 0;
    while k < records.len()
        invariant
            k <= records@.len(),
            forall|j: int| 0 <= j < k ==> record_consistent(#[trigger] records@[j]),
            forall|j: int|
                0 <= j < k ==> !is_requested(
                    #[trigger] records@[j],
                    discipline,
                    category,
                    parameter,
                    surfaces,
                    time,
                ),
        decreases records.len() - k,
    {
        let rec = records[k];
        if rec.category.is_some() && rec.number.is_none() {
            assert(!record_consistent(records@[k as int]));
            return false;
        }
        let surfaces_match = match surfaces {
            Some((s1, s2)) => same_surfaces(rec.surfaces, &s1, &s2),
            None => true,
        };
        let time_match = match rec.forecast_time {
            Some(t) => t == time,
            None => false,
        };
        if matches_parameter(&rec, discipline, category, parameter) && time_match && surfaces_match {
            assert(is_requested(records@[k as int], discipline, category, parameter, surfaces, time));
            return true;
        }
        k = k + 1;
    }
    true
}

/// Finds the first record of the parameter, on the given fixed surfaces
/// (`Some`) or on any surface (`None`), whose forecast time is `time`.
/// Records that lack a category, a forecast time or (when surfaces are asked
/// for) fixed surfaces are passed over.
pub fn find_message(
    records: &Vec<MessageRecord>,
    discipline: u8,
    category: u8,
    parameter: u8,
    surfaces: Option<(FixedSurface, FixedSurface)>,
    time: i64,
) -> (r: Result<usize, GribViewerError>)
    requires
        consistent_until_request(records@, discipline, category, parameter, surfaces, time),
    ensures
        match r {
            Ok(k) => is_first_requested(records@, k as int, discipline, category, parameter, surfaces, time),
            Err(e) => (forall|j: int|
                0 <= j < records@.len() ==> !is_requested(
                    #[trigger] records@[j],
                    discipline,
                    category,
                    parameter,
                    surfaces,
                    time,
                )) && is_not_found_error(e, discipline, category, parameter, time),
        },
{
    let mut k: usize = 0;
    while k < records.len()
        invariant
            k <= records@.len(),
            forall|j: int|
                0 <= j < k ==> !is_requested(
                    #[trigger] records@[j],
                    discipline,
                    category,
                    parameter,
                    surfaces,
                    time,
                ),
        decreases records.len() - k,
    {
        let rec = records[k];
        let surfaces_match = match surfaces {
            Some((s1, s2)) => same_surfaces(rec.surfaces, &s1, &s2),
            None => true,
        };
        let time_match = match rec.forecast_time {
            Some(t) => t == time,
            None => false,
        };
        if matches_parameter(&rec, discipline, category, parameter) && time_match && surfaces_match {
            return Ok(k);
        }
        k = k + 1;
    }
    Err(not_found_error(discipline, category, parameter, time))
}

/// The submessage for a parameter on two fixed surfaces at a forecast time:
/// the index of the first record that answers the request, or
/// `MessageNotFound` when none does.
pub fn get_message(
    records: &Vec<MessageRecord>,
    discipline: u8,
    category: u8,
    parameter: u8,
    surface1: &FixedSurface,
    surface2: &FixedSurface,
    time: i64,
) -> (r: Result<MessageIndex, GribViewerError>)
    requires
        consistent_until_request(records@, discipline, category, parameter, Some((*surface1, *surface2)), time),
    ensures
        match r {
            Ok(index) => exists|k: int|
                is_first_requested(
                    records@,
                    k,
                    discipline,
                    category,
                    parameter,
                    Some((*surface1, *surface2)),
                    time,
                ) && #[trigger] records@[k].index == index,
            Err(e) => (forall|j: int|
                0 <= j < records@.len() ==> !is_requested(
                    #[trigger] records@[j],
                    discipline,
                    category,
                    parameter,
                    Some((*surface1, *surface2)),
                    time,
                )) && is_not_found_error(e, discipline, category, parameter, time),
        },
{
    match find_message(records, discipline, category, parameter, Some((*surface1, *surface2)), time) {
        Ok(k) => Ok(records[k].index),
        Err(e) => Err(e),
    }
}

/// The submessage for a parameter at a forecast time, whatever its
/// surfaces: the index of the first record that answers the request, or
/// `MessageNotFound` when none does.
pub fn find_grib_index(
    records: &Vec<MessageRecord>,
    discipline: u8,
    category: u8,
    parameter: u8,
    time: i64,
) -> (r: Result<MessageIndex, GribViewerError>)
    requires
        consistent_until_request(records@, discipline, category, parameter, None, time),
    ensures
        match r {
            Ok(index) => exists|k: int|
                is_first_requested(records@, k, discipline, category, parameter, None, time)
                    && #[trigger] records@[k].index == index,
            Err(e) => (forall|j: int|
                0 <= j < records@.len() ==> !is_requested(
                    #[trigger] records@[j],
                    discipline,
                    category,
                    parameter,
                    None,
                    time,
                )) && is_not_found_error(e, discipline, category, parameter, time),
        },
{
    match find_message(records, discipline, category, parameter, None, time) {
        Ok(k) => Ok(records[k].index),
        Err(e) => Err(e),
    }
}

// ---------------------------------------------------------------------------
// Forecast times
// ---------------------------------------------------------------------------

/// A strictly increasing list of times.
pub open spec fn strictly_increasing(s: Seq<i64>) -> bool {
    forall|i: int, j: int| 0 <= i < j < s.len() ==> s[i] < s[j]
}

/// The record is of the parameter, on the given surfaces (`Some`) or any
/// surface (`None`).
pub open spec fn is_selected(
    r: MessageRecord,
    discipline: u8,
    category: u8,
    parameter: u8,
    surfaces: Option<(FixedSurface, FixedSurface)>,
) -> bool {
    &&& has_parameter(r, discipline, category, parameter)
    &&& match surfaces {
        Some(s) => r.surfaces == Some(s),
        None => true,
    }
}

/// `t` is the forecast time of a selected record.
pub open spec fn is_time_of_selected(
    records: Seq<MessageRecord>,
    t: i64,
    discipline: u8,
    category: u8,
    parameter: u8,
    surfaces: Option<(FixedSurface, FixedSurface)>,
) -> bool {
    exists|k: int|
        0 <= k < records.len() && is_selected(#[trigger] records[k], discipline, category, parameter, surfaces)
            && records[k].forecast_time == Some(t)
}

/// Inserts `t` into the strictly increasing `times` unless it is there.
/// The times are kept in a sorted `Vec` rather than a `HashSet` that is
/// sorted at the end: they must come out in increasing order, vstd states no
/// sort of a `Vec`, and insertion in order keeps them unique and sorted at
/// once, both proved.
fn insert_time(times: &mut Vec<i64>, t: i64)
    requires
        strictly_increasing(old(times)@),
    ensures
        strictly_increasing(final(times)@),
        forall|x: i64| final(times)@.contains(x) <==> (old(times)@.contains(x) || x == t),
{
    let mut p: usize = 0;
    while p < times.len() && times[p] < t
        invariant
            p <= times@.len(),
            forall|i: int| 0 <= i < p ==> times@[i] < t,
        decreases times.len() - p,
    {
        p = p + 1;
    }
    if p < times.len() && times[p] == t {
        return;
    }
    let ghost before = times@;
    times.insert(p, t);
    assert(times@ =~= before.take(p as int).push(t) + before.skip(p as int));
    assert forall|x: i64| times@.contains(x) <==> (before.contains(x) || x == t) by {
        if before.contains(x) {
            let i = choose|i: int| 0 <= i < before.len() && before[i] == x;
            if i < p {
                assert(times@[i] == x);
            } else {
                assert(times@[i + 1] == x);
            }
        }
        if x == t {
            assert(times@[p as int] == t);
        }
        if times@.contains(x) {
            let i = choose|i: int| 0 <= i < times@.len() && times@[i] == x;
            if i < p {
                assert(before[i] == x);
            } else if i > p {
                assert(before[i - 1] == x);
            }
        }
    }
}

/// The forecast times of the records of the parameter, on the given
/// surfaces (`Some`) or on any surface (`None`): each time once, in
/// increasing order. Records without a forecast time are passed over.
pub fn available_timestamps(
    records: &Vec<MessageRecord>,
    discipline: u8,
    category: u8,
    parameter: u8,
    surfaces: Option<(FixedSurface, FixedSurface)>,
) -> (r: Vec<i64>)
    ensures
        strictly_increasing(r@),
        forall|t: i64|
            r@.contains(t) <==> is_time_of_selected(
                records@,
                t,
                discipline,
                category,
                parameter,
                surfaces,
            ),
{
    let mut times: Vec<i64> = Vec::new();
    let mut k: usize = 0;
    while k < records.len()
        invariant
            k <= records@.len(),
            strictly_increasing(times@),
            forall|t: i64|
                times@.contains(t) <==> is_time_of_selected(
                    records@.take(k as int),
                    t,
                    discipline,
                    category,
                    parameter,
                    surfaces,
                ),
        decreases records.len() - k,
    {
        let rec = records[k];
        let surfaces_match = match surfaces {
            Some((s1, s2)) => same_surfaces(rec.surfaces, &s1, &s2),
            None => true,
        };
        let ghost before = times@;
        if matches_parameter(&rec, discipline, category, parameter) && surfaces_match {
            match rec.forecast_time {
                Some(t) => insert_time(&mut times, t),
                None => {},
            }
        }
        proof {
            let prefix = records@.take(k as int);
            let next = records@.take(k + 1);
            assert forall|t: i64|
                times@.contains(t) <==> is_time_of_selected(
                    next,
                    t,
                    discipline,
                    category,
                    parameter,
                    surfaces,
                ) by {
                if is_time_of_selected(prefix, t, discipline, category, parameter, surfaces) {
                    let w = choose|w: int|
                        0 <= w < prefix.len() && is_selected(
                            #[trigger] prefix[w],
                            discipline,
                            category,
                            parameter,
                            surfaces,
                        ) && prefix[w].forecast_time == Some(t);
                    assert(next[w] == prefix[w]);
                }
                if is_time_of_selected(next, t, discipline, category, parameter, surfaces) {
                    let w = choose|w: int|
                        0 <= w < next.len() && is_selected(
                            #[trigger] next[w],
                            discipline,
                            category,
                            parameter,
                            surfaces,
                        ) && next[w].forecast_time == Some(t);
                    if w < k {
                        assert(prefix[w] == next[w]);
                    }
                }
                assert(next[k as int] == rec);
            }
        }
        k = k + 1;
    }
    assert(records@.take(records@.len() as int) =~= records@);
    times
}

// ---------------------------------------------------------------------------
// Pairs of vector components
// ---------------------------------------------------------------------------

/// The record is of the parameter and has a forecast time.
pub open spec fn is_timed_component(r: MessageRecord, parameter: (u8, u8, u8)) -> bool {
    has_parameter(r, parameter.0, parameter.1, parameter.2) && r.forecast_time is Some
}

/// The position of the first record of `parameter` whose forecast time is
/// `time`, if any.
pub open spec fn is_first_partner(records: Seq<MessageRecord>, found: Option<usize>, parameter: (u8, u8, u8), time: i64) -> bool {
    match found {
        Some(j) => {
            &&& j < records.len()
            &&& has_parameter(records[j as int], parameter.0, parameter.1, parameter.2)
            &&& records[j as int].forecast_time == Some(time)
            &&& forall|i: int|
                0 <= i < j ==> !(has_parameter(#[trigger] records[i], parameter.0, parameter.1, parameter.2)
                    && records[i].forecast_time == Some(time))
        },
        None => forall|i: int|
            0 <= i < records.len() ==> !(has_parameter(#[trigger] records[i], parameter.0, parameter.1, parameter.2)
                && records[i].forecast_time == Some(time)),
    }
}

fn first_partner(records: &Vec<MessageRecord>, parameter: (u8, u8, u8), time: i64) -> (r: Option<usize>)
    ensures
        is_first_partner(records@, r, parameter, time),
{
    let mut i: usize = 0;
    while i < records.len()
        invariant
            i <= records@.len(),
            forall|j: int|
                0 <= j < i ==> !(has_parameter(#[trigger] records@[j], parameter.0, parameter.1, parameter.2)
                    && records@[j].forecast_time == Some(time)),
        decreases records.len() - i,
    {
        if matches_parameter(&records[i], parameter.0, parameter.1, parameter.2) && records[i].forecast_time
            == Some(time) {
            return Some(i);
        }
        i = i + 1;
    }
    None
}

/// Pairs each record of the first component `u` that has a forecast time
/// (in file order) with the first record of the second component `v` at the
/// same forecast time, if there is one.
pub fn pair_components_by_time(
    records: &Vec<MessageRecord>,
    u: (u8, u8, u8),
    v: (u8, u8, u8),
) -> (r: Vec<(usize, Option<usize>)>)
    ensures
        positions_of(records@, r@.map_values(|p: (usize, Option<usize>)| p.0), |m: MessageRecord| is_timed_component(m, u)),
        forall|i: int|
            0 <= i < r@.len() ==> is_first_partner(
                records@,
                #[trigger] r@[i].1,
                v,
                records@[r@[i].0 as int].forecast_time->Some_0,
            ),
{
    let ghost pred = |m: MessageRecord| is_timed_component(m, u);
    let mut out: Vec<(usize, Option<usize>)> = Vec::new();
    let mut k: usize = 0;
    while k < records.len()
        invariant
            k <= records@.len(),
            pred == (|m: MessageRecord| is_timed_component(m, u)),
            forall|i: int, j: int| 0 <= i < j < out@.len() ==> out@[i].0 < out@[j].0,
            forall|i: int| 0 <= i < out@.len() ==> #[trigger] out@[i].0 < k && pred(records@[out@[i].0 as int]),
            forall|j: int| 0 <= j < k && pred(#[trigger] records@[j]) ==> exists|w: int| 0 <= w < out@.len() && out@[w].0 == j,
            forall|i: int|
                0 <= i < out@.len() ==> is_first_partner(
                    records@,
                    #[trigger] out@[i].1,
                    v,
                    records@[out@[i].0 as int].forecast_time->Some_0,
                ),
        decreases records.len() - k,
    {
        let ghost old_out = out@;
        if matches_parameter(&records[k], u.0, u.1, u.2) {
            match records[k].forecast_time {
                Some(t) => {
                    let partner = first_partner(records, v, t);
                    out.push((k, partner));
                    assert(out@[out@.len() - 1].0 == k);
                },
                None => {},
            }
        }
        proof {
            assert forall|j: int| 0 <= j < k + 1 && pred(#[trigger] records@[j]) implies exists|w: int|
                0 <= w < out@.len() && out@[w].0 == j by {
                if j == k {
                    assert(out@[out@.len() - 1].0 == k);
                } else {
                    let w = choose|w: int| 0 <= w < old_out.len() && old_out[w].0 == j;
                    assert(out@[w] == old_out[w]);
                }
            }
        }
        k = k + 1;
    }
    let ghost firsts = out@.map_values(|p: (usize, Option<usize>)| p.0);
    assert forall|j: int| 0 <= j < records@.len() && pred(#[trigger] records@[j]) implies firsts.contains(
        j as usize,
    ) by {
        let w = choose|w: int| 0 <= w < out@.len() && out@[w].0 == j;
        assert(firsts[w] == j as usize);
    }
    out
}

// ---------------------------------------------------------------------------
// Listed times and requests
// ---------------------------------------------------------------------------

/// If some record answers a request, a first one does.
proof fn lemma_first_requested_exists(
    records: Seq<MessageRecord>,
    w: int,
    discipline: u8,
    category: u8,
    parameter: u8,
    surfaces: Option<(FixedSurface, FixedSurface)>,
    time: i64,
)
    requires
        0 <= w < records.len(),
        is_requested(records[w], discipline, category, parameter, surfaces, time),
    ensures
        exists|k: int| is_first_requested(records, k, discipline, category, parameter, surfaces, time),
    decreases w,
{
    if exists|j: int|
        0 <= j < w && is_requested(#[trigger] records[j], discipline, category, parameter, surfaces, time) {
        let j = choose|j: int|
            0 <= j < w && is_requested(#[trigger] records[j], discipline, category, parameter, surfaces, time);
        lemma_first_requested_exists(records, j, discipline, category, parameter, surfaces, time);
    } else {
        assert(is_first_requested(records, w, discipline, category, parameter, surfaces, time));
    }
}

/// A forecast time is listed for a parameter (on given surfaces, or on any)
/// exactly when a request for that parameter, those surfaces and that time
/// finds a message: every listed time can be asked for, and a time that can
/// be asked for is listed.
pub proof fn lemma_listed_time_iff_message(
    records: Seq<MessageRecord>,
    discipline: u8,
    category: u8,
    parameter: u8,
    surfaces: Option<(FixedSurface, FixedSurface)>,
    time: i64,
)
    ensures
        is_time_of_selected(records, time, discipline, category, parameter, surfaces) <==> exists|k: int|
            is_first_requested(records, k, discipline, category, parameter, surfaces, time),
{
    if is_time_of_selected(records, time, discipline, category, parameter, surfaces) {
        let w = choose|w: int|
            0 <= w < records.len() && is_selected(#[trigger] records[w], discipline, category, parameter, surfaces)
                && records[w].forecast_time == Some(time);
        assert(is_requested(records[w], discipline, category, parameter, surfaces, time));
        lemma_first_requested_exists(records, w, discipline, category, parameter, surfaces, time);
    }
    if exists|k: int| is_first_requested(records, k, discipline, category, parameter, surfaces, time) {
        let k = choose|k: int| is_first_requested(records, k, discipline, category, parameter, surfaces, time);
        assert(is_selected(records[k], discipline, category, parameter, surfaces));
    }
}

} // verus!
