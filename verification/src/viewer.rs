//! A GRIB2 file opened for viewing: what it holds, listed by parameter, by
//! fixed surfaces and by forecast time, and the submessage for a request.
use crate::catalog::{
    available_timestamps, check_consistent_until_request, check_records_consistent,
    consistent_until_request, find_message, get_message, record_consistent, has_parameter, is_first_requested,
    is_not_found_error, is_requested, is_time_of_selected, records_consistent,
    strictly_increasing, MessageIndex, MessageRecord,
};
use crate::error::GribViewerError;
use crate::grib_helpers::{
    fixed_surfaces_from_key, format_surfaces, grib_parameter_from_key,
    lemma_parameter_key_roundtrip, lemma_surface_key_roundtrip, parameter_key,
    parameter_key_outcome, parameter_key_text, surface_key_chars, surface_key_outcome,
    surface_key_text, surfaces_description, FixedSurface,
};
use crate::calendar::{
    check_forecast_overflows, check_timestamp_in_range, date_text_of, forecast_overflows,
    time_text_of,
    timestamp_in_range, utc_time_text,
};
use crate::framing::{check_frames, grib_frames_fit};
use crate::grib_source::{
    category_at, code_table_4_2_name, describe_submessage, discipline_at, dump_submessage,
    forecast_time_at, grib_accepts, grib_category, grib_description, grib_dump_bytes, text_from_utf8,
    utc_date_text, utf8_text,
    grib_discipline, grib_forecast_time, grib_message_indices, grib_number, grib_reference_time,
    grib_submessage_readable, grib_surfaces, message_index_at, forecast_target_at, grib_file_bytes,
    grib_forecast_target, number_at, parameter_name, read_grib,
    reference_time_at, submessage_count, surfaces_at, GribFile,
};
use crate::text::{chars_less, lemma_less_transitive, lemma_less_trichotomy, seq_less, string_from_chars};
use vstd::prelude::*;

verus! {

/// A parameter that a file holds: its name in code table 4.2 and its key.
pub struct ParameterEntry {
    pub name: String,
    pub key: String,
}

/// A pair of fixed surfaces that a file holds for a parameter: its key and
/// its description.
pub struct SurfaceEntry {
    pub key: String,
    pub description: String,
}

/// A GRIB2 file held in memory, with what the viewer read of each of its
/// submessages, in file order.
pub struct GribViewer {
    grib2: GribFile,
    records: Vec<MessageRecord>,
}

/// A fixed surface from its type, scale factor and scaled value.
pub open spec fn surface_of_fields(f: (u8, i8, i32)) -> FixedSurface {
    FixedSurface { surface_type: f.0, scale_factor: f.1, scaled_value: f.2 }
}

/// The two fixed surfaces from their fields, if any.
pub open spec fn surfaces_of_fields(s: Option<((u8, i8, i32), (u8, i8, i32))>) -> Option<
    (FixedSurface, FixedSurface),
> {
    match s {
        Some((a, b)) => Some((surface_of_fields(a), surface_of_fields(b))),
        None => None,
    }
}

/// The forecast target time that the viewer keeps for submessage `k`: the
/// one the reader computes, or none where that computation would pass
/// chrono's last second.
pub open spec fn kept_forecast_target(bytes: Seq<u8>, k: int) -> Option<i64> {
    if forecast_overflows(grib_reference_time(bytes, k), grib_forecast_time(bytes, k)) {
        None
    } else {
        grib_forecast_target(bytes, k)
    }
}

/// The record holds what the reader gives for submessage `k` of the file
/// read from `bytes`: its index, discipline, category, number, fixed
/// surfaces and forecast target time.
pub open spec fn record_of_submessage(record: MessageRecord, bytes: Seq<u8>, k: int) -> bool {
    &&& record.index == grib_message_indices(bytes)[k]
    &&& record.discipline == grib_discipline(bytes, k)
    &&& record.category == grib_category(bytes, k)
    &&& record.number == grib_number(bytes, k)
    &&& record.surfaces == surfaces_of_fields(grib_surfaces(bytes, k))
    &&& record.forecast_time == kept_forecast_target(bytes, k)
}

/// The records are those of the submessages of the file read from `bytes`,
/// from the first on, in file order, each with what the reader gives for its
/// submessage: one for each submessage up to the first that the reader does
/// not yield, or the end of the file.
pub open spec fn records_of_bytes(records: Seq<MessageRecord>, bytes: Seq<u8>) -> bool {
    let indices = grib_message_indices(bytes);
    &&& records.len() <= indices.len()
    &&& forall|k: int|
        0 <= k < records.len() ==> #[trigger] record_of_submessage(records[k], bytes, k)
            && grib_submessage_readable(bytes, k)
    &&& records.len() < indices.len() ==> !grib_submessage_readable(bytes, records.len() as int)
}

/// The fixed surface of its fields.
fn surface_from_fields(f: (u8, i8, i32)) -> (r: FixedSurface)
    ensures
        r == surface_of_fields(f),
{
    FixedSurface { surface_type: f.0, scale_factor: f.1, scaled_value: f.2 }
}

/// Reads what the viewer needs from the submessages of `file`, in order,
/// stopping at the first submessage that the reader does not yield.
fn read_records(file: &GribFile) -> (r: Vec<MessageRecord>)
    ensures
        records_of_bytes(r@, grib_file_bytes(*file)),
{
    let count = submessage_count(file);
    let mut records: Vec<MessageRecord> = Vec::new();
    let mut k: usize = 0;
    while k < count
        invariant
            k <= count,
            count == grib_message_indices(grib_file_bytes(*file)).len(),
            records@.len() == k,
            forall|j: int| 0 <= j < k ==> #[trigger] record_of_submessage(records@[j], grib_file_bytes(*file), j),
            forall|j: int| 0 <= j < k ==> #[trigger] grib_submessage_readable(grib_file_bytes(*file), j),
        decreases count - k,
    {
        let index = match message_index_at(file, k) {
            Some(index) => index,
            None => {
                return records;
            },
        };
        let discipline = discipline_at(file, k).unwrap();
        let category = category_at(file, k).unwrap();
        let number = number_at(file, k).unwrap();
        let surfaces = match surfaces_at(file, k).unwrap() {
            Some((a, b)) => Some((surface_from_fields(a), surface_from_fields(b))),
            None => None,
        };
        let reference = reference_time_at(file, k).unwrap();
        let forecast = forecast_time_at(file, k).unwrap();
        let forecast_time = if check_forecast_overflows(reference, forecast) {
            None
        } else {
            forecast_target_at(file, k).unwrap()
        };
        let record = MessageRecord { index, discipline, category, number, forecast_time, surfaces };
        let ghost before = records@;
        records.push(record);
        proof {
            assert(record_of_submessage(records@[k as int], grib_file_bytes(*file), k as int));
            assert forall|j: int| 0 <= j < k + 1 implies #[trigger] record_of_submessage(records@[j], grib_file_bytes(*file), j) by {
                if j < k {
                    assert(records@[j] == before[j]);
                }
            }
        }
        k = k + 1;
    }
    records
}

// ---------------------------------------------------------------------------
// Parameters
// ---------------------------------------------------------------------------

/// The record names a parameter: it states a category and a number.
pub open spec fn states_parameter(r: MessageRecord) -> bool {
    r.category is Some && r.number is Some
}

/// The name of the record's parameter in code table 4.2.
pub open spec fn parameter_name_of(r: MessageRecord) -> Seq<char> {
    code_table_4_2_name(r.discipline, r.category->Some_0, r.number->Some_0)
}

/// Record `k` is the first that names a parameter called `name`.
pub open spec fn is_first_named(records: Seq<MessageRecord>, k: int, name: Seq<char>) -> bool {
    &&& 0 <= k < records.len()
    &&& states_parameter(records[k])
    &&& parameter_name_of(records[k]) == name
    &&& forall|j: int|
        0 <= j < k && states_parameter(#[trigger] records[j]) ==> parameter_name_of(records[j]) != name
}

/// The entries list the parameters of the records: one entry per name, with
/// the key of the first record of that name, and every name present.
pub open spec fn parameters_listed(records: Seq<MessageRecord>, entries: Seq<ParameterEntry>) -> bool {
    &&& forall|i: int, j: int| 0 <= i < j < entries.len() ==> entries[i].name@ != entries[j].name@
    &&& forall|i: int|
        0 <= i < entries.len() ==> entry_has_first(records, #[trigger] entries[i])
    &&& forall|k: int|
        0 <= k < records.len() && states_parameter(#[trigger] records[k]) ==> exists|i: int|
            0 <= i < entries.len() && entries[i].name@ == parameter_name_of(records[k])
}

/// The entries are kept in a `Vec` looked through by name, not a `HashMap`
/// keyed by the name: vstd's `HashMap` specification gives no contents for
/// `String` keys.
fn position_of_name(entries: &Vec<ParameterEntry>, name: &String) -> (r: Option<usize>)
    ensures
        match r {
            Some(i) => i < entries@.len() && entries@[i as int].name@ == name@,
            None => forall|i: int| 0 <= i < entries@.len() ==> entries@[i].name@ != name@,
        },
{
    let mut i: usize = 0;
    while i < entries.len()
        invariant
            i <= entries@.len(),
            forall|j: int| 0 <= j < i ==> entries@[j].name@ != name@,
        decreases entries.len() - i,
    {
        if entries[i].name == *name {
            return Some(i);
        }
        i = i + 1;
    }
    None
}

// ---------------------------------------------------------------------------
// Surfaces
// ---------------------------------------------------------------------------

/// Strictly increasing in lexicographic order.
pub open spec fn keys_sorted(keys: Seq<Seq<char>>) -> bool {
    forall|i: int, j: int| 0 <= i < j < keys.len() ==> seq_less(keys[i], keys[j])
}

/// The entry holds the key and description of the surfaces of record `k`,
/// a record of the parameter.
pub open spec fn entry_from_record(
    records: Seq<MessageRecord>,
    k: int,
    entry: SurfaceEntry,
    discipline: u8,
    category: u8,
    parameter: u8,
) -> bool {
    &&& 0 <= k < records.len()
    &&& has_parameter(records[k], discipline, category, parameter)
    &&& match records[k].surfaces {
        Some((s1, s2)) => entry.key@ == surface_key_text(s1, s2) && entry.description@
            == surfaces_description(s1, s2),
        None => false,
    }
}

/// The entries list the fixed surfaces of the records of the parameter: each
/// key once, in increasing order, each with its description, and every pair
/// of surfaces of the parameter present.
pub open spec fn surfaces_listed(
    records: Seq<MessageRecord>,
    discipline: u8,
    category: u8,
    parameter: u8,
    entries: Seq<SurfaceEntry>,
) -> bool {
    &&& keys_sorted(entries.map_values(|e: SurfaceEntry| e.key@))
    &&& forall|i: int|
        0 <= i < entries.len() ==> entry_has_record(records, #[trigger] entries[i], discipline, category, parameter)
    &&& forall|k: int|
        0 <= k < records.len() && has_parameter(#[trigger] records[k], discipline, category, parameter)
            && records[k].surfaces is Some ==> exists|i: int|
            0 <= i < entries.len() && entries[i].key@ == surface_key_text(
                records[k].surfaces->Some_0.0,
                records[k].surfaces->Some_0.1,
            )
}

/// Inserting `x` where everything before is smaller and everything after
/// is larger keeps the keys sorted.
proof fn lemma_sorted_insert(keys: Seq<Seq<char>>, p: int, x: Seq<char>)
    requires
        keys_sorted(keys),
        0 <= p <= keys.len(),
        forall|i: int| 0 <= i < p ==> seq_less(keys[i], x),
        p < keys.len() ==> seq_less(x, keys[p]),
    ensures
        keys_sorted(keys.insert(p, x)),
{
    let n = keys.insert(p, x);
    assert forall|i: int, j: int| 0 <= i < j < n.len() implies seq_less(n[i], n[j]) by {
        if j < p {
        } else if j == p {
        } else if i < p {
            assert(n[j] == keys[j - 1]);
            if p < keys.len() {
                lemma_less_transitive(keys[i], x, keys[p]);
                if j - 1 > p {
                    lemma_less_transitive(keys[i], keys[p], keys[j - 1]);
                }
            }
        } else if i == p {
            assert(n[j] == keys[j - 1]);
            if j - 1 > p {
                lemma_less_transitive(x, keys[p], keys[j - 1]);
            }
        } else {
            assert(n[i] == keys[i - 1]);
            assert(n[j] == keys[j - 1]);
        }
    }
}

/// Where `key` belongs in the sorted `keys`: everything before the position
/// is smaller; `found` when the key at the position equals it, else the key
/// at the position (if any) is larger.
fn sorted_position(keys: &Vec<Vec<char>>, key: &Vec<char>) -> (r: (usize, bool))
    requires
        keys_sorted(keys@.map_values(|v: Vec<char>| v@)),
    ensures
        r.0 <= keys@.len(),
        forall|i: int| 0 <= i < r.0 ==> seq_less(keys@[i]@, key@),
        r.1 ==> r.0 < keys@.len() && keys@[r.0 as int]@ == key@,
        !r.1 ==> (r.0 < keys@.len() ==> seq_less(key@, keys@[r.0 as int]@)),
{
    let mut p: usize = 0;
    while p < keys.len() && chars_less(&keys[p], key)
        invariant
            p <= keys@.len(),
            forall|i: int| 0 <= i < p ==> seq_less(keys@[i]@, key@),
        decreases keys.len() - p,
    {
        p = p + 1;
    }
    if p < keys.len() {
        proof {
            lemma_less_trichotomy(keys@[p as int]@, key@);
        }
        let larger = chars_less(key, &keys[p]);
        (p, !larger)
    } else {
        (p, false)
    }
}

/// `keys` holds the characters of the entries' keys, sorted.
pub open spec fn keys_match(keys: Seq<Vec<char>>, entries: Seq<SurfaceEntry>) -> bool {
    &&& keys.len() == entries.len()
    &&& forall|i: int| 0 <= i < keys.len() ==> #[trigger] keys[i]@ == entries[i].key@
    &&& keys_sorted(keys.map_values(|v: Vec<char>| v@))
}

/// Adds the entry of two fixed surfaces to the sorted entries, unless an
/// entry with the same key is there. The entries must come out sorted by
/// key, and vstd's `HashMap` specification gives no contents for `String`
/// keys, so they are kept in a `Vec` sorted as they are inserted.
fn insert_surfaces(
    keys: &mut Vec<Vec<char>>,
    entries: &mut Vec<SurfaceEntry>,
    s1: &FixedSurface,
    s2: &FixedSurface,
)
    requires
        keys_match(old(keys)@, old(entries)@),
    ensures
        keys_match(final(keys)@, final(entries)@),
        forall|e: SurfaceEntry| old(entries)@.contains(e) ==> final(entries)@.contains(e),
        forall|i: int|
            0 <= i < final(entries)@.len() ==> old(entries)@.contains(#[trigger] final(entries)@[i]) || (
            final(entries)@[i].key@ == surface_key_text(*s1, *s2) && final(entries)@[i].description@
                == surfaces_description(*s1, *s2)),
        exists|i: int|
            0 <= i < final(entries)@.len() && #[trigger] final(entries)@[i].key@ == surface_key_text(*s1, *s2),
{
    let key_chars = surface_key_chars(s1, s2);
    let (p, found) = sorted_position(keys, &key_chars);
    let ghost old_keys = keys@;
    let ghost old_entries = entries@;
    if found {
        assert(entries@[p as int].key@ == key_chars@);
        return;
    }
    let description = format_surfaces(s1, s2);
    let key_string = string_from_chars(&key_chars);
    let entry = SurfaceEntry { key: key_string, description };
    proof {
        lemma_sorted_insert(old_keys.map_values(|v: Vec<char>| v@), p as int, key_chars@);
    }
    keys.insert(p, key_chars);
    entries.insert(p, entry);
    proof {
        assert(keys@.map_values(|v: Vec<char>| v@) =~= old_keys.map_values(|v: Vec<char>| v@).insert(
            p as int,
            key_chars@,
        ));
        assert forall|i: int| 0 <= i < keys@.len() implies #[trigger] keys@[i]@ == entries@[i].key@ by {
            if i < p {
                assert(keys@[i] == old_keys[i]);
                assert(entries@[i] == old_entries[i]);
            } else if i > p {
                assert(keys@[i] == old_keys[i - 1]);
                assert(entries@[i] == old_entries[i - 1]);
            }
        }
        assert forall|e: SurfaceEntry| old_entries.contains(e) implies entries@.contains(e) by {
            let i = choose|i: int| 0 <= i < old_entries.len() && old_entries[i] == e;
            if i < p {
                assert(entries@[i] == e);
            } else {
                assert(entries@[i + 1] == e);
            }
        }
        assert forall|i: int| 0 <= i < entries@.len() implies old_entries.contains(#[trigger] entries@[i]) || (
            entries@[i].key@ == surface_key_text(*s1, *s2) && entries@[i].description@
                == surfaces_description(*s1, *s2)) by {
            if i < p {
                assert(old_entries[i] == entries@[i]);
            } else if i > p {
                assert(old_entries[i - 1] == entries@[i]);
            }
        }
        assert(entries@[p as int].key@ == surface_key_text(*s1, *s2));
    }
}

/// Some record is the first named like `e`, and `e` has its key.
pub open spec fn entry_has_first(records: Seq<MessageRecord>, e: ParameterEntry) -> bool {
    exists|k: int| #[trigger] entry_is_first(records, k, e)
}

/// Some record of the parameter has the surfaces of `e`, and `e` has their
/// key and description.
pub open spec fn entry_has_record(
    records: Seq<MessageRecord>,
    e: SurfaceEntry,
    discipline: u8,
    category: u8,
    parameter: u8,
) -> bool {
    exists|k: int| #[trigger] entry_from_record(records, k, e, discipline, category, parameter)
}

/// Entry `e` has the key of the first record named like it.
pub open spec fn entry_is_first(records: Seq<MessageRecord>, k: int, e: ParameterEntry) -> bool {
    is_first_named(records, k, e.name@) && e.key@ == parameter_key_text(
        records[k].discipline,
        records[k].category->Some_0,
        records[k].number->Some_0,
    )
}

/// The entries list the parameters of the first `k` records.
pub open spec fn parameters_seen(records: Seq<MessageRecord>, k: int, entries: Seq<ParameterEntry>) -> bool {
    &&& forall|i: int, j: int| 0 <= i < j < entries.len() ==> entries[i].name@ != entries[j].name@
    &&& forall|i: int|
        0 <= i < entries.len() ==> entry_has_first(records, #[trigger] entries[i])
    &&& forall|j: int|
        0 <= j < k && states_parameter(#[trigger] records[j]) ==> exists|i: int|
            0 <= i < entries.len() && entries[i].name@ == parameter_name_of(records[j])
}

/// Adds the parameter of record `k` to the entries, unless its name is
/// listed.
fn note_parameter(
    entries: &mut Vec<ParameterEntry>,
    rec: &MessageRecord,
    Ghost(records): Ghost<Seq<MessageRecord>>,
    Ghost(k): Ghost<int>,
)
    requires
        0 <= k < records.len(),
        records[k] == *rec,
        records_consistent(records),
        parameters_seen(records, k, old(entries)@),
    ensures
        parameters_seen(records, k + 1, final(entries)@),
{
    let ghost old_entries = entries@;
    assert(record_consistent_at(records, k));
    match rec.category {
        Some(category) => {
            let number = rec.number.unwrap();
            let name = parameter_name(rec.discipline, category, number);
            match position_of_name(entries, &name) {
                Some(_) => {},
                None => {
                    let key = parameter_key(rec.discipline, category, number);
                    proof {
                        assert forall|j: int|
                            0 <= j < k && states_parameter(#[trigger] records[j]) implies parameter_name_of(
                            records[j],
                        ) != name@ by {
                            let i = choose|i: int|
                                0 <= i < entries@.len() && entries@[i].name@ == parameter_name_of(records[j]);
                        }
                    }
                    let entry = ParameterEntry { name, key };
                    assert(entry_is_first(records, k, entry));
                    entries.push(entry);
                },
            }
        },
        None => {},
    }
    proof {
        assert forall|i: int| 0 <= i < entries@.len() implies entry_has_first(records, #[trigger] entries@[i]) by {
            if i < old_entries.len() {
                assert(entries@[i] == old_entries[i]);
            } else {
                assert(entry_is_first(records, k, entries@[i]));
            }
        }
        assert forall|j: int|
            0 <= j < k + 1 && states_parameter(#[trigger] records[j]) implies exists|i: int|
            0 <= i < entries@.len() && entries@[i].name@ == parameter_name_of(records[j]) by {
            if j < k {
                let i = choose|i: int|
                    0 <= i < old_entries.len() && old_entries[i].name@ == parameter_name_of(records[j]);
                assert(entries@[i] == old_entries[i]);
            } else if entries@.len() > old_entries.len() {
                assert(entries@[entries@.len() - 1].name@ == parameter_name_of(records[j]));
            } else {
                let i = choose|i: int|
                    0 <= i < entries@.len() && entries@[i].name@ == parameter_name_of(records[j]);
            }
        }
    }
}

/// The message of the error for data whose declared lengths are out of
/// range.
pub open spec fn malformed_lengths_text() -> Seq<char> {
    "malformed GRIB2 data: a declared length is out of range"@
}

fn malformed_lengths() -> (r: String)
    ensures
        r@ == malformed_lengths_text(),
{
    String::from_str("malformed GRIB2 data: a declared length is out of range")
}

impl GribViewer {
    /// The records are those of the file's submessages.
    #[verifier::type_invariant]
    spec fn records_match_file(self) -> bool {
        records_of_bytes(self.records@, grib_file_bytes(self.grib2))
    }

    /// What the viewer read of each submessage, in file order.
    pub closed spec fn catalog(&self) -> Seq<MessageRecord> {
        self.records@
    }


    /// The parsed file.
    pub closed spec fn file(&self) -> GribFile {
        self.grib2
    }

    /// The bytes that the file was read from.
    pub closed spec fn bytes(&self) -> Seq<u8> {
        grib_file_bytes(self.grib2)
    }

    /// Opens a GRIB2 file held in memory. It fails with `Other` where a
    /// length that the data declares is too small for what it must hold or
    /// too large for its message or the machine (on such data the reader's
    /// arithmetic would go below zero or overflow), and else, with
    /// the reader's error, exactly when the reader does not accept the bytes.
    pub fn new(bytes: Vec<u8>) -> (r: Result<GribViewer, GribViewerError>)
        ensures
            r is Ok <==> grib_frames_fit(bytes@) && grib_accepts(bytes@),
            !grib_frames_fit(bytes@) ==> (r matches Err(GribViewerError::Other(m)) && m@
                == malformed_lengths_text()),
            grib_frames_fit(bytes@) ==> (r matches Err(e) ==> e is Grib),
            r matches Ok(v) ==> v.bytes() == bytes@ && records_of_bytes(v.catalog(), bytes@),
    {
        if !check_frames(&bytes) {
            return Err(GribViewerError::Other(malformed_lengths()));
        }
        match read_grib(bytes) {
            Ok(grib2) => {
                let records = read_records(&grib2);
                Ok(GribViewer { grib2, records })
            },
            Err(e) => Err(GribViewerError::Grib(e)),
        }
    }

    /// The parsed file, for decoding the values of a submessage.
    pub fn grib2(&self) -> (r: &GribFile)
        ensures
            *r == self.file(),
    {
        &self.grib2
    }

    /// What the viewer read of each submessage, in file order.
    pub fn records(&self) -> (r: &Vec<MessageRecord>)
        ensures
            r@ == self.catalog(),
    {
        &self.records
    }

    /// Where both keys are well formed, the search for the first submessage
    /// that answers the request reaches no submessage that states a
    /// parameter category but no number (the reader promises that none
    /// exists).
    pub open spec fn lookup_consistent(&self, parameter_key: Seq<char>, surface_key: Seq<char>, time: i64) -> bool {
        match (parameter_key_outcome(parameter_key), surface_key_outcome(surface_key)) {
            (Ok((d, c, p)), Ok(surfaces)) => consistent_until_request(
                self.catalog(),
                d,
                c,
                p,
                Some(surfaces),
                time,
            ),
            _ => true,
        }
    }

    /// Whether `lookup_consistent` holds for the keys and the time.
    pub fn check_lookup_consistent(&self, parameter_key: &str, surface_key: &str, time: i64) -> (r: bool)
        ensures
            r == self.lookup_consistent(parameter_key@, surface_key@, time),
    {
        match (grib_parameter_from_key(parameter_key), fixed_surfaces_from_key(surface_key)) {
            (Ok((d, c, p)), Ok(surfaces)) => check_consistent_until_request(
                &self.records,
                d,
                c,
                p,
                Some(surfaces),
                time,
            ),
            _ => true,
        }
    }

    /// Whether every submessage that states a parameter category states a
    /// parameter number too, which the reader promises for well-formed data.
    pub fn records_consistent(&self) -> (r: bool)
        ensures
            r == records_consistent(self.catalog()),
    {
        check_records_consistent(&self.records)
    }

    /// The parameters that the file holds: for each name in code table 4.2,
    /// one entry with the key of the first submessage of that name.
    pub fn get_available_parameters(&self) -> (r: Vec<ParameterEntry>)
        requires
            records_consistent(self.catalog()),
        ensures
            parameters_listed(self.catalog(), r@),
    {
        let records = &self.records;
        let mut entries: Vec<ParameterEntry> = Vec::new();
        let mut k: usize = 0;
        while k < records.len()
            invariant
                k <= records@.len(),
                records@ == self.catalog(),
                records_consistent(records@),
                parameters_seen(records@, k as int, entries@),
            decreases records.len() - k,
        {
            note_parameter(&mut entries, &records[k], Ghost(records@), Ghost(k as int));
            k = k + 1;
        }
        entries
    }

    /// The pairs of fixed surfaces that the file holds for the parameter of
    /// `key`, sorted by their keys, each once with its description. Fails
    /// when the key is malformed.
    pub fn get_available_surfaces(&self, key: &str) -> (r: Result<Vec<SurfaceEntry>, GribViewerError>)
        ensures
            match (r, parameter_key_outcome(key@)) {
                (Ok(entries), Ok((d, c, p))) => surfaces_listed(self.catalog(), d, c, p, entries@),
                (Err(GribViewerError::InvalidKey(m)), Err(t)) => m@ == t,
                _ => false,
            },
    {
        let (discipline, category, parameter) = grib_parameter_from_key(key)?;
        let records = &self.records;
        let mut entries: Vec<SurfaceEntry> = Vec::new();
        let mut keys: Vec<Vec<char>> = Vec::new();
        let mut k: usize = 0;
        while k < records.len()
            invariant
                k <= records@.len(),
                records@ == self.catalog(),
                keys_match(keys@, entries@),
                forall|i: int|
                    0 <= i < entries@.len() ==> entry_has_record(records@, #[trigger] entries@[i], discipline, category, parameter),
                forall|j: int|
                    0 <= j < k && has_parameter(#[trigger] records@[j], discipline, category, parameter)
                        && records@[j].surfaces is Some ==> exists|i: int|
                        0 <= i < entries@.len() && entries@[i].key@ == surface_key_text(
                            records@[j].surfaces->Some_0.0,
                            records@[j].surfaces->Some_0.1,
                        ),
            decreases records.len() - k,
        {
            let rec = records[k];
            assert(records@[k as int] == rec);
            let ghost old_entries = entries@;
            if rec.discipline == discipline && rec.category == Some(category) && rec.number == Some(
                parameter,
            ) {
                match rec.surfaces {
                    Some((s1, s2)) => {
                        insert_surfaces(&mut keys, &mut entries, &s1, &s2);
                        proof {
                            assert forall|i: int| 0 <= i < entries@.len() implies entry_has_record(records@, #[trigger] entries@[i], discipline, category, parameter) by {
                                if old_entries.contains(entries@[i]) {
                                    let i0 = choose|i0: int| 0 <= i0 < old_entries.len() && old_entries[i0] == entries@[i];
                                    assert(entry_has_record(records@, old_entries[i0], discipline, category, parameter));
                                } else {
                                    assert(entry_from_record(records@, k as int, entries@[i], discipline, category, parameter));
                                }
                            }
                            assert forall|j: int|
                                0 <= j < k + 1 && has_parameter(#[trigger] records@[j], discipline, category, parameter)
                                    && records@[j].surfaces is Some implies exists|i: int|
                                0 <= i < entries@.len() && entries@[i].key@ == surface_key_text(
                                    records@[j].surfaces->Some_0.0,
                                    records@[j].surfaces->Some_0.1,
                                ) by {
                                if j < k {
                                    let i = choose|i: int|
                                        0 <= i < old_entries.len() && old_entries[i].key@ == surface_key_text(
                                            records@[j].surfaces->Some_0.0,
                                            records@[j].surfaces->Some_0.1,
                                        );
                                    assert(entries@.contains(old_entries[i]));
                                }
                            }
                        }
                    },
                    None => {},
                }
            }
            k = k + 1;
        }
        proof {
            assert(entries@.map_values(|e: SurfaceEntry| e.key@) =~= keys@.map_values(|v: Vec<char>| v@));
        }
        Ok(entries)
    }

    /// The forecast times of the parameter of `parameter_key` on the
    /// surfaces of `surface_key`: each once, in increasing order. Fails when
    /// a key is malformed (the parameter key is read first).
    pub fn get_available_timestamps(&self, parameter_key: &str, surface_key: &str) -> (r: Result<
        Vec<i64>,
        GribViewerError,
    >)
        ensures
            match (parameter_key_outcome(parameter_key@), surface_key_outcome(surface_key@)) {
                (Err(t), _) => r matches Err(GribViewerError::InvalidKey(m)) && m@ == t,
                (Ok(_), Err(t)) => r matches Err(GribViewerError::InvalidKey(m)) && m@ == t,
                (Ok((d, c, p)), Ok(surfaces)) => r matches Ok(times) && strictly_increasing(times@)
                    && forall|t: i64|
                    times@.contains(t) <==> is_time_of_selected(
                        self.catalog(),
                        t,
                        d,
                        c,
                        p,
                        Some(surfaces),
                    ),
            },
    {
        let (discipline, category, parameter) = grib_parameter_from_key(parameter_key)?;
        let surfaces = fixed_surfaces_from_key(surface_key)?;
        Ok(available_timestamps(&self.records, discipline, category, parameter, Some(surfaces)))
    }

    /// The submessage of the parameter of `parameter_key`, on the surfaces of
    /// `surface_key`, at forecast time `time`: the index of the first one in
    /// the file. Fails when a key is malformed, or with `MessageNotFound`.
    pub fn message_index(&self, parameter_key: &str, surface_key: &str, time: i64) -> (r: Result<
        MessageIndex,
        GribViewerError,
    >)
        requires
            self.lookup_consistent(parameter_key@, surface_key@, time),
        ensures
            match (parameter_key_outcome(parameter_key@), surface_key_outcome(surface_key@)) {
                (Err(t), _) => r matches Err(GribViewerError::InvalidKey(m)) && m@ == t,
                (Ok(_), Err(t)) => r matches Err(GribViewerError::InvalidKey(m)) && m@ == t,
                (Ok((d, c, p)), Ok(surfaces)) => match r {
                    Ok(index) => exists|k: int|
                        is_first_requested(self.catalog(), k, d, c, p, Some(surfaces), time)
                            && #[trigger] self.catalog()[k].index == index,
                    Err(e) => (forall|j: int|
                        0 <= j < self.catalog().len() ==> !is_requested(
                            #[trigger] self.catalog()[j],
                            d,
                            c,
                            p,
                            Some(surfaces),
                            time,
                        )) && is_not_found_error(e, d, c, p, time),
                },
            },
    {
        let (discipline, category, parameter) = grib_parameter_from_key(parameter_key)?;
        let (surface1, surface2) = fixed_surfaces_from_key(surface_key)?;
        get_message(&self.records, discipline, category, parameter, &surface1, &surface2, time)
    }

    /// The description (`SubMessage::describe`) of the submessage that
    /// `message_index` finds. Fails as `message_index` does.
    pub fn message_info(&self, parameter_key: &str, surface_key: &str, time: i64) -> (r: Result<
        String,
        GribViewerError,
    >)
        requires
            self.lookup_consistent(parameter_key@, surface_key@, time),
        ensures
            match (parameter_key_outcome(parameter_key@), surface_key_outcome(surface_key@)) {
                (Err(t), _) => r matches Err(GribViewerError::InvalidKey(m)) && m@ == t,
                (Ok(_), Err(t)) => r matches Err(GribViewerError::InvalidKey(m)) && m@ == t,
                (Ok((d, c, p)), Ok(surfaces)) => match r {
                    Ok(text) => exists|k: int|
                        is_first_requested(self.catalog(), k, d, c, p, Some(surfaces), time) && text@
                            == #[trigger] grib_description(self.bytes(), k),
                    Err(e) => (forall|j: int|
                        0 <= j < self.catalog().len() ==> !is_requested(
                            #[trigger] self.catalog()[j],
                            d,
                            c,
                            p,
                            Some(surfaces),
                            time,
                        )) && is_not_found_error(e, d, c, p, time),
                },
            },
    {
        proof {
            use_type_invariant(self);
        }
        let (discipline, category, parameter) = grib_parameter_from_key(parameter_key)?;
        let surfaces = fixed_surfaces_from_key(surface_key)?;
        let k = find_message(&self.records, discipline, category, parameter, Some(surfaces), time)?;
        assert(record_of_submessage(self.records@[k as int], grib_file_bytes(self.grib2), k as int));
        let text = describe_submessage(&self.grib2, k).unwrap();
        assert(is_first_requested(self.catalog(), k as int, discipline, category, parameter, Some(surfaces), time));
        assert(text@ == grib_description(self.bytes(), k as int));
        Ok(text)
    }

    /// The dump (`SubMessage::dump`) of the submessage that `message_index`
    /// finds, as text. Fails as `message_index` does, and with `Other` where
    /// the dump is not UTF-8.
    pub fn message_dump(&self, parameter_key: &str, surface_key: &str, time: i64) -> (r: Result<
        String,
        GribViewerError,
    >)
        requires
            self.lookup_consistent(parameter_key@, surface_key@, time),
        ensures
            match (parameter_key_outcome(parameter_key@), surface_key_outcome(surface_key@)) {
                (Err(t), _) => r matches Err(GribViewerError::InvalidKey(m)) && m@ == t,
                (Ok(_), Err(t)) => r matches Err(GribViewerError::InvalidKey(m)) && m@ == t,
                (Ok((d, c, p)), Ok(surfaces)) => match r {
                    Ok(text) => exists|k: int|
                        is_first_requested(self.catalog(), k, d, c, p, Some(surfaces), time)
                            && #[trigger] utf8_text(grib_dump_bytes(self.bytes(), k)) == Some(text@),
                    Err(GribViewerError::Other(_)) => exists|k: int|
                        is_first_requested(self.catalog(), k, d, c, p, Some(surfaces), time)
                            && #[trigger] utf8_text(grib_dump_bytes(self.bytes(), k)) is None,
                    Err(e) => (forall|j: int|
                        0 <= j < self.catalog().len() ==> !is_requested(
                            #[trigger] self.catalog()[j],
                            d,
                            c,
                            p,
                            Some(surfaces),
                            time,
                        )) && is_not_found_error(e, d, c, p, time),
                },
            },
    {
        proof {
            use_type_invariant(self);
        }
        let (discipline, category, parameter) = grib_parameter_from_key(parameter_key)?;
        let surfaces = fixed_surfaces_from_key(surface_key)?;
        let k = find_message(&self.records, discipline, category, parameter, Some(surfaces), time)?;
        assert(record_of_submessage(self.records@[k as int], grib_file_bytes(self.grib2), k as int));
        let bytes = dump_submessage(&self.grib2, k).unwrap();
        assert(is_first_requested(self.catalog(), k as int, discipline, category, parameter, Some(surfaces), time));
        assert(bytes@ == grib_dump_bytes(self.bytes(), k as int));
        match text_from_utf8(bytes) {
            Ok(text) => Ok(text),
            Err(detail) => Err(GribViewerError::Other(detail)),
        }
    }
}

// ---------------------------------------------------------------------------
// Summaries of the submessages
// ---------------------------------------------------------------------------

/// A submessage of a parameter with a forecast time: its index, the name of
/// its parameter (code table 4.2), its category, and its forecast time in
/// seconds since the Unix epoch and as the text of a UTC date and time.
pub struct MessageSummary {
    pub index: MessageIndex,
    pub name: String,
    pub category: u8,
    pub forecast_time: i64,
    pub forecast_date: String,
    pub forecast_clock: String,
}

/// The record states a category and a forecast time from year 0 up to the
/// last that chrono holds.
pub open spec fn summarizable(r: MessageRecord) -> bool {
    &&& r.category is Some
    &&& r.forecast_time matches Some(t) && timestamp_in_range(t as int)
}

/// The summarizable records, in order.
pub open spec fn summarized(records: Seq<MessageRecord>) -> Seq<MessageRecord>
    decreases records.len(),
{
    if records.len() == 0 {
        Seq::empty()
    } else if summarizable(records.last()) {
        summarized(records.drop_last()).push(records.last())
    } else {
        summarized(records.drop_last())
    }
}

/// The summary holds what the record states.
pub open spec fn summary_of(s: MessageSummary, r: MessageRecord) -> bool {
    let c = r.category->Some_0;
    let t = r.forecast_time->Some_0;
    &&& s.index == r.index
    &&& s.category == c
    &&& s.name@ == code_table_4_2_name(r.discipline, c, r.number->Some_0)
    &&& s.forecast_time == t
    &&& s.forecast_date@ == date_text_of(t as int)
    &&& s.forecast_clock@ == time_text_of(t as int)
}

/// A summary of each record that states a category and a forecast time, in
/// file order.
pub fn message_summaries(records: &Vec<MessageRecord>) -> (r: Vec<MessageSummary>)
    requires
        records_consistent(records@),
    ensures
        r@.len() == summarized(records@).len(),
        forall|i: int| 0 <= i < r@.len() ==> summary_of(#[trigger] r@[i], summarized(records@)[i]),
{
    let mut out: Vec<MessageSummary> = Vec::new();
    let mut k: usize = 0;
    while k < records.len()
        invariant
            k <= records@.len(),
            records_consistent(records@),
            out@.len() == summarized(records@.take(k as int)).len(),
            forall|i: int|
                0 <= i < out@.len() ==> summary_of(#[trigger] out@[i], summarized(records@.take(k as int))[i]),
        decreases records.len() - k,
    {
        let rec = records[k];
        assert(records@.take(k + 1).drop_last() =~= records@.take(k as int));
        assert(records@.take(k + 1).last() == rec);
        assert(record_consistent(records@[k as int]));
        let ghost before = out@;
        match (rec.category, rec.forecast_time) {
            (Some(category), Some(t)) => {
                if check_timestamp_in_range(t) {
                    let name = parameter_name(rec.discipline, category, rec.number.unwrap());
                    let forecast_date = utc_date_text(t).unwrap();
                    let forecast_clock = string_from_chars(&utc_time_text(t));
                    out.push(
                        MessageSummary {
                            index: rec.index,
                            name,
                            category,
                            forecast_time: t,
                            forecast_date,
                            forecast_clock,
                        },
                    );
                    proof {
                        assert forall|i: int| 0 <= i < out@.len() implies summary_of(
                            #[trigger] out@[i],
                            summarized(records@.take(k + 1))[i],
                        ) by {
                            if i < before.len() {
                                assert(out@[i] == before[i]);
                            }
                        }
                    }
                }
            },
            _ => {},
        }
        k = k + 1;
    }
    assert(records@.take(records@.len() as int) =~= records@);
    out
}

/// Record `k` of consistent records states a number when it states a
/// category.
pub open spec fn record_consistent_at(records: Seq<MessageRecord>, k: int) -> bool {
    records[k].category is Some ==> records[k].number is Some
}

/// The key of `e` reads back as the parameter of the first record named
/// like `e`.
pub open spec fn key_reads_back(records: Seq<MessageRecord>, e: ParameterEntry) -> bool {
    exists|k: int|
        #[trigger] entry_is_first(records, k, e) && parameter_key_outcome(e.key@) == Ok::<
            (u8, u8, u8),
            Seq<char>,
        >((records[k].discipline, records[k].category->Some_0, records[k].number->Some_0))
}

/// Every key that the parameter listing gives reads back, with
/// `grib_parameter_from_key`, as the parameter of the first submessage of
/// that name.
pub proof fn lemma_listed_parameter_keys_read_back(records: Seq<MessageRecord>, entries: Seq<ParameterEntry>)
    requires
        parameters_listed(records, entries),
    ensures
        forall|i: int| 0 <= i < entries.len() ==> key_reads_back(records, #[trigger] entries[i]),
{
    assert forall|i: int| 0 <= i < entries.len() implies key_reads_back(records, #[trigger] entries[i]) by {
        assert(entry_has_first(records, entries[i]));
        let k = choose|k: int| #[trigger] entry_is_first(records, k, entries[i]);
        lemma_parameter_key_roundtrip(
            records[k].discipline,
            records[k].category->Some_0,
            records[k].number->Some_0,
        );
    }
}

/// Every key that the surface listing gives reads back, with
/// `fixed_surfaces_from_key`, as the surfaces of a submessage of the
/// parameter.
pub proof fn lemma_listed_surface_keys_read_back(
    records: Seq<MessageRecord>,
    discipline: u8,
    category: u8,
    parameter: u8,
    entries: Seq<SurfaceEntry>,
)
    requires
        surfaces_listed(records, discipline, category, parameter, entries),
    ensures
        forall|i: int|
            0 <= i < entries.len() ==> exists|k: int|
                0 <= k < records.len() && has_parameter(records[k], discipline, category, parameter)
                    && records[k].surfaces is Some && surface_key_outcome(#[trigger] entries[i].key@)
                    == Ok::<(FixedSurface, FixedSurface), Seq<char>>(records[k].surfaces->Some_0),
{
    assert forall|i: int| 0 <= i < entries.len() implies exists|k: int|
        0 <= k < records.len() && has_parameter(records[k], discipline, category, parameter)
            && records[k].surfaces is Some && surface_key_outcome(#[trigger] entries[i].key@)
            == Ok::<(FixedSurface, FixedSurface), Seq<char>>(records[k].surfaces->Some_0) by {
        assert(entry_has_record(records, entries[i], discipline, category, parameter));
        let k = choose|k: int| #[trigger] entry_from_record(records, k, entries[i], discipline, category, parameter);
        let (s1, s2) = records[k].surfaces->Some_0;
        lemma_surface_key_roundtrip(s1, s2);
    }
}

} // verus!
