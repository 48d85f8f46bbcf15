//! The calls into the `grib` crate: reading a GRIB2 file from bytes, walking
//! its submessages and reading what the viewer needs of each, and the code
//! tables that name parameters and surface types.
use crate::catalog::MessageIndex;
use crate::calendar::{date_text_of, forecast_overflows, timestamp_in_range};
use crate::framing::grib_frames_fit;
use crate::grib_helpers::FixedSurface;
use grib::codetables::{CodeTable4_2, CodeTable4_5, Lookup};
use grib::{Grib2, GribError, SeekableGrib2Reader};
use std::io::Cursor;
use vstd::prelude::*;

verus! {

/// `grib::Grib2<R>`: a parsed GRIB2 file. Opaque here.
#[verifier::external_type_specification]
#[verifier::external_body]
#[verifier::reject_recursive_types(R)]
pub struct ExGrib2<R>(Grib2<R>);

/// `grib::SeekableGrib2Reader<R>`: the reader that a parsed file keeps.
/// Opaque here.
#[verifier::external_type_specification]
#[verifier::external_body]
#[verifier::reject_recursive_types(R)]
pub struct ExSeekableGrib2Reader<R>(SeekableGrib2Reader<R>);

/// `std::io::Cursor<T>`: the in-memory source of the reader. Opaque here.
#[verifier::external_type_specification]
#[verifier::external_body]
#[verifier::reject_recursive_types(T)]
pub struct ExCursor<T>(Cursor<T>);

/// A GRIB2 file read from bytes held in memory.
pub type GribFile = Grib2<SeekableGrib2Reader<Cursor<Vec<u8>>>>;

/// `grib::from_bytes` succeeds on these bytes: the bytes are a GRIB2 file
/// that the reader accepts.
pub uninterp spec fn grib_accepts(bytes: Seq<u8>) -> bool;

/// The name that code table 4.2 gives the parameter (discipline, category,
/// number), as `Display` of the table's lookup result shows it.
pub uninterp spec fn code_table_4_2_name(discipline: u8, category: u8, number: u8) -> Seq<char>;

/// The name that code table 4.5 gives a surface type, as `Display` of the
/// table's lookup result shows it.
pub uninterp spec fn code_table_4_5_name(surface_type: u8) -> Seq<char>;

/// `Display` of the value (`FixedSurface::value`, a float computed from the
/// scale factor and the scaled value) of a fixed surface.
pub uninterp spec fn surface_value_text(scale_factor: i8, scaled_value: i32) -> Seq<char>;

/// The unit that `FixedSurface::unit` gives a surface type, if any.
pub uninterp spec fn surface_unit_text(surface_type: u8) -> Option<Seq<char>>;

/// The bytes that the reader of a parsed file holds (in its cursor):
/// `grib::from_bytes` keeps the bytes it was given, and reading does not
/// change them.
pub uninterp spec fn grib_file_bytes(file: GribFile) -> Seq<u8>;

/// `grib::from_bytes`: parses a GRIB2 file held in memory. Whether it
/// succeeds depends on the bytes alone; the parsed file holds the bytes it
/// was read from; nothing is stated of the error. The reader subtracts
/// header sizes from the lengths that the data declares; `grib_frames_fit`
/// holds where none of these goes below zero or overflows, so that the
/// reader does not panic.
#[verifier::external_body]
pub fn read_grib(bytes: Vec<u8>) -> (r: Result<GribFile, GribError>)
    requires
        grib_frames_fit(bytes@),
    ensures
        r is Ok <==> grib_accepts(bytes@),
        r matches Ok(f) ==> grib_file_bytes(f) == bytes@,
{
    grib::from_bytes(bytes)
}

// What a file parsed from `bytes` holds: for each submessage `k` (in file
// order), the values that the reader gives for it. Parsing is a function of
// the bytes, so each depends on the bytes and `k` alone. Each wrapper below takes submessage `k` with
// `Grib2::iter().nth(k)`, reads it, and drops it before it returns: the
// submessage holds the file's reader borrowed while it lives, and the library
// hands none out, so no other borrow is live during these calls.

/// The message index (message, submessage) of each submessage of the file,
/// in file order, as `Grib2::len` and `SubmessageIterator::nth` show it.
pub uninterp spec fn grib_message_indices(bytes: Seq<u8>) -> Seq<(usize, usize)>;

/// The reader yields submessage `k` of the file: `Grib2::iter().nth(k)` is
/// `Some`.
pub uninterp spec fn grib_submessage_readable(bytes: Seq<u8>, k: int) -> bool;

/// `Indicator::discipline` of submessage `k`.
pub uninterp spec fn grib_discipline(bytes: Seq<u8>, k: int) -> u8;

/// `ProdDefinition::parameter_category` of submessage `k`.
pub uninterp spec fn grib_category(bytes: Seq<u8>, k: int) -> Option<u8>;

/// `ProdDefinition::parameter_number` of submessage `k`.
pub uninterp spec fn grib_number(bytes: Seq<u8>, k: int) -> Option<u8>;

/// `ProdDefinition::fixed_surfaces` of submessage `k`: for each surface its
/// type, scale factor and scaled value.
pub uninterp spec fn grib_surfaces(bytes: Seq<u8>, k: int) -> Option<((u8, i8, i32), (u8, i8, i32))>;

/// `Identification::ref_time_unchecked` of submessage `k`: year, month, day,
/// hour, minute and second as written.
pub uninterp spec fn grib_reference_time(bytes: Seq<u8>, k: int) -> (u16, u8, u8, u8, u8, u8);

/// `ProdDefinition::forecast_time` of submessage `k`: the number of its unit
/// in code table 4.4 and its value.
pub uninterp spec fn grib_forecast_time(bytes: Seq<u8>, k: int) -> Option<(u8, u32)>;

/// `SubMessage::describe` of submessage `k`.
pub uninterp spec fn grib_description(bytes: Seq<u8>, k: int) -> Seq<char>;

/// `TemporalInfo::forecast_time_target` of submessage `k`, in seconds since
/// the Unix epoch: its reference time plus its forecast time, where both are
/// valid and the forecast unit has a fixed length.
pub uninterp spec fn grib_forecast_target(bytes: Seq<u8>, k: int) -> Option<i64>;

/// The bytes that `SubMessage::dump` writes for submessage `k`.
pub uninterp spec fn grib_dump_bytes(bytes: Seq<u8>, k: int) -> Seq<u8>;

/// `Grib2::len`: the number of submessages of the file.
#[verifier::external_body]
pub fn submessage_count(file: &GribFile) -> (r: usize)
    ensures
        r == grib_message_indices(grib_file_bytes(*file)).len(),
{
    file.len()
}

/// The message index of submessage `k`, from `Grib2::iter().nth(k)`; `None`
/// past the last submessage, and where the reader does not yield it.
#[verifier::external_body]
pub fn message_index_at(file: &GribFile, k: usize) -> (r: Option<MessageIndex>)
    ensures
        k >= grib_message_indices(grib_file_bytes(*file)).len() ==> r is None,
        r is Some <==> grib_submessage_readable(grib_file_bytes(*file), k as int),
        r matches Some(index) ==> index == grib_message_indices(grib_file_bytes(*file))[k as int],
{
    match file.iter().nth(k) {
        Some((index, _)) => Some(index),
        None => None,
    }
}

/// `SubMessage::indicator` of submessage `k`: its discipline.
#[verifier::external_body]
pub fn discipline_at(file: &GribFile, k: usize) -> (r: Option<u8>)
    ensures
        r is Some <==> grib_submessage_readable(grib_file_bytes(*file), k as int),
        r matches Some(d) ==> d == grib_discipline(grib_file_bytes(*file), k as int),
{
    match file.iter().nth(k) {
        Some((_, m)) => Some(m.indicator().discipline),
        None => None,
    }
}

/// `ProdDefinition::parameter_category` of submessage `k`: `None` inside
/// where the product definition template is not supported.
#[verifier::external_body]
pub fn category_at(file: &GribFile, k: usize) -> (r: Option<Option<u8>>)
    ensures
        r is Some <==> grib_submessage_readable(grib_file_bytes(*file), k as int),
        r matches Some(c) ==> c == grib_category(grib_file_bytes(*file), k as int),
{
    match file.iter().nth(k) {
        Some((_, m)) => Some(m.prod_def().parameter_category()),
        None => None,
    }
}

/// `ProdDefinition::parameter_number` of submessage `k`: `None` inside where
/// the product definition template is not supported.
#[verifier::external_body]
pub fn number_at(file: &GribFile, k: usize) -> (r: Option<Option<u8>>)
    ensures
        r is Some <==> grib_submessage_readable(grib_file_bytes(*file), k as int),
        r matches Some(n) ==> n == grib_number(grib_file_bytes(*file), k as int),
{
    match file.iter().nth(k) {
        Some((_, m)) => Some(m.prod_def().parameter_number()),
        None => None,
    }
}

/// `ProdDefinition::fixed_surfaces` of submessage `k`, field for field.
#[verifier::external_body]
pub fn surfaces_at(file: &GribFile, k: usize) -> (r: Option<Option<((u8, i8, i32), (u8, i8, i32))>>)
    ensures
        r is Some <==> grib_submessage_readable(grib_file_bytes(*file), k as int),
        r matches Some(s) ==> s == grib_surfaces(grib_file_bytes(*file), k as int),
{
    match file.iter().nth(k) {
        Some((_, m)) => Some(m.prod_def().fixed_surfaces().map(
            |(a, b)|
                (
                    (a.surface_type, a.scale_factor, a.scaled_value),
                    (b.surface_type, b.scale_factor, b.scaled_value),
                ),
        )),
        None => None,
    }
}

/// `Identification::ref_time_unchecked` of submessage `k`, field for field.
#[verifier::external_body]
pub fn reference_time_at(file: &GribFile, k: usize) -> (r: Option<(u16, u8, u8, u8, u8, u8)>)
    ensures
        r is Some <==> grib_submessage_readable(grib_file_bytes(*file), k as int),
        r matches Some(t) ==> t == grib_reference_time(grib_file_bytes(*file), k as int),
{
    match file.iter().nth(k) {
        Some((_, m)) => {
            let t = m.identification().ref_time_unchecked();
            Some((t.year, t.month, t.day, t.hour, t.minute, t.second))
        },
        None => None,
    }
}

/// `ProdDefinition::forecast_time` of submessage `k`: the unit as its
/// number in code table 4.4, and the value.
#[verifier::external_body]
pub fn forecast_time_at(file: &GribFile, k: usize) -> (r: Option<Option<(u8, u32)>>)
    ensures
        r is Some <==> grib_submessage_readable(grib_file_bytes(*file), k as int),
        r matches Some(f) ==> f == grib_forecast_time(grib_file_bytes(*file), k as int),
{
    match file.iter().nth(k) {
        Some((_, m)) => Some(m.prod_def().forecast_time().map(|ft| match ft.unit {
            grib::Code::Name(unit) => (u8::from(unit), ft.value),
            grib::Code::Num(unit) => (unit, ft.value),
        })),
        None => None,
    }
}

/// `SubMessage::temporal_info` of submessage `k`: its forecast target time
/// (`DateTime::timestamp`). `TemporalInfo` adds the forecast time to the
/// reference time with chrono's `+`, which panics past chrono's last second;
/// the caller rules that out.
#[verifier::external_body]
pub fn forecast_target_at(file: &GribFile, k: usize) -> (r: Option<Option<i64>>)
    requires
        !forecast_overflows(
            grib_reference_time(grib_file_bytes(*file), k as int),
            grib_forecast_time(grib_file_bytes(*file), k as int),
        ),
    ensures
        r is Some <==> grib_submessage_readable(grib_file_bytes(*file), k as int),
        r matches Some(t) ==> t == grib_forecast_target(grib_file_bytes(*file), k as int),
{
    match file.iter().nth(k) {
        Some((_, m)) => Some(m.temporal_info().forecast_time_target.map(|t| t.timestamp())),
        None => None,
    }
}

/// `SubMessage::describe` of submessage `k`.
#[verifier::external_body]
pub fn describe_submessage(file: &GribFile, k: usize) -> (r: Option<String>)
    ensures
        r is Some <==> grib_submessage_readable(grib_file_bytes(*file), k as int),
        r matches Some(s) ==> s@ == grib_description(grib_file_bytes(*file), k as int),
{
    match file.iter().nth(k) {
        Some((_, m)) => Some(m.describe()),
        None => None,
    }
}

/// `SubMessage::dump` of submessage `k` into a `Vec<u8>`. Writing to a
/// `Vec<u8>` does not fail (std documents that it appends and grows as
/// needed), and `dump` fails only where its writer does.
#[verifier::external_body]
pub fn dump_submessage(file: &GribFile, k: usize) -> (r: Option<Vec<u8>>)
    ensures
        r is Some <==> grib_submessage_readable(grib_file_bytes(*file), k as int),
        r matches Some(b) ==> b@ == grib_dump_bytes(grib_file_bytes(*file), k as int),
{
    let mut buffer = Vec::new();
    match file.iter().nth(k) {
        Some((_, m)) => m.dump(&mut buffer).ok().map(|_| buffer),
        None => None,
    }
}

/// What `String::from_utf8` makes of these bytes: their text, or `None`
/// where they are not UTF-8.
pub uninterp spec fn utf8_text(bytes: Seq<u8>) -> Option<Seq<char>>;

/// `String::from_utf8`: the text of the bytes, or the error's `Display` text
/// where they are not UTF-8. The error text is not stated.
#[verifier::external_body]
pub fn text_from_utf8(bytes: Vec<u8>) -> (r: Result<String, String>)
    ensures
        match (r, utf8_text(bytes@)) {
            (Ok(s), Some(t)) => s@ == t,
            (Err(_), None) => true,
            _ => false,
        },
{
    String::from_utf8(bytes).map_err(|e| e.to_string())
}

/// `DateTime::<Utc>::from_timestamp` followed by `date_naive` and its
/// `Display`: the text "YYYY-MM-DD" of the UTC date of `t`.
#[verifier::external_body]
pub fn utc_date_text(t: i64) -> (r: Option<String>)
    requires
        timestamp_in_range(t as int),
    ensures
        r is Some,
        r matches Some(s) ==> s@ == date_text_of(t as int),
{
    chrono::DateTime::from_timestamp(t, 0).map(|dt| dt.date_naive().to_string())
}

/// `CodeTable4_2::lookup`: the name of a parameter in code table 4.2, as
/// text. The text is named by `code_table_4_2_name`: it depends only on the
/// three numbers.
#[verifier::external_body]
pub fn parameter_name(discipline: u8, category: u8, number: u8) -> (r: String)
    ensures
        r@ == code_table_4_2_name(discipline, category, number),
{
    CodeTable4_2::new(discipline, category).lookup(usize::from(number)).to_string()
}

/// `CodeTable4_5::lookup`: the name of a surface type in code table 4.5, as
/// text. The text is named by `code_table_4_5_name`: it depends only on the
/// type.
#[verifier::external_body]
pub fn surface_kind_name(surface_type: u8) -> (r: String)
    ensures
        r@ == code_table_4_5_name(surface_type),
{
    CodeTable4_5.lookup(usize::from(surface_type)).to_string()
}

/// `FixedSurface::value`, shown with `Display`. The text is named by
/// `surface_value_text`: it depends only on the scale factor and the scaled
/// value.
#[verifier::external_body]
pub fn surface_value(surface: &FixedSurface) -> (r: String)
    ensures
        r@ == surface_value_text(surface.scale_factor, surface.scaled_value),
{
    format!(
        "{}",
        grib::FixedSurface::new(surface.surface_type, surface.scale_factor, surface.scaled_value).value()
    )
}

/// `FixedSurface::unit`: the unit of a surface type, if the type has one.
/// The text is named by `surface_unit_text`: it depends only on the type.
#[verifier::external_body]
pub fn surface_unit(surface_type: u8) -> (r: Option<String>)
    ensures
        match (r, surface_unit_text(surface_type)) {
            (Some(a), Some(b)) => a@ == b,
            (None, None) => true,
            _ => false,
        },
{
    grib::FixedSurface::new(surface_type, 0, 0).unit().map(|u| u.to_string())
}

} // verus!
