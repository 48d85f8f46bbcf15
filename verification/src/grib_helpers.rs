//! Parameter keys ("grib2_<discipline>_<category>_<parameter>") and surface
//! keys ("surface_<t1>_<f1>_<v1>_<t2>_<f2>_<v2>"): writing them and reading
//! them back.
use crate::error::GribViewerError;
use crate::grib_source::{
    code_table_4_5_name, surface_kind_name, surface_unit, surface_unit_text, surface_value,
    surface_value_text,
};
use crate::text::{
    chars_of, is_digit, lemma_decimal_digits, lemma_parse_integer_bounded,
    lemma_parse_signed_decimal, lemma_split_concat, lemma_split_no_sep, parse_int_in, parse_integer,
    push_signed_decimal, signed_decimal, split_chars, split_on, string_from_chars, IntErrorKind,
    decimal,
};
use vstd::prelude::*;

verus! {

/// A fixed surface of a GRIB2 product definition: its type (code table 4.5),
/// scale factor and scaled value.
#[derive(Debug, Clone, Copy, PartialEq, Eq, Structural)]
pub struct FixedSurface {
    pub surface_type: u8,
    pub scale_factor: i8,
    pub scaled_value: i32,
}

// ---------------------------------------------------------------------------
// Joining and splitting on '_'
// ---------------------------------------------------------------------------

/// The pieces joined with `sep` between neighbours.
pub open spec fn join_with(parts: Seq<Seq<char>>, sep: char) -> Seq<char>
    decreases parts.len(),
{
    if parts.len() <= 1 {
        if parts.len() == 1 {
            parts[0]
        } else {
            Seq::<char>::empty()
        }
    } else {
        join_with(parts.drop_last(), sep) + seq![sep] + parts.last()
    }
}

/// Splitting a join of pieces that hold no separator gives the pieces back.
pub proof fn lemma_split_join(parts: Seq<Seq<char>>, sep: char)
    requires
        parts.len() >= 1,
        forall|k: int| 0 <= k < parts.len() ==> !(#[trigger] parts[k]).contains(sep),
    ensures
        split_on(join_with(parts, sep), sep) == parts,
    decreases parts.len(),
{
    if parts.len() == 1 {
        lemma_split_no_sep(parts[0], sep);
        assert(seq![parts[0]] =~= parts);
    } else {
        let init = parts.drop_last();
        assert forall|k: int| 0 <= k < init.len() implies !(#[trigger] init[k]).contains(sep) by {
            assert(init[k] == parts[k]);
        }
        lemma_split_join(init, sep);
        lemma_split_concat(join_with(init, sep), parts.last(), sep);
        assert(!parts[parts.len() - 1].contains(sep));
        lemma_split_no_sep(parts.last(), sep);
        assert(init + seq![parts.last()] =~= parts);
    }
}

/// Decimal representations hold no '_'.
proof fn lemma_decimal_no_underscore(i: int)
    ensures
        !signed_decimal(i).contains('_'),
{
    let m = (if i < 0 { -i } else { i }) as nat;
    lemma_decimal_digits(m);
    if signed_decimal(i).contains('_') {
        let k = choose|k: int| 0 <= k < signed_decimal(i).len() && signed_decimal(i)[k] == '_';
        if i < 0 {
            assert(signed_decimal(i)[k] == (seq!['-'] + decimal(m))[k]);
            if k > 0 {
                assert(signed_decimal(i)[k] == decimal(m)[k - 1]);
            }
        } else {
            assert(is_digit(decimal(m)[k]));
        }
    }
}

// ---------------------------------------------------------------------------
// Parameter keys
// ---------------------------------------------------------------------------

pub open spec fn grib2_word() -> Seq<char> {
    seq!['g', 'r', 'i', 'b', '2']
}

pub open spec fn surface_word() -> Seq<char> {
    seq!['s', 'u', 'r', 'f', 'a', 'c', 'e']
}

/// The key of a parameter: "grib2_<discipline>_<category>_<parameter>".
pub open spec fn parameter_key_text(discipline: u8, category: u8, parameter: u8) -> Seq<char> {
    join_with(
        seq![
            grib2_word(),
            signed_decimal(discipline as int),
            signed_decimal(category as int),
            signed_decimal(parameter as int),
        ],
        '_',
    )
}

/// What reading a parameter key gives: the three numbers, or the message of
/// the `InvalidKey` error.
pub open spec fn parameter_key_outcome(key: Seq<char>) -> Result<(u8, u8, u8), Seq<char>> {
    let parts = split_on(key, '_');
    if parts.len() != 4 || parts[0] != grib2_word() {
        Err("invalid key format, expected 'grib2_<discipline>_<category>_<parameter>'"@)
    } else {
        match parse_integer(parts[1], 0, 255) {
            Err(e) => Err("Failed to parse discipline: "@ + e.text()),
            Ok(d) => match parse_integer(parts[2], 0, 255) {
                Err(e) => Err("Failed to parse category: "@ + e.text()),
                Ok(c) => match parse_integer(parts[3], 0, 255) {
                    Err(e) => Err("Failed to parse parameter: "@ + e.text()),
                    Ok(p) => Ok((d as u8, c as u8, p as u8)),
                },
            },
        }
    }
}

/// A result agrees with an outcome: the same value, or an `InvalidKey` error
/// with the outcome's message.
pub open spec fn agrees_with<T>(r: Result<T, GribViewerError>, outcome: Result<T, Seq<char>>) -> bool {
    match (r, outcome) {
        (Ok(a), Ok(b)) => a == b,
        (Err(GribViewerError::InvalidKey(m)), Err(t)) => m@ == t,
        _ => false,
    }
}

/// Builds the `InvalidKey` error with the message `prefix` followed by the
/// text of `kind`.
fn field_error(prefix: &str, kind: IntErrorKind) -> (r: GribViewerError)
    ensures
        r matches GribViewerError::InvalidKey(m) && m@ == prefix@ + kind.text(),
{
    let detail = kind.describe();
    GribViewerError::InvalidKey(String::from_str(prefix).concat(detail.as_str()))
}

/// Reads a parameter key "grib2_<discipline>_<category>_<parameter>" into
/// its three numbers; the error says which part is wrong and why.
pub fn grib_parameter_from_key(key: &str) -> (r: Result<(u8, u8, u8), GribViewerError>)
    ensures
        agrees_with(r, parameter_key_outcome(key@)),
{
    let chars = chars_of(key);
    let parts = split_chars(&chars, '_');
    if parts.len() != 4 || !is_word(&parts[0], 1) {
        return Err(
            GribViewerError::InvalidKey(
                String::from_str(
                    "invalid key format, expected 'grib2_<discipline>_<category>_<parameter>'",
                ),
            ),
        );
    }
    proof {
        assert(parts@[0]@ == grib2_word());
        assert(parts@[1]@ == split_on(key@, '_')[1]);
        assert(parts@[2]@ == split_on(key@, '_')[2]);
        assert(parts@[3]@ == split_on(key@, '_')[3]);
    }
    let discipline = match parse_int_in(&parts[1], 0, 255) {
        Ok(v) => v,
        Err(e) => {
            return Err(field_error("Failed to parse discipline: ", e));
        },
    };
    let category = match parse_int_in(&parts[2], 0, 255) {
        Ok(v) => v,
        Err(e) => {
            return Err(field_error("Failed to parse category: ", e));
        },
    };
    let parameter = match parse_int_in(&parts[3], 0, 255) {
        Ok(v) => v,
        Err(e) => {
            return Err(field_error("Failed to parse parameter: ", e));
        },
    };
    proof {
        lemma_parse_integer_bounded(parts@[1]@, 0, 255);
        lemma_parse_integer_bounded(parts@[2]@, 0, 255);
        lemma_parse_integer_bounded(parts@[3]@, 0, 255);
    }
    Ok((discipline as u8, category as u8, parameter as u8))
}

/// Whether `part` spells "grib2" (`which == 1`) or "surface" (otherwise).
fn is_word(part: &Vec<char>, which: u8) -> (r: bool)
    ensures
        r == (part@ == if which == 1 {
            grib2_word()
        } else {
            surface_word()
        }),
{
    let word: Vec<char> = if which == 1 {
        vec!['g', 'r', 'i', 'b', '2']
    } else {
        vec!['s', 'u', 'r', 'f', 'a', 'c', 'e']
    };
    let ghost target = if which == 1 {
        grib2_word()
    } else {
        surface_word()
    };
    assert(word@ =~= target);
    if part.len() != word.len() {
        return false;
    }
    let mut i: usize = 0;
    while i < word.len()
        invariant
            i <= word@.len(),
            part@.len() == word@.len(),
            word@ == target,
            target == (if which == 1 {
                grib2_word()
            } else {
                surface_word()
            }),
            forall|k: int| 0 <= k < i ==> part@[k] == word@[k],
        decreases word.len() - i,
    {
        if part[i] != word[i] {
            assert(part@[i as int] != target[i as int]);
            return false;
        }
        i = i + 1;
    }
    assert(part@ =~= word@);
    true
}

/// Writes the key of a parameter, "grib2_<discipline>_<category>_<parameter>".
pub fn parameter_key(discipline: u8, category: u8, parameter: u8) -> (r: String)
    ensures
        r@ == parameter_key_text(discipline, category, parameter),
{
    let mut out: Vec<char> = vec!['g', 'r', 'i', 'b', '2'];
    assert(out@ =~= grib2_word());
    let ghost p0 = out@;
    out.push('_');
    push_signed_decimal(&mut out, discipline as i64);
    let ghost p1 = out@;
    out.push('_');
    push_signed_decimal(&mut out, category as i64);
    let ghost p2 = out@;
    out.push('_');
    push_signed_decimal(&mut out, parameter as i64);
    let ghost parts = seq![
        grib2_word(),
        signed_decimal(discipline as int),
        signed_decimal(category as int),
        signed_decimal(parameter as int),
    ];
    proof {
        assert(join_with(parts.take(1), '_') == p0) by {
            assert(parts.take(1) =~= seq![grib2_word()]);
        }
        assert(parts.take(2).drop_last() =~= parts.take(1));
        assert(join_with(parts.take(2), '_') =~= p1);
        assert(parts.take(3).drop_last() =~= parts.take(2));
        assert(join_with(parts.take(3), '_') =~= p2);
        assert(parts.drop_last() =~= parts.take(3));
        assert(out@ =~= join_with(parts, '_'));
    }
    string_from_chars(&out)
}

/// Reading the key written for a parameter gives the parameter back.
pub proof fn lemma_parameter_key_roundtrip(discipline: u8, category: u8, parameter: u8)
    ensures
        parameter_key_outcome(parameter_key_text(discipline, category, parameter)) == Ok::<
            (u8, u8, u8),
            Seq<char>,
        >((discipline, category, parameter)),
{
    let parts = seq![
        grib2_word(),
        signed_decimal(discipline as int),
        signed_decimal(category as int),
        signed_decimal(parameter as int),
    ];
    lemma_decimal_no_underscore(discipline as int);
    lemma_decimal_no_underscore(category as int);
    lemma_decimal_no_underscore(parameter as int);
    assert(!grib2_word().contains('_')) by {
        if grib2_word().contains('_') {
            let k = choose|k: int| 0 <= k < grib2_word().len() && grib2_word()[k] == '_';
        }
    }
    assert forall|k: int| 0 <= k < parts.len() implies !(#[trigger] parts[k]).contains('_') by {
        if k == 0 {
        } else if k == 1 {
        } else if k == 2 {
        } else {
        }
    }
    lemma_split_join(parts, '_');
    lemma_parse_signed_decimal(discipline as int, 0, 255);
    lemma_parse_signed_decimal(category as int, 0, 255);
    lemma_parse_signed_decimal(parameter as int, 0, 255);
}

// ---------------------------------------------------------------------------
// Surface keys
// ---------------------------------------------------------------------------

/// The key of a pair of fixed surfaces:
/// "surface_<t1>_<f1>_<v1>_<t2>_<f2>_<v2>".
pub open spec fn surface_key_text(surface1: FixedSurface, surface2: FixedSurface) -> Seq<char> {
    join_with(
        seq![
            surface_word(),
            signed_decimal(surface1.surface_type as int),
            signed_decimal(surface1.scale_factor as int),
            signed_decimal(surface1.scaled_value as int),
            signed_decimal(surface2.surface_type as int),
            signed_decimal(surface2.scale_factor as int),
            signed_decimal(surface2.scaled_value as int),
        ],
        '_',
    )
}

pub open spec fn i8_range(s: Seq<char>) -> Result<int, IntErrorKind> {
    parse_integer(s, -128, 127)
}

pub open spec fn i32_range(s: Seq<char>) -> Result<int, IntErrorKind> {
    parse_integer(s, -0x8000_0000, 0x7fff_ffff)
}

/// What reading a surface key gives: the two surfaces, or the message of the
/// `InvalidKey` error. The parts are read in order; the first that fails
/// decides the message.
pub open spec fn surface_key_outcome(key: Seq<char>) -> Result<(FixedSurface, FixedSurface), Seq<char>> {
    let parts = split_on(key, '_');
    if parts.len() != 7 || parts[0] != surface_word() {
        Err("invalid key format, expected 'surface_<t1>_<f1>_<v1>_<t2>_<f2>_<v2>'"@)
    } else {
        match parse_integer(parts[1], 0, 255) {
            Err(e) => Err("Failed to parse surface_type: "@ + e.text()),
            Ok(t1) => match i8_range(parts[2]) {
                Err(e) => Err("Failed to parse scale_factor: "@ + e.text()),
                Ok(f1) => match i32_range(parts[3]) {
                    Err(e) => Err("Failed to parse scaled_value: "@ + e.text()),
                    Ok(v1) => match parse_integer(parts[4], 0, 255) {
                        Err(e) => Err("Failed to parse surface_type: "@ + e.text()),
                        Ok(t2) => match i8_range(parts[5]) {
                            Err(e) => Err("Failed to parse scale_factor: "@ + e.text()),
                            Ok(f2) => match i32_range(parts[6]) {
                                Err(e) => Err("Failed to parse scaled_value: "@ + e.text()),
                                Ok(v2) => Ok(
                                    (
                                        FixedSurface {
                                            surface_type: t1 as u8,
                                            scale_factor: f1 as i8,
                                            scaled_value: v1 as i32,
                                        },
                                        FixedSurface {
                                            surface_type: t2 as u8,
                                            scale_factor: f2 as i8,
                                            scaled_value: v2 as i32,
                                        },
                                    ),
                                ),
                            },
                        },
                    },
                },
            },
        }
    }
}

/// Reads the three numbers of one surface from `parts[first..first + 3]`.
fn surface_from_parts(parts: &Vec<Vec<char>>, first: usize) -> (r: Result<
    FixedSurface,
    GribViewerError,
>)
    requires
        first == 1 || first == 4,
        first + 3 <= parts@.len(),
    ensures
        match r {
            Ok(s) => parse_integer(parts@[first as int]@, 0, 255) == Ok::<int, IntErrorKind>(
                s.surface_type as int,
            ) && i8_range(parts@[first + 1]@) == Ok::<int, IntErrorKind>(s.scale_factor as int)
                && i32_range(parts@[first + 2]@) == Ok::<int, IntErrorKind>(s.scaled_value as int),
            Err(GribViewerError::InvalidKey(m)) => match parse_integer(
                parts@[first as int]@,
                0,
                255,
            ) {
                Err(e) => m@ == "Failed to parse surface_type: "@ + e.text(),
                Ok(_) => match i8_range(parts@[first + 1]@) {
                    Err(e) => m@ == "Failed to parse scale_factor: "@ + e.text(),
                    Ok(_) => match i32_range(parts@[first + 2]@) {
                        Err(e) => m@ == "Failed to parse scaled_value: "@ + e.text(),
                        Ok(_) => false,
                    },
                },
            },
            Err(_) => false,
        },
{
    let surface_type = match parse_int_in(&parts[first], 0, 255) {
        Ok(v) => v,
        Err(e) => {
            return Err(field_error("Failed to parse surface_type: ", e));
        },
    };
    let scale_factor = match parse_int_in(&parts[first + 1], -128, 127) {
        Ok(v) => v,
        Err(e) => {
            return Err(field_error("Failed to parse scale_factor: ", e));
        },
    };
    let scaled_value = match parse_int_in(&parts[first + 2], -0x8000_0000, 0x7fff_ffff) {
        Ok(v) => v,
        Err(e) => {
            return Err(field_error("Failed to parse scaled_value: ", e));
        },
    };
    proof {
        lemma_parse_integer_bounded(parts@[first as int]@, 0, 255);
        lemma_parse_integer_bounded(parts@[first + 1]@, -128, 127);
        lemma_parse_integer_bounded(parts@[first + 2]@, -0x8000_0000, 0x7fff_ffff);
    }
    Ok(
        FixedSurface {
            surface_type: surface_type as u8,
            scale_factor: scale_factor as i8,
            scaled_value: scaled_value as i32,
        },
    )
}

/// Reads a surface key "surface_<t1>_<f1>_<v1>_<t2>_<f2>_<v2>" into its two
/// fixed surfaces; the error says which part is wrong and why.
pub fn fixed_surfaces_from_key(key: &str) -> (r: Result<(FixedSurface, FixedSurface), GribViewerError>)
    ensures
        agrees_with(r, surface_key_outcome(key@)),
{
    let chars = chars_of(key);
    let parts = split_chars(&chars, '_');
    if parts.len() != 7 || !is_word(&parts[0], 2) {
        return Err(
            GribViewerError::InvalidKey(
                String::from_str("invalid key format, expected 'surface_<t1>_<f1>_<v1>_<t2>_<f2>_<v2>'"),
            ),
        );
    }
    proof {
        assert(parts@[0]@ == surface_word());
        assert forall|k: int| 1 <= k < 7 implies #[trigger] parts@[k]@ == split_on(key@, '_')[k] by {}
    }
    let first = surface_from_parts(&parts, 1)?;
    let second = surface_from_parts(&parts, 4)?;
    Ok((first, second))
}

/// The characters of the key of a pair of fixed surfaces,
/// "surface_<t1>_<f1>_<v1>_<t2>_<f2>_<v2>".
pub fn surface_key_chars(surface1: &FixedSurface, surface2: &FixedSurface) -> (r: Vec<char>)
    ensures
        r@ == surface_key_text(*surface1, *surface2),
{
    let mut out: Vec<char> = vec!['s', 'u', 'r', 'f', 'a', 'c', 'e'];
    assert(out@ =~= surface_word());
    let ghost p0 = out@;
    out.push('_');
    push_signed_decimal(&mut out, surface1.surface_type as i64);
    let ghost p1 = out@;
    out.push('_');
    push_signed_decimal(&mut out, surface1.scale_factor as i64);
    let ghost p2 = out@;
    out.push('_');
    push_signed_decimal(&mut out, surface1.scaled_value as i64);
    let ghost p3 = out@;
    out.push('_');
    push_signed_decimal(&mut out, surface2.surface_type as i64);
    let ghost p4 = out@;
    out.push('_');
    push_signed_decimal(&mut out, surface2.scale_factor as i64);
    let ghost p5 = out@;
    out.push('_');
    push_signed_decimal(&mut out, surface2.scaled_value as i64);
    let ghost parts = seq![
        surface_word(),
        signed_decimal(surface1.surface_type as int),
        signed_decimal(surface1.scale_factor as int),
        signed_decimal(surface1.scaled_value as int),
        signed_decimal(surface2.surface_type as int),
        signed_decimal(surface2.scale_factor as int),
        signed_decimal(surface2.scaled_value as int),
    ];
    proof {
        assert(join_with(parts.take(1), '_') == p0) by {
            assert(parts.take(1) =~= seq![surface_word()]);
        }
        assert(parts.take(2).drop_last() =~= parts.take(1));
        assert(join_with(parts.take(2), '_') =~= p1);
        assert(parts.take(3).drop_last() =~= parts.take(2));
        assert(join_with(parts.take(3), '_') =~= p2);
        assert(parts.take(4).drop_last() =~= parts.take(3));
        assert(join_with(parts.take(4), '_') =~= p3);
        assert(parts.take(5).drop_last() =~= parts.take(4));
        assert(join_with(parts.take(5), '_') =~= p4);
        assert(parts.take(6).drop_last() =~= parts.take(5));
        assert(join_with(parts.take(6), '_') =~= p5);
        assert(parts.drop_last() =~= parts.take(6));
        assert(out@ =~= join_with(parts, '_'));
    }
    out
}

/// Writes the key of a pair of fixed surfaces,
/// "surface_<t1>_<f1>_<v1>_<t2>_<f2>_<v2>".
pub fn surface_key(surface1: &FixedSurface, surface2: &FixedSurface) -> (r: String)
    ensures
        r@ == surface_key_text(*surface1, *surface2),
{
    let chars = surface_key_chars(surface1, surface2);
    string_from_chars(&chars)
}

/// Reading the key written for two fixed surfaces gives them back.
pub proof fn lemma_surface_key_roundtrip(surface1: FixedSurface, surface2: FixedSurface)
    ensures
        surface_key_outcome(surface_key_text(surface1, surface2)) == Ok::<
            (FixedSurface, FixedSurface),
            Seq<char>,
        >((surface1, surface2)),
{
    let parts = seq![
        surface_word(),
        signed_decimal(surface1.surface_type as int),
        signed_decimal(surface1.scale_factor as int),
        signed_decimal(surface1.scaled_value as int),
        signed_decimal(surface2.surface_type as int),
        signed_decimal(surface2.scale_factor as int),
        signed_decimal(surface2.scaled_value as int),
    ];
    lemma_decimal_no_underscore(surface1.surface_type as int);
    lemma_decimal_no_underscore(surface1.scale_factor as int);
    lemma_decimal_no_underscore(surface1.scaled_value as int);
    lemma_decimal_no_underscore(surface2.surface_type as int);
    lemma_decimal_no_underscore(surface2.scale_factor as int);
    lemma_decimal_no_underscore(surface2.scaled_value as int);
    assert(!surface_word().contains('_')) by {
        if surface_word().contains('_') {
            let k = choose|k: int| 0 <= k < surface_word().len() && surface_word()[k] == '_';
        }
    }
    assert forall|k: int| 0 <= k < parts.len() implies !(#[trigger] parts[k]).contains('_') by {
        if k == 0 {
        } else if k == 1 {
        } else if k == 2 {
        } else if k == 3 {
        } else if k == 4 {
        } else if k == 5 {
        } else {
        }
    }
    lemma_split_join(parts, '_');
    lemma_parse_signed_decimal(surface1.surface_type as int, 0, 255);
    lemma_parse_signed_decimal(surface1.scale_factor as int, -128, 127);
    lemma_parse_signed_decimal(surface1.scaled_value as int, -0x8000_0000, 0x7fff_ffff);
    lemma_parse_signed_decimal(surface2.surface_type as int, 0, 255);
    lemma_parse_signed_decimal(surface2.scale_factor as int, -128, 127);
    lemma_parse_signed_decimal(surface2.scaled_value as int, -0x8000_0000, 0x7fff_ffff);
}

// ---------------------------------------------------------------------------
// Describing surfaces
// ---------------------------------------------------------------------------

/// The unit of a surface type, or nothing.
pub open spec fn unit_or_empty(surface_type: u8) -> Seq<char> {
    match surface_unit_text(surface_type) {
        Some(u) => u,
        None => Seq::<char>::empty(),
    }
}

/// "<type name>: <value><unit>" for one fixed surface.
pub open spec fn surface_text(s: FixedSurface) -> Seq<char> {
    code_table_4_5_name(s.surface_type) + ": "@ + surface_value_text(s.scale_factor, s.scaled_value)
        + unit_or_empty(s.surface_type)
}

/// The description of two fixed surfaces: the first alone when the second
/// is missing (type 255), else "<first> - <second>".
pub open spec fn surfaces_description(surface1: FixedSurface, surface2: FixedSurface) -> Seq<char> {
    if surface2.surface_type == 255 {
        surface_text(surface1)
    } else {
        surface_text(surface1) + " - "@ + surface_text(surface2)
    }
}

/// The description of two fixed surfaces is built from the description of
/// each surface on its own (written with a missing partner, type 255): the
/// first alone when the second is missing, else the first, " - ", and then
/// the second. So the part after " - " describes the second surface.
pub proof fn lemma_surfaces_description_parts(
    surface1: FixedSurface,
    surface2: FixedSurface,
    missing: FixedSurface,
)
    requires
        missing.surface_type == 255,
    ensures
        surface2.surface_type == 255 ==> surfaces_description(surface1, surface2)
            == surfaces_description(surface1, missing),
        surface2.surface_type != 255 ==> surfaces_description(surface1, surface2)
            == surfaces_description(surface1, missing) + " - "@ + surfaces_description(surface2, missing),
{
}

fn describe_surface(s: &FixedSurface) -> (r: String)
    ensures
        r@ == surface_text(*s),
{
    let kind_name = surface_kind_name(s.surface_type);
    let value = surface_value(s);
    let with_value = kind_name.concat(": ").concat(value.as_str());
    match surface_unit(s.surface_type) {
        Some(u) => with_value.concat(u.as_str()),
        None => {
            assert(with_value@ + Seq::<char>::empty() =~= with_value@);
            with_value
        },
    }
}

/// Describes two fixed surfaces for a reader: type name, value and unit of
/// each, or of the first alone when the second is missing (type 255).
pub fn format_surfaces(surface1: &FixedSurface, surface2: &FixedSurface) -> (r: String)
    ensures
        r@ == surfaces_description(*surface1, *surface2),
{
    let first = describe_surface(surface1);
    if surface2.surface_type == 255 {
        first
    } else {
        let second = describe_surface(surface2);
        first.concat(" - ").concat(second.as_str())
    }
}

} // verus!
