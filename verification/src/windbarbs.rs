//! Arrows and wind barbs of a vector field: which SVG path template draws a
//! vector, and filling in a template's placement.
use crate::text::{
    chars_of, decimal, push_signed_decimal, push_str_chars, signed_decimal, string_from_chars,
};
use vstd::prelude::*;

verus! {

/// How a vector is drawn.
#[derive(Debug, Clone, Copy, PartialEq, Eq, Structural)]
pub enum ArrowType {
    /// An arrow that pivots around its tip.
    PivotTip,
    /// An arrow that pivots around its centre.
    PivotCenter,
    /// A wind barb, by speed in knots.
    WindBarb,
}

/// The default arrow style is an arrow that pivots around its tip.
impl Default for ArrowType {
    fn default() -> (r: ArrowType)
        ensures
            r == ArrowType::PivotTip,
    {
        ArrowType::PivotTip
    }
}

/// The speed of a vector, in knots, as the choice of wind barb needs it.
#[derive(Debug, Clone, Copy, PartialEq, Eq, Structural)]
pub enum SpeedClass {
    /// Below 1 knot.
    Calm,
    /// From 1 up to 3.5 knots.
    Light,
    /// 187.5 knots or more.
    Max,
    /// Otherwise: the speed rounded to a multiple of 5 knots.
    Rounded(i32),
}

/// There is a wind barb template for `knots`: 0, 2, and the multiples of 5
/// from 5 to 190.
pub open spec fn barb_template_exists(knots: int) -> bool {
    knots == 0 || knots == 2 || (5 <= knots <= 190 && knots % 5 == 0)
}

/// A wind barb of a speed rounded to `n` knots is drawn with the template
/// "knot<n>" for each `n` that is a multiple of 5 from 5 to 190; for any
/// other `n` other than 0 and 2 (which have templates too) it falls back to
/// the calm circle "knot0".
pub proof fn lemma_barb_template_of_speed(n: i32)
    ensures
        5 <= n <= 190 && n % 5 == 0 ==> arrow_template_name(ArrowType::WindBarb, SpeedClass::Rounded(n))
            == "knot"@ + decimal(n as nat),
        n == 0 ==> arrow_template_name(ArrowType::WindBarb, SpeedClass::Rounded(n)) == "knot"@ + decimal(0),
        n == 2 ==> arrow_template_name(ArrowType::WindBarb, SpeedClass::Rounded(n)) == "knot"@ + decimal(2),
        !(n == 0 || n == 2 || (5 <= n <= 190 && n % 5 == 0)) ==> arrow_template_name(
            ArrowType::WindBarb,
            SpeedClass::Rounded(n),
        ) == "knot0"@,
{
}

/// The name of the SVG path template that draws a vector: the arrow of the
/// arrow type, or for a wind barb "knot<speed>", where a speed without a
/// template falls back to "knot0".
pub open spec fn arrow_template_name(arrow_type: ArrowType, speed: SpeedClass) -> Seq<char> {
    match arrow_type {
        ArrowType::PivotCenter => "arrow-pivot-center"@,
        ArrowType::PivotTip => "arrow-pivot-tip"@,
        ArrowType::WindBarb => match speed {
            SpeedClass::Calm => "knot0"@,
            SpeedClass::Light => "knot2"@,
            SpeedClass::Max => "knot190"@,
            SpeedClass::Rounded(n) => if barb_template_exists(n as int) {
                "knot"@ + signed_decimal(n as int)
            } else {
                "knot0"@
            },
        },
    }
}

/// The name of the SVG path template that draws a vector of the given
/// speed with the given arrow type.
pub fn arrow_template_key(arrow_type: &ArrowType, speed: SpeedClass) -> (r: String)
    ensures
        r@ == arrow_template_name(*arrow_type, speed),
{
    match arrow_type {
        ArrowType::PivotCenter => String::from_str("arrow-pivot-center"),
        ArrowType::PivotTip => String::from_str("arrow-pivot-tip"),
        ArrowType::WindBarb => match speed {
            SpeedClass::Calm => String::from_str("knot0"),
            SpeedClass::Light => String::from_str("knot2"),
            SpeedClass::Max => String::from_str("knot190"),
            SpeedClass::Rounded(n) => {
                if n == 0 || n == 2 || (5 <= n && n <= 190 && n % 5 == 0) {
                    let mut out: Vec<char> = Vec::new();
                    push_str_chars(&mut out, "knot");
                    push_signed_decimal(&mut out, n as i64);
                    string_from_chars(&out)
                } else {
                    String::from_str("knot0")
                }
            },
        },
    }
}

// ---------------------------------------------------------------------------
// Replacing placeholders
// ---------------------------------------------------------------------------

/// `s` with every occurrence of `pat` replaced by `rep`, the occurrences
/// taken from left to right without overlap, as `str::replace` does.
pub open spec fn replace_all(s: Seq<char>, pat: Seq<char>, rep: Seq<char>) -> Seq<char>
    decreases s.len(),
{
    if s.len() == 0 {
        Seq::<char>::empty()
    } else if pat.len() > 0 && pat.len() <= s.len() && s.take(pat.len() as int) == pat {
        rep + replace_all(s.skip(pat.len() as int), pat, rep)
    } else {
        seq![s[0]] + replace_all(s.drop_first(), pat, rep)
    }
}

/// Whether `pat` occurs in `s` at position `i`.
fn occurs_at(s: &Vec<char>, i: usize, pat: &Vec<char>) -> (r: bool)
    requires
        i <= s@.len(),
    ensures
        r == (pat@.len() <= s@.len() - i && s@.skip(i as int).take(pat@.len() as int) == pat@),
{
    if pat.len() > s.len() - i {
        return false;
    }
    let n = s.len();
    let mut k: usize = 0;
    while k < pat.len()
        invariant
            n == s@.len(),
            i <= s@.len(),
            pat@.len() <= s@.len() - i,
            k <= pat@.len(),
            forall|m: int| 0 <= m < k ==> s@[i + m] == pat@[m],
        decreases pat.len() - k,
    {
        if s[i + k] != pat[k] {
            assert(s@.skip(i as int).take(pat@.len() as int)[k as int] != pat@[k as int]);
            return false;
        }
        k = k + 1;
    }
    assert(s@.skip(i as int).take(pat@.len() as int) =~= pat@);
    true
}

/// Replaces every occurrence of `pat` in `s` by `rep`, from left to right.
pub fn replace_chars(s: &Vec<char>, pat: &Vec<char>, rep: &Vec<char>) -> (r: Vec<char>)
    requires
        pat@.len() > 0,
    ensures
        r@ == replace_all(s@, pat@, rep@),
{
    let mut out: Vec<char> = Vec::new();
    let mut i: usize = 0;
    assert(s@.skip(0) =~= s@);
    while i < s.len()
        invariant
            i <= s@.len(),
            pat@.len() > 0,
            out@ + replace_all(s@.skip(i as int), pat@, rep@) == replace_all(s@, pat@, rep@),
        decreases s.len() - i,
    {
        let ghost rest = s@.skip(i as int);
        if occurs_at(s, i, pat) {
            let mut k: usize = 0;
            let ghost before = out@;
            while k < rep.len()
                invariant
                    k <= rep@.len(),
                    out@ == before + rep@.take(k as int),
                decreases rep.len() - k,
            {
                out.push(rep[k]);
                k = k + 1;
                assert(out@ =~= before + rep@.take(k as int));
            }
            assert(rep@.take(rep@.len() as int) =~= rep@);
            assert(rest.skip(pat@.len() as int) =~= s@.skip(i + pat@.len()));
            assert(out@ + replace_all(s@.skip(i + pat@.len()), pat@, rep@) =~= before + replace_all(
                rest,
                pat@,
                rep@,
            ));
            i = i + pat.len();
        } else {
            let ghost before = out@;
            out.push(s[i]);
            assert(rest[0] == s@[i as int]);
            assert(rest.drop_first() =~= s@.skip(i + 1));
            assert(out@ + replace_all(s@.skip(i + 1), pat@, rep@) =~= before + replace_all(
                rest,
                pat@,
                rep@,
            ));
            i = i + 1;
        }
    }
    assert(s@.skip(i as int) =~= Seq::<char>::empty());
    assert(out@ + Seq::<char>::empty() =~= out@);
    out
}

/// A template with its placement filled in: "{TRANSLATE}", then "{ROTATE}",
/// then "{SCALE}" replaced by the given texts.
pub open spec fn filled_template(
    template: Seq<char>,
    translate: Seq<char>,
    rotate: Seq<char>,
    scale: Seq<char>,
) -> Seq<char> {
    replace_all(
        replace_all(replace_all(template, "{TRANSLATE}"@, translate), "{ROTATE}"@, rotate),
        "{SCALE}"@,
        scale,
    )
}

/// Fills in the placement of an SVG path template: the translation, the
/// rotation and the scale, as texts, take the places of "{TRANSLATE}",
/// "{ROTATE}" and "{SCALE}".
pub fn fill_arrow_template(template: &str, translate: &str, rotate: &str, scale: &str) -> (r: String)
    ensures
        r@ == filled_template(template@, translate@, rotate@, scale@),
{
    proof {
        reveal_strlit("{TRANSLATE}");
        reveal_strlit("{ROTATE}");
        reveal_strlit("{SCALE}");
    }
    let text = chars_of(template);
    let p1 = chars_of("{TRANSLATE}");
    let p2 = chars_of("{ROTATE}");
    let p3 = chars_of("{SCALE}");
    let step1 = replace_chars(&text, &p1, &chars_of(translate));
    let step2 = replace_chars(&step1, &p2, &chars_of(rotate));
    let step3 = replace_chars(&step2, &p3, &chars_of(scale));
    string_from_chars(&step3)
}

} // verus!
