//! Character-level helpers: reading a `&str` as characters, building a
//! `String` from characters, decimal formatting of integers, splitting on a
//! separator, and parsing decimal integers with the same outcomes (value or
//! error kind) as `str::parse` of the standard library.
use vstd::prelude::*;

verus! {

// ---------------------------------------------------------------------------
// Reading and building strings
// ---------------------------------------------------------------------------

/// The characters of `s`, in order.
pub fn chars_of(s: &str) -> (r: Vec<char>)
    ensures
        r@ == s@,
{
    let n = s.unicode_len();
    let mut out: Vec<char> = Vec::new();
    let mut i: usize = 0;
    while i < n
        invariant
            n == s@.len(),
            i <= n,
            out@ == s@.take(i as int),
        decreases n - i,
    {
        let c = s.get_char(i);
        out.push(c);
        i = i + 1;
        assert(out@ =~= s@.take(i as int));
    }
    assert(out@ =~= s@);
    out
}

/// `String::from_iter` over the characters of `chars`: the string holds
/// exactly these characters, in order (std documents that collecting
/// characters into a `String` pushes each of them).
#[verifier::external_body]
pub fn string_from_chars(chars: &Vec<char>) -> (r: String)
    ensures
        r@ == chars@,
{
    chars.iter().collect::<String>()
}

/// Appends the characters of `s` to `out`.
pub fn push_str_chars(out: &mut Vec<char>, s: &str)
    ensures
        final(out)@ == old(out)@ + s@,
{
    let cs = chars_of(s);
    let mut i: usize = 0;
    let ghost start = out@;
    while i < cs.len()
        invariant
            i <= cs@.len(),
            cs@ == s@,
            out@ == start + cs@.take(i as int),
        decreases cs.len() - i,
    {
        out.push(cs[i]);
        i = i + 1;
        assert(out@ =~= start + cs@.take(i as int));
    }
    assert(cs@.take(cs@.len() as int) =~= cs@);
}

// ---------------------------------------------------------------------------
// Decimal formatting
// ---------------------------------------------------------------------------

/// The character of a decimal digit `d` (0..=9).
pub open spec fn digit_char(d: int) -> char {
    ('0' as int + d) as char
}

/// Decimal representation of `n` without leading zeros ("0" for zero), as
/// `Display` of an unsigned integer prints it.
pub open spec fn decimal(n: nat) -> Seq<char>
    decreases n,
{
    if n < 10 {
        seq![digit_char(n as int)]
    } else {
        decimal(n / 10).push(digit_char(n as int % 10))
    }
}

/// Decimal representation of a signed integer, as `Display` prints it: a
/// leading '-' for negative values.
pub open spec fn signed_decimal(i: int) -> Seq<char> {
    if i < 0 {
        seq!['-'] + decimal((-i) as nat)
    } else {
        decimal(i as nat)
    }
}

/// Appends the decimal representation of `n` to `out`.
pub fn push_decimal(out: &mut Vec<char>, n: u64)
    ensures
        final(out)@ == old(out)@ + decimal(n as nat),
    decreases n,
{
    if n < 10 {
        let c = digit_to_char(n);
        out.push(c);
        assert(decimal(n as nat) =~= seq![c]);
    } else {
        push_decimal(out, n / 10);
        let c = digit_to_char(n % 10);
        out.push(c);
        assert(decimal(n as nat) == decimal((n / 10) as nat).push(c));
    }
}

/// Appends the decimal representation of the signed `i` to `out`.
pub fn push_signed_decimal(out: &mut Vec<char>, i: i64)
    ensures
        final(out)@ == old(out)@ + signed_decimal(i as int),
{
    if i < 0 {
        out.push('-');
        let magnitude: u64 = ((-(i + 1)) as u64) + 1;
        assert(magnitude as int == -(i as int));
        let ghost mid = out@;
        push_decimal(out, magnitude);
        assert(out@ =~= old(out)@ + signed_decimal(i as int));
    } else {
        push_decimal(out, i as u64);
    }
}

fn digit_to_char(d: u64) -> (c: char)
    requires
        d < 10,
    ensures
        c == digit_char(d as int),
        is_digit(c),
        digit_value(c) == d,
{
    if d == 0 {
        '0'
    } else if d == 1 {
        '1'
    } else if d == 2 {
        '2'
    } else if d == 3 {
        '3'
    } else if d == 4 {
        '4'
    } else if d == 5 {
        '5'
    } else if d == 6 {
        '6'
    } else if d == 7 {
        '7'
    } else if d == 8 {
        '8'
    } else {
        '9'
    }
}

// ---------------------------------------------------------------------------
// Splitting
// ---------------------------------------------------------------------------

/// The pieces of `s` between occurrences of `sep`, as `str::split` with a
/// character pattern yields them: always at least one piece, empty pieces
/// kept.
pub open spec fn split_on(s: Seq<char>, sep: char) -> Seq<Seq<char>>
    decreases s.len(),
{
    if s.len() == 0 {
        seq![Seq::<char>::empty()]
    } else {
        let init = split_on(s.drop_last(), sep);
        if s.last() == sep {
            init.push(Seq::<char>::empty())
        } else {
            init.update(init.len() - 1, init.last().push(s.last()))
        }
    }
}

/// Splitting always yields at least one piece.
pub proof fn lemma_split_nonempty(s: Seq<char>, sep: char)
    ensures
        split_on(s, sep).len() >= 1,
    decreases s.len(),
{
    if s.len() > 0 {
        lemma_split_nonempty(s.drop_last(), sep);
    }
}

/// A sequence without the separator is a single piece.
pub proof fn lemma_split_no_sep(s: Seq<char>, sep: char)
    requires
        !s.contains(sep),
    ensures
        split_on(s, sep) == seq![s],
    decreases s.len(),
{
    if s.len() > 0 {
        let t = s.drop_last();
        assert(!t.contains(sep)) by {
            if t.contains(sep) {
                let k = choose|k: int| 0 <= k < t.len() && t[k] == sep;
                assert(s[k] == sep);
            }
        }
        lemma_split_no_sep(t, sep);
        assert(s.last() != sep) by {
            assert(s[s.len() - 1] == s.last());
        }
        assert(t.push(s.last()) =~= s);
        assert(split_on(t, sep).update(0, t.push(s.last())) =~= seq![s]);
    } else {
        assert(s =~= Seq::<char>::empty());
    }
}

/// Splitting `a + [sep] + b` gives the pieces of `a` followed by those of `b`.
pub proof fn lemma_split_concat(a: Seq<char>, b: Seq<char>, sep: char)
    ensures
        split_on(a + seq![sep] + b, sep) == split_on(a, sep) + split_on(b, sep),
    decreases b.len(),
{
    let s = a + seq![sep] + b;
    if b.len() == 0 {
        assert(s.drop_last() =~= a);
        assert(s.last() == sep);
        assert(split_on(b, sep) =~= seq![Seq::<char>::empty()]);
        assert(split_on(a, sep).push(Seq::<char>::empty()) =~= split_on(a, sep) + split_on(b, sep));
    } else {
        let b0 = b.drop_last();
        assert(s.drop_last() =~= a + seq![sep] + b0);
        lemma_split_concat(a, b0, sep);
        lemma_split_nonempty(b0, sep);
        lemma_split_nonempty(a, sep);
        let pa = split_on(a, sep);
        let pb0 = split_on(b0, sep);
        assert(s.last() == b.last());
        assert(b.drop_last() == b0);
        if b.last() == sep {
            assert((pa + pb0).push(Seq::<char>::empty()) =~= pa + pb0.push(Seq::<char>::empty()));
        } else {
            let whole = pa + pb0;
            assert(whole.last() == pb0.last());
            assert(whole.update(whole.len() - 1, whole.last().push(b.last())) =~= pa + pb0.update(
                pb0.len() - 1,
                pb0.last().push(b.last()),
            ));
        }
    }
}

/// Splits `s` at each occurrence of `sep`.
pub fn split_chars(s: &Vec<char>, sep: char) -> (parts: Vec<Vec<char>>)
    ensures
        parts@.len() == split_on(s@, sep).len(),
        forall|k: int| 0 <= k < parts@.len() ==> #[trigger] parts@[k]@ == split_on(s@, sep)[k],
{
    let mut done: Vec<Vec<char>> = Vec::new();
    let mut cur: Vec<char> = Vec::new();
    let mut i: usize = 0;
    while i < s.len()
        invariant
            i <= s@.len(),
            done@.len() + 1 == split_on(s@.take(i as int), sep).len(),
            forall|k: int|
                0 <= k < done@.len() ==> #[trigger] done@[k]@ == split_on(s@.take(i as int), sep)[k],
            cur@ == split_on(s@.take(i as int), sep).last(),
        decreases s.len() - i,
    {
        let c = s[i];
        let ghost prev = split_on(s@.take(i as int), sep);
        assert(s@.take(i + 1).drop_last() =~= s@.take(i as int));
        assert(s@.take(i + 1).last() == c);
        proof {
            lemma_split_nonempty(s@.take(i as int), sep);
        }
        if c == sep {
            let finished = cur;
            done.push(finished);
            cur = Vec::new();
            assert(cur@ =~= Seq::<char>::empty());
        } else {
            cur.push(c);
        }
        i = i + 1;
    }
    assert(s@.take(s@.len() as int) =~= s@);
    proof {
        lemma_split_nonempty(s@, sep);
    }
    done.push(cur);
    done
}

// ---------------------------------------------------------------------------
// Parsing decimal integers
// ---------------------------------------------------------------------------

/// Why a decimal integer could not be read: the kinds that `str::parse`
/// reports for integer types.
#[derive(Debug, Clone, Copy, PartialEq, Eq, Structural)]
pub enum IntErrorKind {
    /// The text is empty.
    Empty,
    /// A character is not a digit, or the text is a lone sign.
    InvalidDigit,
    /// The value is above the type's maximum.
    PosOverflow,
    /// The value is below the type's minimum.
    NegOverflow,
}

pub open spec fn is_digit(c: char) -> bool {
    '0' <= c && c <= '9'
}

pub open spec fn digit_value(c: char) -> int {
    c as int - '0' as int
}

/// Reads the digits `s` from left to right, starting from the magnitude
/// `acc`: at the first character that is not a digit the result is
/// `InvalidDigit`; at the first digit that makes the magnitude exceed `bound`
/// it is an overflow (`NegOverflow` when reading a negative number).
pub open spec fn digits_value(s: Seq<char>, acc: int, bound: int, negative: bool) -> Result<
    int,
    IntErrorKind,
>
    decreases s.len(),
{
    if s.len() == 0 {
        Ok(acc)
    } else if !is_digit(s[0]) {
        Err(IntErrorKind::InvalidDigit)
    } else if acc * 10 + digit_value(s[0]) > bound {
        Err(
            if negative {
                IntErrorKind::NegOverflow
            } else {
                IntErrorKind::PosOverflow
            },
        )
    } else {
        digits_value(s.drop_first(), acc * 10 + digit_value(s[0]), bound, negative)
    }
}

/// What `str::parse` gives for an integer type with range `min..=max`: an
/// optional '+' (or '-' where `min` is negative) followed by decimal digits.
pub open spec fn parse_integer(s: Seq<char>, min: int, max: int) -> Result<int, IntErrorKind> {
    if s.len() == 0 {
        Err(IntErrorKind::Empty)
    } else if s.len() == 1 && (s[0] == '+' || s[0] == '-') {
        Err(IntErrorKind::InvalidDigit)
    } else if s[0] == '+' {
        digits_value(s.drop_first(), 0, max, false)
    } else if s[0] == '-' && min < 0 {
        match digits_value(s.drop_first(), 0, -min, true) {
            Ok(m) => Ok(-m),
            Err(e) => Err(e),
        }
    } else {
        digits_value(s, 0, max, false)
    }
}

/// A successful read stays within the bound.
pub proof fn lemma_digits_value_bounded(s: Seq<char>, acc: int, bound: int, negative: bool)
    requires
        0 <= acc <= bound,
    ensures
        digits_value(s, acc, bound, negative) matches Ok(v) ==> 0 <= v <= bound,
    decreases s.len(),
{
    if s.len() > 0 && is_digit(s[0]) && acc * 10 + digit_value(s[0]) <= bound {
        lemma_digits_value_bounded(s.drop_first(), acc * 10 + digit_value(s[0]), bound, negative);
    }
}

/// A successful parse is within `min..=max`.
pub proof fn lemma_parse_integer_bounded(s: Seq<char>, min: int, max: int)
    requires
        min <= 0 <= max,
    ensures
        parse_integer(s, min, max) matches Ok(v) ==> min <= v <= max,
{
    if s.len() > 0 {
        lemma_digits_value_bounded(s.drop_first(), 0, max, false);
        lemma_digits_value_bounded(s.drop_first(), 0, -min, true);
        lemma_digits_value_bounded(s, 0, max, false);
    }
}

/// Reading the decimal representation of `n` gives `n` back.
pub proof fn lemma_digits_of_decimal(n: nat, bound: int, negative: bool)
    requires
        n <= bound,
    ensures
        digits_value(decimal(n), 0, bound, negative) == Ok::<int, IntErrorKind>(n as int),
    decreases n,
{
    lemma_digit_char(n as int % 10);
    if n < 10 {
        let s = decimal(n);
        assert(s.drop_first() =~= Seq::<char>::empty());
        assert(digits_value(s.drop_first(), n as int, bound, negative) == Ok::<int, IntErrorKind>(n as int));
    } else {
        lemma_digits_of_decimal(n / 10, bound, negative);
        lemma_digits_append(decimal(n / 10), digit_char(n as int % 10), 0, bound, negative);
    }
}

/// The digit character of `d` is a digit whose value is `d`.
pub proof fn lemma_digit_char(d: int)
    requires
        0 <= d < 10,
    ensures
        is_digit(digit_char(d)),
        digit_value(digit_char(d)) == d,
{
    assert(('0' as int + d) as char as int == '0' as int + d);
}

/// Appending one digit to digits that read successfully.
pub proof fn lemma_digits_append(s: Seq<char>, c: char, acc: int, bound: int, negative: bool)
    requires
        digits_value(s, acc, bound, negative) is Ok,
    ensures
        digits_value(s.push(c), acc, bound, negative) == (if !is_digit(c) {
            Err(IntErrorKind::InvalidDigit)
        } else if digits_value(s, acc, bound, negative)->Ok_0 * 10 + digit_value(c) > bound {
            Err(
                if negative {
                    IntErrorKind::NegOverflow
                } else {
                    IntErrorKind::PosOverflow
                },
            )
        } else {
            Ok(digits_value(s, acc, bound, negative)->Ok_0 * 10 + digit_value(c))
        }),
    decreases s.len(),
{
    assert(s.push(c)[0] == if s.len() == 0 { c } else { s[0] });
    if s.len() == 0 {
        assert(s.push(c).drop_first() =~= Seq::<char>::empty());
        if is_digit(c) && acc * 10 + digit_value(c) <= bound {
            assert(digits_value(Seq::<char>::empty(), acc * 10 + digit_value(c), bound, negative)
                == Ok::<int, IntErrorKind>(acc * 10 + digit_value(c)));
        }
    } else {
        assert(s.push(c).drop_first() =~= s.drop_first().push(c));
        lemma_digits_append(s.drop_first(), c, acc * 10 + digit_value(s[0]), bound, negative);
    }
}

/// Decimal representations hold only digits, and are never empty.
pub proof fn lemma_decimal_digits(n: nat)
    ensures
        decimal(n).len() >= 1,
        forall|k: int| 0 <= k < decimal(n).len() ==> is_digit(#[trigger] decimal(n)[k]),
    decreases n,
{
    if n >= 10 {
        lemma_decimal_digits(n / 10);
    }
}

/// Parsing the `Display` text of a value in range gives the value back.
pub proof fn lemma_parse_signed_decimal(i: int, min: int, max: int)
    requires
        min <= 0 <= max,
        min <= i <= max,
    ensures
        parse_integer(signed_decimal(i), min, max) == Ok::<int, IntErrorKind>(i),
{
    lemma_decimal_digits((if i < 0 { -i } else { i }) as nat);
    if i < 0 {
        let d = decimal((-i) as nat);
        let s = seq!['-'] + d;
        assert(s.drop_first() =~= d);
        lemma_digits_of_decimal((-i) as nat, -min, true);
    } else {
        let d = decimal(i as nat);
        assert(is_digit(d[0]));
        lemma_digits_of_decimal(i as nat, max, false);
    }
}

/// Reads the digits of `s` starting at `start`, from magnitude 0.
fn read_digits(s: &Vec<char>, start: usize, bound: u64, negative: bool) -> (r: Result<
    u64,
    IntErrorKind,
>)
    requires
        start <= s@.len(),
        bound <= 0x8000_0000,
    ensures
        match (r, digits_value(s@.skip(start as int), 0, bound as int, negative)) {
            (Ok(a), Ok(b)) => a == b,
            (Err(a), Err(b)) => a == b,
            _ => false,
        },
        r matches Ok(v) ==> v <= bound,
{
    proof {
        lemma_digits_value_bounded(s@.skip(start as int), 0, bound as int, negative);
    }
    let mut acc: u64 = 0;
    let mut i: usize = start;
    while i < s.len()
        invariant
            start <= i <= s@.len(),
            acc <= bound <= 0x8000_0000,
            digits_value(s@.skip(start as int), 0, bound as int, negative) == digits_value(
                s@.skip(i as int),
                acc as int,
                bound as int,
                negative,
            ),
        decreases s.len() - i,
    {
        let c = s[i];
        assert(s@.skip(i as int)[0] == c);
        assert(s@.skip(i as int).drop_first() =~= s@.skip(i + 1));
        if !('0' <= c && c <= '9') {
            return Err(IntErrorKind::InvalidDigit);
        }
        let d: u64 = (c as u64) - ('0' as u64);
        let next: u64 = acc * 10 + d;
        if next > bound {
            if negative {
                return Err(IntErrorKind::NegOverflow);
            } else {
                return Err(IntErrorKind::PosOverflow);
            }
        }
        acc = next;
        i = i + 1;
    }
    assert(s@.skip(i as int) =~= Seq::<char>::empty());
    Ok(acc)
}

/// Parses `s` as an integer in `min..=max` with the outcome of `str::parse`.
pub fn parse_int_in(s: &Vec<char>, min: i64, max: i64) -> (r: Result<i64, IntErrorKind>)
    requires
        -0x8000_0000 <= min <= 0,
        0 <= max <= 0x7fff_ffff,
    ensures
        match (r, parse_integer(s@, min as int, max as int)) {
            (Ok(a), Ok(b)) => a == b,
            (Err(a), Err(b)) => a == b,
            _ => false,
        },
{
    if s.len() == 0 {
        return Err(IntErrorKind::Empty);
    }
    let first = s[0];
    if s.len() == 1 && (first == '+' || first == '-') {
        return Err(IntErrorKind::InvalidDigit);
    }
    assert(s@.skip(1) =~= s@.drop_first());
    assert(s@.skip(0) =~= s@);
    if first == '+' {
        match read_digits(s, 1, max as u64, false) {
            Ok(v) => Ok(v as i64),
            Err(e) => Err(e),
        }
    } else if first == '-' && min < 0 {
        let bound: u64 = (-min) as u64;
        match read_digits(s, 1, bound, true) {
            Ok(v) => Ok(-(v as i64)),
            Err(e) => Err(e),
        }
    } else {
        match read_digits(s, 0, max as u64, false) {
            Ok(v) => Ok(v as i64),
            Err(e) => Err(e),
        }
    }
}

impl IntErrorKind {
    /// The text that `Display` of std's `ParseIntError` shows for this kind.
    pub open spec fn text(self) -> Seq<char> {
        match self {
            IntErrorKind::Empty => "cannot parse integer from empty string"@,
            IntErrorKind::InvalidDigit => "invalid digit found in string"@,
            IntErrorKind::PosOverflow => "number too large to fit in target type"@,
            IntErrorKind::NegOverflow => "number too small to fit in target type"@,
        }
    }

    /// The text that `Display` of std's `ParseIntError` shows for this kind.
    pub fn describe(&self) -> (r: String)
        ensures
            r@ == self.text(),
    {
        match self {
            IntErrorKind::Empty => String::from_str("cannot parse integer from empty string"),
            IntErrorKind::InvalidDigit => String::from_str("invalid digit found in string"),
            IntErrorKind::PosOverflow => String::from_str("number too large to fit in target type"),
            IntErrorKind::NegOverflow => String::from_str("number too small to fit in target type"),
        }
    }
}

} // verus!

verus! {

// ---------------------------------------------------------------------------
// Lexicographic order
// ---------------------------------------------------------------------------

/// `a` comes strictly before `b` in lexicographic order of characters. For
/// strings this is the order of `String`'s `Ord`: UTF-8 keeps the order of
/// code points.
pub open spec fn seq_less(a: Seq<char>, b: Seq<char>) -> bool
    decreases a.len(),
{
    if a.len() == 0 {
        b.len() > 0
    } else if b.len() == 0 {
        false
    } else if a[0] != b[0] {
        a[0] < b[0]
    } else {
        seq_less(a.drop_first(), b.drop_first())
    }
}

/// Exactly one of `a < b`, `a == b`, `b < a` holds.
pub proof fn lemma_less_trichotomy(a: Seq<char>, b: Seq<char>)
    ensures
        a == b || seq_less(a, b) || seq_less(b, a),
        !(seq_less(a, b) && seq_less(b, a)),
        !seq_less(a, a),
    decreases a.len(),
{
    if a.len() > 0 && b.len() > 0 {
        lemma_less_trichotomy(a.drop_first(), b.drop_first());
        if a[0] == b[0] && a.drop_first() == b.drop_first() {
            assert(a =~= seq![a[0]] + a.drop_first());
            assert(b =~= seq![b[0]] + b.drop_first());
        }
    } else if a.len() == 0 && b.len() == 0 {
        assert(a =~= b);
    }
    if a.len() > 0 {
        lemma_less_trichotomy(a.drop_first(), a.drop_first());
    }
}

/// Lexicographic order is transitive.
pub proof fn lemma_less_transitive(a: Seq<char>, b: Seq<char>, c: Seq<char>)
    requires
        seq_less(a, b),
        seq_less(b, c),
    ensures
        seq_less(a, c),
    decreases a.len(),
{
    if a.len() > 0 && b.len() > 0 && c.len() > 0 {
        if a[0] == b[0] && b[0] == c[0] {
            lemma_less_transitive(a.drop_first(), b.drop_first(), c.drop_first());
        }
    }
}

/// Whether `a` comes strictly before `b` in lexicographic order.
pub fn chars_less(a: &Vec<char>, b: &Vec<char>) -> (r: bool)
    ensures
        r == seq_less(a@, b@),
{
    let mut i: usize = 0;
    assert(a@.skip(0) =~= a@);
    assert(b@.skip(0) =~= b@);
    while i < a.len() && i < b.len() && a[i] == b[i]
        invariant
            i <= a@.len(),
            i <= b@.len(),
            seq_less(a@, b@) == seq_less(a@.skip(i as int), b@.skip(i as int)),
        decreases a.len() - i,
    {
        assert(a@.skip(i as int).drop_first() =~= a@.skip(i + 1));
        assert(b@.skip(i as int).drop_first() =~= b@.skip(i + 1));
        assert(a@.skip(i as int)[0] == a@[i as int]);
        assert(b@.skip(i as int)[0] == b@[i as int]);
        i = i + 1;
    }
    if i < a.len() && i < b.len() {
        assert(a@.skip(i as int)[0] == a@[i as int]);
        assert(b@.skip(i as int)[0] == b@[i as int]);
        a[i] < b[i]
    } else {
        i >= a.len() && i < b.len()
    }
}

} // verus!
