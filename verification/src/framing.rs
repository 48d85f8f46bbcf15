//! The section framing of GRIB2 data: each message starts with an
//! indicator section ("GRIB", 16 bytes, with the message's total length in
//! bytes 8 to 15), then sections that each start with their length (4
//! bytes) and number (1 byte), and ends with "7777". The check here follows
//! the bytes as the `grib` crate's section stream walks them, and holds each
//! length that the stream subtracts from to be large enough.
use vstd::prelude::*;

verus! {

/// The big-endian number in the `n` bytes from `start`.
pub open spec fn be_value(bytes: Seq<u8>, start: int, n: nat) -> int
    decreases n,
{
    if n == 0 {
        0
    } else {
        be_value(bytes, start, (n - 1) as nat) * 256 + bytes[start + n - 1]
    }
}

/// "GRIB" stands at `q`.
pub open spec fn indicator_magic_at(bytes: Seq<u8>, q: int) -> bool {
    0 <= q && q + 4 <= bytes.len() && bytes[q] == 71 && bytes[q + 1] == 82 && bytes[q + 2] == 73
        && bytes[q + 3] == 66
}

/// "7777" stands at `q`.
pub open spec fn end_magic_at(bytes: Seq<u8>, q: int) -> bool {
    0 <= q && q + 4 <= bytes.len() && bytes[q] == 55 && bytes[q + 1] == 55 && bytes[q + 2] == 55
        && bytes[q + 3] == 55
}

/// The first position from `p` on where "GRIB" starts with a whole
/// indicator section (16 bytes) after it, as the reader searches for the
/// next message.
pub open spec fn first_indicator(bytes: Seq<u8>, p: int) -> Option<int>
    decreases bytes.len() - p,
{
    if p < 0 || p + 16 > bytes.len() {
        None
    } else if indicator_magic_at(bytes, p) {
        Some(p)
    } else {
        first_indicator(bytes, p + 1)
    }
}

pub proof fn lemma_first_indicator_bounds(bytes: Seq<u8>, p: int)
    ensures
        first_indicator(bytes, p) matches Some(q) ==> p <= q && q + 16 <= bytes.len()
            && indicator_magic_at(bytes, q),
    decreases bytes.len() - p,
{
    if !(p < 0 || p + 16 > bytes.len()) && !indicator_magic_at(bytes, p) {
        lemma_first_indicator_bounds(bytes, p + 1);
    }
}

/// From position `p`, with `rest` bytes of the current message left (0
/// between messages), every length that the reader subtracts from is large
/// enough and none overflows: a message's total length is at least the 16
/// bytes of its indicator and its end fits in a `usize`; a section's length
/// is at least its 5-byte header (6 for section 6, whose first byte is read
/// apart), fits in what is left of its message, and is at most `isize::MAX`
/// (the most that the reader can allocate for it). The walk stops where the
/// reader stops: at the end of the data, or at data that it refuses.
pub open spec fn frames_fit(bytes: Seq<u8>, p: int, rest: int) -> bool
    decreases bytes.len() - p,
{
    if p < 0 || p > bytes.len() || rest < 0 {
        false
    } else if rest == 0 {
        match first_indicator(bytes, p) {
            None => true,
            Some(q) => {
                proof {
                    lemma_first_indicator_bounds(bytes, p);
                }
                let total = be_value(bytes, q + 8, 8);
                16 <= total && q + total <= usize::MAX && frames_fit(bytes, q + 16, total - 16)
            },
        }
    } else if rest == 4 {
        if end_magic_at(bytes, p) {
            frames_fit(bytes, p + 4, 0)
        } else {
            true
        }
    } else if p + 5 > bytes.len() {
        true
    } else {
        let size = be_value(bytes, p, 4);
        let num = bytes[p + 4];
        if size < 5 || size > rest || size > isize::MAX || (num == 6 && size < 6) {
            false
        } else if !(1 <= num <= 7) || p + size > bytes.len() {
            // the reader refuses the section number, or the data ends inside
            // the section
            true
        } else {
            frames_fit(bytes, p + size, rest - size)
        }
    }
}

/// The reader's arithmetic on lengths neither goes below zero nor overflows
/// on these bytes.
pub open spec fn grib_frames_fit(bytes: Seq<u8>) -> bool {
    frames_fit(bytes, 0, 0)
}

fn read_be_u32(bytes: &Vec<u8>, start: usize) -> (r: u64)
    requires
        start + 4 <= bytes@.len(),
    ensures
        r == be_value(bytes@, start as int, 4),
        r < 0x1_0000_0000,
{
    let _n = bytes.len();
    proof {
        reveal_with_fuel(be_value, 5);
    }
    bytes[start] as u64 * 0x100_0000 + bytes[start + 1] as u64 * 0x1_0000 + bytes[start + 2] as u64
        * 0x100 + bytes[start + 3] as u64
}

fn read_be_u64(bytes: &Vec<u8>, start: usize) -> (r: u64)
    requires
        start + 8 <= bytes@.len(),
    ensures
        r == be_value(bytes@, start as int, 8),
{
    let _n = bytes.len();
    let high = read_be_u32(bytes, start);
    let low = read_be_u32(bytes, start + 4);
    proof {
        reveal_with_fuel(be_value, 9);
        assert(be_value(bytes@, start as int, 8) == be_value(bytes@, start as int, 4) * 0x1_0000_0000
            + be_value(bytes@, start as int + 4, 4));
    }
    high * 0x1_0000_0000 + low
}

fn find_indicator(bytes: &Vec<u8>, p: usize) -> (r: Option<usize>)
    requires
        p <= bytes@.len(),
    ensures
        match r {
            Some(q) => first_indicator(bytes@, p as int) == Some(q as int),
            None => first_indicator(bytes@, p as int) is None,
        },
{
    let len = bytes.len();
    let mut q: usize = p;
    while q <= len && len - q >= 16
        invariant
            p <= q,
            len == bytes@.len(),
            first_indicator(bytes@, p as int) == first_indicator(bytes@, q as int),
        decreases len - q,
    {
        if bytes[q] == 71 && bytes[q + 1] == 82 && bytes[q + 2] == 73 && bytes[q + 3] == 66 {
            return Some(q);
        }
        q = q + 1;
    }
    None
}

/// Whether the lengths in `bytes` are safe for the GRIB2 reader to walk.
pub fn check_frames(bytes: &Vec<u8>) -> (r: bool)
    ensures
        r == grib_frames_fit(bytes@),
{
    let len = bytes.len();
    let mut p: usize = 0;
    let mut rest: usize = 0;
    loop
        invariant
            len == bytes@.len(),
            p <= len,
            grib_frames_fit(bytes@) == frames_fit(bytes@, p as int, rest as int),
        decreases len - p,
    {
        if rest == 0 {
            match find_indicator(bytes, p) {
                None => {
                    return true;
                },
                Some(q) => {
                    proof {
                        lemma_first_indicator_bounds(bytes@, p as int);
                    }
                    let total = read_be_u64(bytes, q + 8);
                    if total < 16 || total > (usize::MAX - q) as u64 {
                        return false;
                    }
                    p = q + 16;
                    rest = (total - 16) as usize;
                },
            }
        } else if rest == 4 {
            if len - p >= 4 && bytes[p] == 55 && bytes[p + 1] == 55 && bytes[p + 2] == 55 && bytes[p
                + 3] == 55 {
                p = p + 4;
                rest = 0;
            } else {
                return true;
            }
        } else {
            if len - p < 5 {
                return true;
            }
            let size = read_be_u32(bytes, p);
            let num = bytes[p + 4];
            if size < 5 || size > rest as u64 || size > isize::MAX as u64 || (num == 6 && size < 6) {
                return false;
            }
            if num < 1 || num > 7 || size > (len - p) as u64 {
                return true;
            }
            p = p + size as usize;
            rest = rest - size as usize;
        }
    }
}

} // verus!
