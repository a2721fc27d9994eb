//! Byte-level helpers shared by the parsers: NUL trimming, UTF-8 string
//! decoding, little-endian integer reading and the unsigned-to-signed
//! reinterpretation for two's-complement fields.

use vstd::prelude::*;

verus! {

use vstd::bytes::{spec_u16_from_le_bytes, spec_u32_from_le_bytes, spec_u64_from_le_bytes};
use vstd::bytes::{u16_from_le_bytes, u32_from_le_bytes, u64_from_le_bytes};
use vstd::slice::slice_subrange;
use vstd::utf8::{decode_utf8, valid_utf8};

/// A byte sequence with its trailing NUL bytes removed.
pub open spec fn trim_nuls(b: Seq<u8>) -> Seq<u8>
    decreases b.len(),
{
    if b.len() > 0 && b.last() == 0 {
        trim_nuls(b.drop_last())
    } else {
        b
    }
}

/// Trimming trailing NUL bytes is idempotent.
pub proof fn lemma_trim_nuls_idempotent(b: Seq<u8>)
    ensures
        trim_nuls(trim_nuls(b)) == trim_nuls(b),
    decreases b.len(),
{
    if b.len() > 0 && b.last() == 0 {
        lemma_trim_nuls_idempotent(b.drop_last());
    }
}

/// The length of `b` once its trailing NUL bytes are dropped.
pub fn trimmed_len(b: &[u8]) -> (n: usize)
    ensures
        n <= b@.len(),
        b@.subrange(0, n as int) == trim_nuls(b@),
{
    let mut n: usize = b.len();
    proof {
        assert(b@.subrange(0, n as int) =~= b@);
    }
    while n > 0 && b[n - 1] == 0
        invariant
            n <= b@.len(),
            trim_nuls(b@.subrange(0, n as int)) == trim_nuls(b@),
        decreases n,
    {
        proof {
            assert(b@.subrange(0, n as int).drop_last() =~= b@.subrange(0, n as int - 1));
        }
        n = n - 1;
    }
    proof {
        let p = b@.subrange(0, n as int);
        assert(trim_nuls(p) == p) by {
            if p.len() > 0 {
                assert(p.last() == b@[n as int - 1]);
            }
        }
    }
    n
}

/// Relies on `core::str::from_utf8`: it succeeds exactly when the bytes are a
/// valid UTF-8 encoding, and then the characters of the returned string are
/// the UTF-8 decoding of those bytes (`vstd::utf8`'s `valid_utf8` and
/// `decode_utf8` model).  `str::to_owned` keeps the characters unchanged.
#[verifier::external_body]
pub(crate) fn utf8_to_string(b: &[u8]) -> (r: Option<String>)
    ensures
        r is Some <==> valid_utf8(b@),
        r matches Some(s) ==> s@ == decode_utf8(b@),
{
    match core::str::from_utf8(b) {
        Ok(s) => Some(s.to_owned()),
        Err(_) => None,
    }
}

/// Trim the trailing NUL padding from `b` and decode the remainder as UTF-8.
pub fn trimmed_utf8(b: &[u8]) -> (r: Option<String>)
    ensures
        r is Some <==> valid_utf8(trim_nuls(b@)),
        r matches Some(s) ==> s@ == decode_utf8(trim_nuls(b@)),
{
    let n = trimmed_len(b);
    utf8_to_string(slice_subrange(b, 0, n))
}

/// The value of a `width`-byte little-endian unsigned field.
pub open spec fn le_value(width: u8, b: Seq<u8>) -> u64
    recommends
        width == 1 || width == 2 || width == 4 || width == 8,
        b.len() == width,
{
    if width == 1 {
        b[0] as u64
    } else if width == 2 {
        spec_u16_from_le_bytes(b) as u64
    } else if width == 4 {
        spec_u32_from_le_bytes(b) as u64
    } else {
        spec_u64_from_le_bytes(b)
    }
}

/// Read a little-endian unsigned integer of width 1, 2, 4 or 8 bytes.
pub fn read_le(width: u8, b: &[u8]) -> (r: u64)
    requires
        width == 1 || width == 2 || width == 4 || width == 8,
        b@.len() == width as int,
    ensures
        r == le_value(width, b@),
{
    if width == 1 {
        b[0] as u64
    } else if width == 2 {
        u16_from_le_bytes(b) as u64
    } else if width == 4 {
        u32_from_le_bytes(b) as u64
    } else {
        u64_from_le_bytes(b)
    }
}

/// `2^(8 * width)`: one past the largest unsigned value of a field of this
/// width.
pub open spec fn width_full(width: u8) -> int {
    if width == 1 {
        0x100
    } else if width == 2 {
        0x1_0000
    } else if width == 4 {
        0x1_0000_0000
    } else {
        0x1_0000_0000_0000_0000
    }
}

/// The value of a `width`-byte two's-complement field whose unsigned reading
/// is `u`: values at or above half the range wrap around to negatives.
pub open spec fn signed_value(width: u8, u: u64) -> int
    recommends
        u < width_full(width),
{
    if 2 * u < width_full(width) {
        u as int
    } else {
        u - width_full(width)
    }
}

/// Reinterpret the unsigned little-endian reading of a field as the
/// two's-complement value of the same width.
pub fn to_signed(width: u8, u: u64) -> (r: i64)
    requires
        width == 1 || width == 2 || width == 4 || width == 8,
        u < width_full(width),
    ensures
        r as int == signed_value(width, u),
{
    if width == 8 {
        if u >= 0x8000_0000_0000_0000 {
            ((u - 0x8000_0000_0000_0000) as i64) + i64::MIN
        } else {
            u as i64
        }
    } else {
        let full: i64 = if width == 1 {
            0x100
        } else if width == 2 {
            0x1_0000
        } else {
            0x1_0000_0000
        };
        let v = u as i64;
        if 2 * v >= full {
            v - full
        } else {
            v
        }
    }
}

} // verus!
