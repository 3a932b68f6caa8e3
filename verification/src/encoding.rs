//! What each value encoding of the container means: for a source of octets
//! and a bit position, the value that a decoder yields there and the
//! position at which it stops.

use crate::error::DwgError;
use crate::stream::{bit_at, bit_len, bits_value, signed_value};
use crate::version::DWGVersion;
use vstd::arithmetic::power2::pow2;
use vstd::prelude::*;

verus! {

/// The outcome of decoding one value: what came out, and the bit position
/// of the cursor afterwards.
pub struct Decoded<T> {
    pub value: Result<T, DwgError>,
    pub end: int,
}

/// The first release that may shorten an extrusion vector or a defaulted
/// double to a single bit.
pub const SHORT_FORM_BOUNDARY: DWGVersion = DWGVersion::AC1015;

/// The last release that encodes an object type as a variable short and
/// that writes the narrow free-space record.
pub const LEGACY_BOUNDARY: DWGVersion = DWGVersion::AC1021;

/// Bit pattern of the double 0.0.
pub const DOUBLE_ZERO: u64 = 0;

/// Bit pattern of the double 1.0.
pub const DOUBLE_ONE: u64 = 0x3FF0_0000_0000_0000;

/// What is added to the short form of an object type code.
pub const OBJECT_TYPE_OFFSET: i16 = 0x1F0;

/// A value, with the position behind the bits that gave it.
pub open spec fn literal<T>(v: T, end: int) -> Decoded<T> {
    Decoded { value: Ok(v), end }
}

/// A failure, with the position at which the cursor was left.
pub open spec fn failed<T>(e: DwgError, end: int) -> Decoded<T> {
    Decoded { value: Err(e), end }
}

/// A source that ran out: the cursor rests at its end.
pub open spec fn exhausted<T>(s: Seq<u8>) -> Decoded<T> {
    failed(DwgError::StreamExhausted, bit_len(s))
}

/// `n` raw bits at `p`.
pub open spec fn raw_at(s: Seq<u8>, p: int, n: nat) -> Decoded<u64> {
    if p + n <= bit_len(s) {
        literal(bits_value(s, p, n) as u64, p + n)
    } else {
        exhausted(s)
    }
}

/// The single bit at `p`.
pub open spec fn bit_read_at(s: Seq<u8>, p: int) -> Decoded<u8> {
    if p + 1 <= bit_len(s) {
        literal(bit_at(s, p) as u8, p + 1)
    } else {
        exhausted(s)
    }
}

/// A raw signed 8-bit integer at `p`.
pub open spec fn raw_char_at(s: Seq<u8>, p: int) -> Decoded<i8> {
    if p + 8 <= bit_len(s) {
        literal(signed_value(bits_value(s, p, 8), 8) as i8, p + 8)
    } else {
        exhausted(s)
    }
}

/// A raw signed 16-bit integer at `p`.
pub open spec fn raw_short_at(s: Seq<u8>, p: int) -> Decoded<i16> {
    if p + 16 <= bit_len(s) {
        literal(signed_value(bits_value(s, p, 16), 16) as i16, p + 16)
    } else {
        exhausted(s)
    }
}

/// A raw signed 32-bit integer at `p`.
pub open spec fn raw_long_at(s: Seq<u8>, p: int) -> Decoded<i32> {
    if p + 32 <= bit_len(s) {
        literal(signed_value(bits_value(s, p, 32), 32) as i32, p + 32)
    } else {
        exhausted(s)
    }
}

/// A raw signed 64-bit integer at `p`.
pub open spec fn raw_longlong_at(s: Seq<u8>, p: int) -> Decoded<i64> {
    if p + 64 <= bit_len(s) {
        literal(signed_value(bits_value(s, p, 64), 64) as i64, p + 64)
    } else {
        exhausted(s)
    }
}

/// The bit pattern of a raw double at `p`.
pub open spec fn raw_double_at(s: Seq<u8>, p: int) -> Decoded<u64> {
    raw_at(s, p, 64)
}

/// Up to three bits at `p`, ending with the first zero bit, gathered into
/// one number with the first bit highest.
pub open spec fn bit_triplet_at(s: Seq<u8>, p: int) -> Decoded<u8> {
    if p + 1 > bit_len(s) {
        exhausted(s)
    } else if bit_at(s, p) == 0 {
        literal(0u8, p + 1)
    } else if p + 2 > bit_len(s) {
        exhausted(s)
    } else if bit_at(s, p + 1) == 0 {
        literal(2u8, p + 2)
    } else if p + 3 > bit_len(s) {
        exhausted(s)
    } else if bit_at(s, p + 2) == 0 {
        literal(6u8, p + 3)
    } else {
        literal(7u8, p + 3)
    }
}

/// A variable short at `p`: a two-bit selector, then a raw 16-bit value,
/// an unsigned octet, or nothing for the literals 0 and 256.
pub open spec fn bitshort_at(s: Seq<u8>, p: int) -> Decoded<i16> {
    let selector = bits_value(s, p, 2);
    if p + 2 > bit_len(s) {
        exhausted(s)
    } else if selector == 0 {
        raw_short_at(s, p + 2)
    } else if selector == 1 {
        if p + 10 <= bit_len(s) {
            literal(bits_value(s, p + 2, 8) as i16, p + 10)
        } else {
            exhausted(s)
        }
    } else if selector == 2 {
        literal(0i16, p + 2)
    } else {
        literal(256i16, p + 2)
    }
}

/// A variable long at `p`: as a variable short, with a raw 32-bit value
/// under selector 0.
pub open spec fn bitlong_at(s: Seq<u8>, p: int) -> Decoded<i32> {
    let selector = bits_value(s, p, 2);
    if p + 2 > bit_len(s) {
        exhausted(s)
    } else if selector == 0 {
        raw_long_at(s, p + 2)
    } else if selector == 1 {
        if p + 10 <= bit_len(s) {
            literal(bits_value(s, p + 2, 8) as i32, p + 10)
        } else {
            exhausted(s)
        }
    } else if selector == 2 {
        literal(0i32, p + 2)
    } else {
        literal(256i32, p + 2)
    }
}

/// A variable long long at `p`: as a variable short, with a raw 64-bit
/// value under selector 0.
pub open spec fn bitlonglong_at(s: Seq<u8>, p: int) -> Decoded<i64> {
    let selector = bits_value(s, p, 2);
    if p + 2 > bit_len(s) {
        exhausted(s)
    } else if selector == 0 {
        raw_longlong_at(s, p + 2)
    } else if selector == 1 {
        if p + 10 <= bit_len(s) {
            literal(bits_value(s, p + 2, 8) as i64, p + 10)
        } else {
            exhausted(s)
        }
    } else if selector == 2 {
        literal(0i64, p + 2)
    } else {
        literal(256i64, p + 2)
    }
}

/// The bit pattern of a variable double at `p`: a two-bit selector, then a
/// raw double, or nothing for the literals 1.0 and 0.0. Selector 3 is not
/// in use.
pub open spec fn bitdouble_at(s: Seq<u8>, p: int) -> Decoded<u64> {
    let selector = bits_value(s, p, 2);
    if p + 2 > bit_len(s) {
        exhausted(s)
    } else if selector == 0 {
        raw_double_at(s, p + 2)
    } else if selector == 1 {
        literal(DOUBLE_ONE, p + 2)
    } else if selector == 2 {
        literal(DOUBLE_ZERO, p + 2)
    } else {
        failed(DwgError::InvalidSelector, p + 2)
    }
}

/// Three variable doubles in a row at `p`, stopping at the first that
/// fails.
pub open spec fn three_bitdoubles_at(s: Seq<u8>, p: int) -> Decoded<(u64, u64, u64)> {
    let x = bitdouble_at(s, p);
    let y = bitdouble_at(s, x.end);
    let z = bitdouble_at(s, y.end);
    match (x.value, y.value, z.value) {
        (Err(e), _, _) => failed(e, x.end),
        (Ok(_), Err(e), _) => failed(e, y.end),
        (Ok(_), Ok(_), Err(e)) => failed(e, z.end),
        (Ok(a), Ok(b), Ok(c)) => literal((a, b, c), z.end),
    }
}

/// The bit patterns of an extrusion vector at `p`. From the short form
/// boundary on, a leading 1 bit stands for the whole vector (0, 0, 1);
/// otherwise, and in every earlier release, three variable doubles follow.
pub open spec fn extrusion_at(s: Seq<u8>, p: int, version: DWGVersion) -> Decoded<
    (u64, u64, u64),
> {
    if version.at_least(SHORT_FORM_BOUNDARY) {
        if p + 1 > bit_len(s) {
            exhausted(s)
        } else if bit_at(s, p) == 1 {
            literal((DOUBLE_ZERO, DOUBLE_ZERO, DOUBLE_ONE), p + 1)
        } else {
            three_bitdoubles_at(s, p + 1)
        }
    } else {
        three_bitdoubles_at(s, p)
    }
}

/// The bit pattern of a defaulted double at `p`. From the short form
/// boundary on, a leading 1 bit stands for 0.0; otherwise, and in every
/// earlier release, a variable double follows.
pub open spec fn bitdouble_with_default_at(s: Seq<u8>, p: int, version: DWGVersion) -> Decoded<
    u64,
> {
    if version.at_least(SHORT_FORM_BOUNDARY) {
        if p + 1 > bit_len(s) {
            exhausted(s)
        } else if bit_at(s, p) == 1 {
            literal(DOUBLE_ZERO, p + 1)
        } else {
            bitdouble_at(s, p + 1)
        }
    } else {
        bitdouble_at(s, p)
    }
}

/// An object type code at `p`. Up to the legacy boundary it is a variable
/// short. Later, a two-bit selector is followed by a raw signed octet, by
/// such an octet to which `OBJECT_TYPE_OFFSET` is added, or by a raw
/// 16-bit value.
pub open spec fn object_type_at(s: Seq<u8>, p: int, version: DWGVersion) -> Decoded<i16> {
    let selector = bits_value(s, p, 2);
    let octet = signed_value(bits_value(s, p + 2, 8), 8);
    if version.at_most(LEGACY_BOUNDARY) {
        bitshort_at(s, p)
    } else if p + 2 > bit_len(s) {
        exhausted(s)
    } else if selector == 0 {
        if p + 10 <= bit_len(s) {
            literal(octet as i16, p + 10)
        } else {
            exhausted(s)
        }
    } else if selector == 1 {
        if p + 10 <= bit_len(s) {
            literal((octet + OBJECT_TYPE_OFFSET) as i16, p + 10)
        } else {
            exhausted(s)
        }
    } else {
        raw_short_at(s, p + 2)
    }
}

/// The six octets at `p`, which a magic token fills.
pub open spec fn magic_at(s: Seq<u8>, p: int) -> Seq<u8> {
    Seq::new(6, |i: int| bits_value(s, p + 8 * i, 8) as u8)
}

/// A magic token at `p`, resolved against the table of releases.
pub open spec fn version_at(s: Seq<u8>, p: int) -> Decoded<DWGVersion> {
    if p + 48 > bit_len(s) {
        exhausted(s)
    } else {
        match DWGVersion::resolve(magic_at(s, p)) {
            Some(v) => literal(v, p + 48),
            None => failed(DwgError::UnrecognizedVersion, p + 48),
        }
    }
}

/// The sum that a modular integer at `p` encodes, before it is cut to the
/// width of the result. It is made of chunks of `width` bits. The top bit
/// of a chunk says whether another follows; the bits below it are placed
/// above the `shift` bits that the chunks before have filled.
pub open spec fn modular_at(s: Seq<u8>, p: int, width: nat, shift: nat) -> Decoded<nat>
    decreases bit_len(s) - p,
{
    if width == 0 || p + width > bit_len(s) {
        exhausted(s)
    } else {
        let chunk = bits_value(s, p, width);
        let flag = pow2((width - 1) as nat);
        let placed = (chunk % flag) * pow2(shift);
        if chunk < flag {
            literal(placed, p + width)
        } else {
            let rest = modular_at(s, p + width, width, shift + (width - 1) as nat);
            match rest.value {
                Ok(v) => literal(placed + v, rest.end),
                Err(e) => failed(e, rest.end),
            }
        }
    }
}

/// A modular integer at `p`, cut to the low 32 bits of its sum and read as
/// a signed number.
pub open spec fn modular_i32_at(s: Seq<u8>, p: int, width: nat) -> Decoded<i32> {
    let sum = modular_at(s, p, width, 0);
    match sum.value {
        Ok(v) => literal(signed_value(v % pow2(32), 32) as i32, sum.end),
        Err(e) => failed(e, sum.end),
    }
}

/// A modular integer in chunks of one octet.
pub open spec fn modular_char_at(s: Seq<u8>, p: int) -> Decoded<i32> {
    modular_i32_at(s, p, 8)
}

/// A modular integer in chunks of 16 bits.
pub open spec fn modular_short_at(s: Seq<u8>, p: int) -> Decoded<i32> {
    modular_i32_at(s, p, 16)
}

/// From the short form boundary on, an extrusion vector that starts with
/// a 1 bit is (0, 0, 1) and takes that one bit and no more.
pub proof fn lemma_extrusion_short_form(s: Seq<u8>, p: int, version: DWGVersion)
    requires
        version.at_least(SHORT_FORM_BOUNDARY),
        p + 1 <= bit_len(s),
        bit_at(s, p) == 1,
    ensures
        extrusion_at(s, p, version).value == Ok::<(u64, u64, u64), DwgError>(
            (DOUBLE_ZERO, DOUBLE_ZERO, DOUBLE_ONE),
        ),
        extrusion_at(s, p, version).end == p + 1,
{
}

/// Before the short form boundary an extrusion vector is always three
/// variable doubles, whatever its first bit is.
pub proof fn lemma_extrusion_long_form(s: Seq<u8>, p: int, version: DWGVersion)
    requires
        !version.at_least(SHORT_FORM_BOUNDARY),
    ensures
        extrusion_at(s, p, version) == three_bitdoubles_at(s, p),
        version == DWGVersion::AC1012 || version == DWGVersion::AC1014,
{
}

} // verus!
