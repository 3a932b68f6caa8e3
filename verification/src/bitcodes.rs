//! A cursor that reads the container's value encodings from a sequence of
//! octets, one bit at a time.

use crate::encoding::{
    bit_read_at, bit_triplet_at, bitdouble_at, bitdouble_with_default_at, bitlong_at,
    bitlonglong_at, bitshort_at, extrusion_at, failed, literal, magic_at, modular_at,
    modular_char_at, modular_i32_at, modular_short_at, object_type_at, raw_char_at,
    raw_double_at, raw_long_at, raw_longlong_at, raw_short_at, three_bitdoubles_at, version_at,
    Decoded, DOUBLE_ONE, DOUBLE_ZERO, LEGACY_BOUNDARY, OBJECT_TYPE_OFFSET, SHORT_FORM_BOUNDARY,
};
use crate::error::DwgError;
use crate::stream::{
    bit_at, bit_len, bits_value, lemma_bits_in_octet, lemma_bits_value_bound,
    lemma_bits_value_split, signed_value,
};
use crate::version::DWGVersion;
use vstd::arithmetic::div_mod::{lemma_add_mod_noop, lemma_mod_multiples_basic, lemma_small_mod};
use vstd::arithmetic::power2::*;
use vstd::bits::*;
use vstd::prelude::*;

verus! {

/// What a `BitReader` stands for: the octets it reads from, how many of
/// their bits it has consumed, and the release it decodes for, once known.
pub struct ReaderView {
    pub source: Seq<u8>,
    pub pos: int,
    pub version: Option<DWGVersion>,
}

/// A bit cursor over a borrowed sequence of octets.
///
/// The cursor only moves forward. A read that fails for want of octets
/// leaves it at the end of the source.
pub struct BitReader<'a> {
    bytes: &'a [u8],
    next: usize,
    cur_byte: u8,
    cur_bit: u32,
    version: Option<DWGVersion>,
}

impl<'a> View for BitReader<'a> {
    type V = ReaderView;

    closed spec fn view(&self) -> ReaderView {
        ReaderView {
            source: self.bytes@,
            pos: 8 * (self.next as int) - (8 - self.cur_bit as int),
            version: self.version,
        }
    }
}

/// The bit field of `take` bits at offset `c` of octet `x`, as the cursor
/// extracts it with a shift and a mask.
proof fn lemma_extract_field(x: u8, c: u32, take: u32)
    requires
        c < 8,
        0 < take <= 8 - c,
    ensures
        (((x >> (c as u8)) as u64) & (((1u64 << (take as u64)) - 1) as u64)) == ((x as nat) / pow2(
            c as nat,
        )) % pow2(take as nat),
        (1u64 << (take as u64)) >= 1,
{
    lemma2_to64();
    lemma_u8_shr_is_div(x, c as u8);
    lemma_u64_shl_is_mul(1, take as u64);
    let b = (x >> (c as u8)) as u64;
    lemma_u64_low_bits_mask_is_mod(b, take as nat);
}

/// Placing a field above the `shift` bits gathered so far adds it, scaled
/// by `2^shift`, to the number they form.
proof fn lemma_place_field(res: u64, chunk: u64, shift: u32, take: u32)
    requires
        shift + take <= 64,
        take > 0,
        res < pow2(shift as nat),
        chunk < pow2(take as nat),
    ensures
        (res | (chunk << (shift as u64))) == res + pow2(shift as nat) * chunk,
{
    let s = shift as u64;
    lemma_pow2_adds(shift as nat, take as nat);
    lemma2_to64();
    lemma2_to64_rest();
    lemma_pow2_pos(shift as nat);
    assert(pow2(shift as nat) * chunk <= pow2(shift as nat) * (pow2(take as nat) - 1))
        by (nonlinear_arith)
        requires
            chunk < pow2(take as nat),
    ;
    assert(pow2(shift as nat) * (pow2(take as nat) - 1) == pow2((shift + take) as nat) - pow2(
        shift as nat,
    )) by (nonlinear_arith)
        requires
            pow2((shift + take) as nat) == pow2(shift as nat) * pow2(take as nat),
    ;
    assert(pow2((shift + take) as nat) <= 0x1_0000_0000_0000_0000) by {
        if shift + take < 64 {
            lemma_pow2_strictly_increases((shift + take) as nat, 64);
        }
    }
    assert(chunk * pow2(shift as nat) == pow2(shift as nat) * chunk) by (nonlinear_arith);
    lemma_u64_shl_is_mul(chunk, s);
    lemma_u64_shl_is_mul(1, s);
    let hi = chunk << s;
    let one = 1u64 << s;
    assert(hi == pow2(shift as nat) * chunk);
    assert(one == pow2(shift as nat));
    assert(hi % one == 0) by (nonlinear_arith)
        requires
            hi == one * chunk,
            one > 0,
    ;
    assert((res | hi) == res + hi) by (bit_vector)
        requires
            s < 64,
            one == 1u64 << s,
            res < one,
            hi == chunk << s,
    ;
}

/// An 8-bit pattern read as a two's complement number.
fn signed8(v: u64) -> (r: i8)
    requires
        v < 0x100,
    ensures
        r == signed_value(v as nat, 8),
{
    let b = v as u8;
    proof {
        lemma2_to64();
        assert((b as i8) as int == if b < 0x80 {
            b as int
        } else {
            b as int - 0x100
        }) by (bit_vector);
    }
    #[verifier::truncate]
    (b as i8)
}

/// A 16-bit pattern read as a two's complement number.
fn signed16(v: u64) -> (r: i16)
    requires
        v < 0x1_0000,
    ensures
        r == signed_value(v as nat, 16),
{
    let b = v as u16;
    proof {
        lemma2_to64();
        assert((b as i16) as int == if b < 0x8000 {
            b as int
        } else {
            b as int - 0x1_0000
        }) by (bit_vector);
    }
    #[verifier::truncate]
    (b as i16)
}

/// A 32-bit pattern read as a two's complement number.
fn signed32(v: u64) -> (r: i32)
    requires
        v < 0x1_0000_0000,
    ensures
        r == signed_value(v as nat, 32),
{
    let b = v as u32;
    proof {
        lemma2_to64();
        assert((b as i32) as int == if b < 0x8000_0000 {
            b as int
        } else {
            b as int - 0x1_0000_0000
        }) by (bit_vector);
    }
    #[verifier::truncate]
    (b as i32)
}

/// A 64-bit pattern read as a two's complement number.
fn signed64(v: u64) -> (r: i64)
    ensures
        r == signed_value(v as nat, 64),
{
    proof {
        lemma2_to64();
        lemma2_to64_rest();
        assert((v as i64) as int == if v < 0x8000_0000_0000_0000 {
            v as int
        } else {
            v as int - 0x1_0000_0000_0000_0000
        }) by (bit_vector);
    }
    #[verifier::truncate]
    (v as i64)
}

/// The outcome `d` of the chunks still to come, with the sum `sum` of the
/// chunks already read added to its value.
spec fn carried(d: Decoded<nat>, sum: nat) -> Decoded<nat> {
    match d.value {
        Ok(v) => literal(sum + v, d.end),
        Err(e) => failed(e, d.end),
    }
}

/// A chunk placed at or above bit 32 does not reach the low 32 bits.
proof fn lemma_high_chunk_vanishes(sum: nat, payload: nat, shift: nat)
    requires
        shift >= 32,
    ensures
        (sum + payload * pow2(shift)) % pow2(32) == sum % pow2(32),
{
    let m = pow2(32) as int;
    let k = (payload * pow2((shift - 32) as nat)) as int;
    lemma_pow2_pos(32);
    lemma_pow2_adds(32, (shift - 32) as nat);
    assert(payload * pow2(shift) == k * m) by (nonlinear_arith)
        requires
            pow2(shift) == pow2(32) * pow2((shift - 32) as nat),
            m == pow2(32),
            k == payload * pow2((shift - 32) as nat),
    ;
    lemma_mod_multiples_basic(k, m);
    lemma_add_mod_noop(sum as int, k * m, m);
    assert((sum as int % m) % m == sum as int % m) by {
        lemma_small_mod((sum as int % m) as nat, m as nat);
    }
}

/// Adding a chunk to the low 32 bits of a sum gives the low 32 bits of
/// the new sum.
proof fn lemma_low_chunk_adds(sum: nat, placed: nat)
    ensures
        (sum % pow2(32) + placed) % pow2(32) == (sum + placed) % pow2(32),
{
    let m = pow2(32) as int;
    lemma_pow2_pos(32);
    lemma_add_mod_noop(sum as int, placed as int, m);
    lemma_add_mod_noop(sum as int % m, placed as int, m);
    assert((sum as int % m) % m == sum as int % m) by {
        lemma_small_mod((sum as int % m) as nat, m as nat);
    }
}

impl<'a> BitReader<'a> {
    #[verifier::type_invariant]
    spec fn well_formed(&self) -> bool {
        &&& self.next <= self.bytes@.len()
        &&& self.cur_bit <= 8
        &&& self.cur_bit < 8 ==> self.next >= 1 && self.cur_byte == self.bytes@[self.next - 1]
    }

    /// A cursor at the first bit of `bytes`, with no release resolved yet.
    pub fn new(bytes: &'a [u8]) -> (r: Self)
        ensures
            r@.source == bytes@,
            r@.pos == 0,
            r@.version is None,
    {
        BitReader { bytes, next: 0, cur_byte: 0, cur_bit: 8, version: None }
    }

    /// The release that gated decoders follow, if one has been set.
    pub fn get_version(&self) -> (r: Option<DWGVersion>)
        ensures
            r == self@.version,
    {
        self.version
    }

    /// Sets the release that gated decoders follow from now on.
    pub fn set_version(&mut self, version: DWGVersion)
        ensures
            final(self)@.source == old(self)@.source,
            final(self)@.pos == old(self)@.pos,
            final(self)@.version == Some(version),
            0 <= final(self)@.pos <= bit_len(final(self)@.source),
    {
        proof {
            use_type_invariant(&*self);
        }
        self.version = Some(version);
    }

    /// Reads the next `N` bits as a number whose lowest bit came first.
    ///
    /// Fails with `StreamExhausted`, leaving the cursor at the end of the
    /// source, exactly when fewer than `N` bits are left.
    pub fn read_bits<const N: u32>(&mut self) -> (r: Result<u64, DwgError>)
        requires
            0 < N <= 64,
        ensures
            final(self)@.source == old(self)@.source,
            final(self)@.version == old(self)@.version,
            0 <= old(self)@.pos <= final(self)@.pos <= bit_len(old(self)@.source),
            old(self)@.pos + N <= bit_len(old(self)@.source) ==> {
                &&& r matches Ok(v)
                &&& v == bits_value(old(self)@.source, old(self)@.pos, N as nat)
                &&& final(self)@.pos == old(self)@.pos + N
            },
            old(self)@.pos + N > bit_len(old(self)@.source) ==> {
                &&& r == Err::<u64, DwgError>(DwgError::StreamExhausted)
                &&& final(self)@.pos == bit_len(old(self)@.source)
            },
    {
        proof {
            use_type_invariant(&*self);
            lemma2_to64();
        }
        let ghost src = self@.source;
        let ghost start = self@.pos;
        let mut res: u64 = 0;
        let mut n: u32 = N;
        while n > 0
            invariant
                0 < N <= 64,
                n <= N,
                src == old(self)@.source,
                start == old(self)@.pos,
                self@.source == src,
                self@.version == old(self)@.version,
                0 <= start,
                self@.pos == start + (N - n),
                self@.pos <= bit_len(src),
                res == bits_value(src, start, (N - n) as nat),
            decreases n,
        {
            proof {
                use_type_invariant(&*self);
            }
            if self.cur_bit == 8 {
                if self.next < self.bytes.len() {
                    self.cur_byte = self.bytes[self.next];
                    self.next = self.next + 1;
                    self.cur_bit = 0;
                } else {
                    return Err(DwgError::StreamExhausted);
                }
            }
            let rem: u32 = 8 - self.cur_bit;
            let take: u32 = if n > rem {
                rem
            } else {
                n
            };
            let shift: u32 = N - n;
            proof {
                lemma_extract_field(self.cur_byte, self.cur_bit, take);
                lemma_bits_in_octet(src, self.next - 1, self.cur_bit as nat, take as nat);
                lemma_bits_value_bound(src, start, shift as nat);
                lemma_bits_value_bound(src, start + shift, take as nat);
                lemma_bits_value_split(src, start, shift as nat, take as nat);
            }
            let mask: u64 = (1u64 << (take as u64)) - 1;
            let chunk: u64 = ((self.cur_byte >> (self.cur_bit as u8)) as u64) & mask;
            proof {
                lemma_place_field(res, chunk, shift, take);
            }
            res = res | (chunk << (shift as u64));
            n = n - take;
            self.cur_bit = self.cur_bit + take;
        }
        Ok(res)
    }

    /// Reads one bit.
    pub fn read_bit(&mut self) -> (r: Result<u8, DwgError>)
        ensures
            final(self)@.source == old(self)@.source,
            final(self)@.version == old(self)@.version,
            0 <= old(self)@.pos <= final(self)@.pos <= bit_len(old(self)@.source),
            final(self)@.pos == bit_read_at(old(self)@.source, old(self)@.pos).end,
            r == bit_read_at(old(self)@.source, old(self)@.pos).value,
    {
        proof {
            assert(bits_value(self@.source, self@.pos, 1) == bit_at(self@.source, self@.pos)) by {
                reveal_with_fuel(bits_value, 2);
            }
        }
        match self.read_bits::<1>() {
            Ok(v) => Ok(v as u8),
            Err(e) => Err(e),
        }
    }

    /// Reads a raw signed 8-bit integer.
    pub fn read_raw_char(&mut self) -> (r: Result<i8, DwgError>)
        ensures
            final(self)@.source == old(self)@.source,
            final(self)@.version == old(self)@.version,
            0 <= old(self)@.pos <= final(self)@.pos <= bit_len(old(self)@.source),
            final(self)@.pos == raw_char_at(old(self)@.source, old(self)@.pos).end,
            r == raw_char_at(old(self)@.source, old(self)@.pos).value,
    {
        proof {
            lemma2_to64();
            lemma_bits_value_bound(self@.source, self@.pos, 8);
        }
        match self.read_bits::<8>() {
            Ok(v) => Ok(signed8(v)),
            Err(e) => Err(e),
        }
    }

    /// Reads a raw signed 16-bit integer.
    pub fn read_raw_short(&mut self) -> (r: Result<i16, DwgError>)
        ensures
            final(self)@.source == old(self)@.source,
            final(self)@.version == old(self)@.version,
            0 <= old(self)@.pos <= final(self)@.pos <= bit_len(old(self)@.source),
            final(self)@.pos == raw_short_at(old(self)@.source, old(self)@.pos).end,
            r == raw_short_at(old(self)@.source, old(self)@.pos).value,
    {
        proof {
            lemma2_to64();
            lemma_bits_value_bound(self@.source, self@.pos, 16);
        }
        match self.read_bits::<16>() {
            Ok(v) => Ok(signed16(v)),
            Err(e) => Err(e),
        }
    }

    /// Reads a raw signed 32-bit integer.
    pub fn read_raw_long(&mut self) -> (r: Result<i32, DwgError>)
        ensures
            final(self)@.source == old(self)@.source,
            final(self)@.version == old(self)@.version,
            0 <= old(self)@.pos <= final(self)@.pos <= bit_len(old(self)@.source),
            final(self)@.pos == raw_long_at(old(self)@.source, old(self)@.pos).end,
            r == raw_long_at(old(self)@.source, old(self)@.pos).value,
    {
        proof {
            lemma2_to64();
            lemma_bits_value_bound(self@.source, self@.pos, 32);
        }
        match self.read_bits::<32>() {
            Ok(v) => Ok(signed32(v)),
            Err(e) => Err(e),
        }
    }

    /// Reads a raw signed 64-bit integer, its low 32 bits first.
    pub fn read_raw_longlong(&mut self) -> (r: Result<i64, DwgError>)
        ensures
            final(self)@.source == old(self)@.source,
            final(self)@.version == old(self)@.version,
            0 <= old(self)@.pos <= final(self)@.pos <= bit_len(old(self)@.source),
            final(self)@.pos == raw_longlong_at(old(self)@.source, old(self)@.pos).end,
            r == raw_longlong_at(old(self)@.source, old(self)@.pos).value,
    {
        proof {
            lemma2_to64();
            lemma2_to64_rest();
            lemma_bits_value_bound(self@.source, self@.pos, 64);
        }
        match self.read_raw_double() {
            Ok(v) => Ok(signed64(v)),
            Err(e) => Err(e),
        }
    }

    /// Reads the bit pattern of a raw double, its low 32 bits first.
    pub fn read_raw_double(&mut self) -> (r: Result<u64, DwgError>)
        ensures
            final(self)@.source == old(self)@.source,
            final(self)@.version == old(self)@.version,
            0 <= old(self)@.pos <= final(self)@.pos <= bit_len(old(self)@.source),
            final(self)@.pos == raw_double_at(old(self)@.source, old(self)@.pos).end,
            r == raw_double_at(old(self)@.source, old(self)@.pos).value,
    {
        let ghost src = self@.source;
        let ghost p = self@.pos;
        proof {
            lemma2_to64();
            lemma2_to64_rest();
            lemma_bits_value_bound(src, p, 32);
            lemma_bits_value_bound(src, p + 32, 32);
            lemma_bits_value_bound(src, p, 64);
            lemma_bits_value_split(src, p, 32, 32);
        }
        let low = match self.read_bits::<32>() {
            Ok(v) => v,
            Err(e) => { return Err(e); },
        };
        let high = match self.read_bits::<32>() {
            Ok(v) => v,
            Err(e) => { return Err(e); },
        };
        proof {
            assert(((high << 32) | low) == low + 0x1_0000_0000 * high) by (bit_vector)
                requires
                    low < 0x1_0000_0000,
                    high < 0x1_0000_0000,
            ;
        }
        Ok((high << 32) | low)
    }

    /// Reads up to three bits, stopping after the first zero bit, and
    /// returns them in one octet with the first bit highest.
    pub fn read_bit_triplet(&mut self) -> (r: Result<u8, DwgError>)
        ensures
            final(self)@.source == old(self)@.source,
            final(self)@.version == old(self)@.version,
            0 <= old(self)@.pos <= final(self)@.pos <= bit_len(old(self)@.source),
            final(self)@.pos == bit_triplet_at(old(self)@.source, old(self)@.pos).end,
            r == bit_triplet_at(old(self)@.source, old(self)@.pos).value,
    {
        proof {
            use_type_invariant(&*self);
        }
        let first = self.read_bit()?;
        if first == 0 {
            return Ok(0);
        }
        let second = self.read_bit()?;
        if second == 0 {
            return Ok(2);
        }
        let third = self.read_bit()?;
        Ok(6 + third)
    }

    /// Reads a variable short.
    pub fn read_bitshort(&mut self) -> (r: Result<i16, DwgError>)
        ensures
            final(self)@.source == old(self)@.source,
            final(self)@.version == old(self)@.version,
            0 <= old(self)@.pos <= final(self)@.pos <= bit_len(old(self)@.source),
            final(self)@.pos == bitshort_at(old(self)@.source, old(self)@.pos).end,
            r == bitshort_at(old(self)@.source, old(self)@.pos).value,
    {
        proof {
            use_type_invariant(&*self);
            lemma2_to64();
            lemma_bits_value_bound(self@.source, self@.pos, 2);
            lemma_bits_value_bound(self@.source, self@.pos + 2, 8);
        }
        let flag = self.read_bits::<2>()?;
        if flag == 0 {
            self.read_raw_short()
        } else if flag == 1 {
            let v = self.read_bits::<8>()?;
            Ok(v as i16)
        } else if flag == 2 {
            Ok(0)
        } else {
            Ok(256)
        }
    }

    /// Reads a variable long.
    pub fn read_bitlong(&mut self) -> (r: Result<i32, DwgError>)
        ensures
            final(self)@.source == old(self)@.source,
            final(self)@.version == old(self)@.version,
            0 <= old(self)@.pos <= final(self)@.pos <= bit_len(old(self)@.source),
            final(self)@.pos == bitlong_at(old(self)@.source, old(self)@.pos).end,
            r == bitlong_at(old(self)@.source, old(self)@.pos).value,
    {
        proof {
            use_type_invariant(&*self);
            lemma2_to64();
            lemma_bits_value_bound(self@.source, self@.pos, 2);
            lemma_bits_value_bound(self@.source, self@.pos + 2, 8);
        }
        let flag = self.read_bits::<2>()?;
        if flag == 0 {
            self.read_raw_long()
        } else if flag == 1 {
            let v = self.read_bits::<8>()?;
            Ok(v as i32)
        } else if flag == 2 {
            Ok(0)
        } else {
            Ok(256)
        }
    }

    /// Reads a variable long long.
    pub fn read_bitlonglong(&mut self) -> (r: Result<i64, DwgError>)
        ensures
            final(self)@.source == old(self)@.source,
            final(self)@.version == old(self)@.version,
            0 <= old(self)@.pos <= final(self)@.pos <= bit_len(old(self)@.source),
            final(self)@.pos == bitlonglong_at(old(self)@.source, old(self)@.pos).end,
            r == bitlonglong_at(old(self)@.source, old(self)@.pos).value,
    {
        proof {
            use_type_invariant(&*self);
            lemma2_to64();
            lemma_bits_value_bound(self@.source, self@.pos, 2);
            lemma_bits_value_bound(self@.source, self@.pos + 2, 8);
        }
        let flag = self.read_bits::<2>()?;
        if flag == 0 {
            self.read_raw_longlong()
        } else if flag == 1 {
            let v = self.read_bits::<8>()?;
            Ok(v as i64)
        } else if flag == 2 {
            Ok(0)
        } else {
            Ok(256)
        }
    }

    /// Reads the bit pattern of a variable double.
    ///
    /// Fails with `InvalidSelector` when the selector is 3.
    pub fn read_bitdouble(&mut self) -> (r: Result<u64, DwgError>)
        ensures
            final(self)@.source == old(self)@.source,
            final(self)@.version == old(self)@.version,
            0 <= old(self)@.pos <= final(self)@.pos <= bit_len(old(self)@.source),
            final(self)@.pos == bitdouble_at(old(self)@.source, old(self)@.pos).end,
            r == bitdouble_at(old(self)@.source, old(self)@.pos).value,
    {
        proof {
            use_type_invariant(&*self);
            lemma2_to64();
            lemma_bits_value_bound(self@.source, self@.pos, 2);
        }
        let flag = self.read_bits::<2>()?;
        if flag == 0 {
            self.read_raw_double()
        } else if flag == 1 {
            Ok(DOUBLE_ONE)
        } else if flag == 2 {
            Ok(DOUBLE_ZERO)
        } else {
            Err(DwgError::InvalidSelector)
        }
    }

    /// Reads three variable doubles in a row.
    fn read_three_bitdoubles(&mut self) -> (r: Result<(u64, u64, u64), DwgError>)
        ensures
            final(self)@.source == old(self)@.source,
            final(self)@.version == old(self)@.version,
            0 <= old(self)@.pos <= final(self)@.pos <= bit_len(old(self)@.source),
            final(self)@.pos == three_bitdoubles_at(old(self)@.source, old(self)@.pos).end,
            r == three_bitdoubles_at(old(self)@.source, old(self)@.pos).value,
    {
        let x = self.read_bitdouble()?;
        let y = self.read_bitdouble()?;
        let z = self.read_bitdouble()?;
        Ok((x, y, z))
    }

    /// Reads the bit patterns of an extrusion vector, as the release that
    /// was set encodes it.
    pub fn read_bit_extrusion(&mut self) -> (r: Result<(u64, u64, u64), DwgError>)
        requires
            old(self)@.version is Some,
        ensures
            final(self)@.source == old(self)@.source,
            final(self)@.version == old(self)@.version,
            0 <= old(self)@.pos <= final(self)@.pos <= bit_len(old(self)@.source),
            final(self)@.pos == extrusion_at(
                old(self)@.source,
                old(self)@.pos,
                old(self)@.version->0,
            ).end,
            r == extrusion_at(old(self)@.source, old(self)@.pos, old(self)@.version->0).value,
    {
        proof {
            use_type_invariant(&*self);
        }
        let version = self.resolved_version();
        if version >= SHORT_FORM_BOUNDARY {
            let bit = self.read_bit()?;
            if bit == 1 {
                return Ok((DOUBLE_ZERO, DOUBLE_ZERO, DOUBLE_ONE));
            }
        }
        self.read_three_bitdoubles()
    }

    /// Reads the bit pattern of a defaulted double, as the release that
    /// was set encodes it.
    pub fn read_bitdouble_with_default(&mut self) -> (r: Result<u64, DwgError>)
        requires
            old(self)@.version is Some,
        ensures
            final(self)@.source == old(self)@.source,
            final(self)@.version == old(self)@.version,
            0 <= old(self)@.pos <= final(self)@.pos <= bit_len(old(self)@.source),
            final(self)@.pos == bitdouble_with_default_at(
                old(self)@.source,
                old(self)@.pos,
                old(self)@.version->0,
            ).end,
            r == bitdouble_with_default_at(
                old(self)@.source,
                old(self)@.pos,
                old(self)@.version->0,
            ).value,
    {
        proof {
            use_type_invariant(&*self);
        }
        let version = self.resolved_version();
        if version >= SHORT_FORM_BOUNDARY {
            let bit = self.read_bit()?;
            if bit == 1 {
                return Ok(DOUBLE_ZERO);
            }
        }
        self.read_bitdouble()
    }

    /// Reads a colour index, which is written as a variable short.
    pub fn read_cm_color_short(&mut self) -> (r: Result<i16, DwgError>)
        ensures
            final(self)@.source == old(self)@.source,
            final(self)@.version == old(self)@.version,
            0 <= old(self)@.pos <= final(self)@.pos <= bit_len(old(self)@.source),
            final(self)@.pos == bitshort_at(old(self)@.source, old(self)@.pos).end,
            r == bitshort_at(old(self)@.source, old(self)@.pos).value,
    {
        self.read_bitshort()
    }

    /// Reads an object type code, as the release that was set encodes it.
    pub fn read_object_type(&mut self) -> (r: Result<i16, DwgError>)
        requires
            old(self)@.version is Some,
        ensures
            final(self)@.source == old(self)@.source,
            final(self)@.version == old(self)@.version,
            0 <= old(self)@.pos <= final(self)@.pos <= bit_len(old(self)@.source),
            final(self)@.pos == object_type_at(
                old(self)@.source,
                old(self)@.pos,
                old(self)@.version->0,
            ).end,
            r == object_type_at(old(self)@.source, old(self)@.pos, old(self)@.version->0).value,
    {
        proof {
            use_type_invariant(&*self);
            lemma2_to64();
            lemma_bits_value_bound(self@.source, self@.pos, 2);
            lemma_bits_value_bound(self@.source, self@.pos + 2, 8);
        }
        let version = self.resolved_version();
        if version <= LEGACY_BOUNDARY {
            self.read_bitshort()
        } else {
            let flag = self.read_bits::<2>()?;
            if flag == 0 {
                let v = self.read_raw_char()?;
                Ok(v as i16)
            } else if flag == 1 {
                let v = self.read_raw_char()?;
                Ok(v as i16 + OBJECT_TYPE_OFFSET)
            } else {
                self.read_raw_short()
            }
        }
    }

    /// The release that was set.
    fn resolved_version(&self) -> (r: DWGVersion)
        requires
            self@.version is Some,
        ensures
            self@.version == Some(r),
    {
        match self.version {
            Some(v) => v,
            None => vstd::pervasive::unreached(),
        }
    }

    /// Reads a magic token of six octets and resolves it. The release is
    /// returned, not set.
    ///
    /// Fails with `UnrecognizedVersion` when the token is not in the table.
    pub fn read_version(&mut self) -> (r: Result<DWGVersion, DwgError>)
        ensures
            final(self)@.source == old(self)@.source,
            final(self)@.version == old(self)@.version,
            0 <= old(self)@.pos <= final(self)@.pos <= bit_len(old(self)@.source),
            final(self)@.pos == version_at(old(self)@.source, old(self)@.pos).end,
            r == version_at(old(self)@.source, old(self)@.pos).value,
    {
        let ghost src = self@.source;
        let ghost p = self@.pos;
        proof {
            use_type_invariant(&*self);
            lemma2_to64();
            lemma_bits_value_bound(src, p, 8);
            lemma_bits_value_bound(src, p + 8, 8);
            lemma_bits_value_bound(src, p + 16, 8);
            lemma_bits_value_bound(src, p + 24, 8);
            lemma_bits_value_bound(src, p + 32, 8);
            lemma_bits_value_bound(src, p + 40, 8);
        }
        let b0 = self.read_bits::<8>()? as u8;
        let b1 = self.read_bits::<8>()? as u8;
        let b2 = self.read_bits::<8>()? as u8;
        let b3 = self.read_bits::<8>()? as u8;
        let b4 = self.read_bits::<8>()? as u8;
        let b5 = self.read_bits::<8>()? as u8;
        let magic = [b0, b1, b2, b3, b4, b5];
        proof {
            assert(magic@ =~= magic_at(src, p));
        }
        match DWGVersion::from_magic(&magic) {
            Some(v) => Ok(v),
            None => Err(DwgError::UnrecognizedVersion),
        }
    }

    /// Reads a modular integer made of chunks of `W` bits.
    fn read_modular<const W: u32>(&mut self) -> (r: Result<i32, DwgError>)
        requires
            W == 8 || W == 16,
        ensures
            final(self)@.source == old(self)@.source,
            final(self)@.version == old(self)@.version,
            0 <= old(self)@.pos <= final(self)@.pos <= bit_len(old(self)@.source),
            final(self)@.pos == modular_i32_at(old(self)@.source, old(self)@.pos, W as nat).end,
            r == modular_i32_at(old(self)@.source, old(self)@.pos, W as nat).value,
    {
        let ghost src = self@.source;
        let ghost start = self@.pos;
        let flag: u64 = if W == 8 {
            0x80
        } else {
            0x8000
        };
        let step: u32 = W - 1;
        let mut acc: u64 = 0;
        let mut shift: u32 = 0;
        let ghost mut sum: nat = 0;
        let ghost mut true_shift: nat = 0;
        proof {
            use_type_invariant(&*self);
            lemma2_to64();
        }
        loop
            invariant
                W == 8 || W == 16,
                flag == pow2((W - 1) as nat),
                0 < flag <= 0x8000,
                step == W - 1,
                src == old(self)@.source,
                start == old(self)@.pos,
                self@.source == src,
                self@.version == old(self)@.version,
                0 <= start <= self@.pos <= bit_len(src),
                acc == sum % pow2(32),
                acc < 0x1_0000_0000,
                shift < 48,
                shift < 32 ==> shift == true_shift,
                shift >= 32 ==> true_shift >= 32,
                modular_at(src, start, W as nat, 0) == carried(
                    modular_at(src, self@.pos, W as nat, true_shift),
                    sum,
                ),
            decreases bit_len(src) - self@.pos,
        {
            let ghost p = self@.pos;
            proof {
                lemma2_to64();
                lemma_bits_value_bound(src, p, W as nat);
            }
            let chunk = match self.read_bits::<W>() {
                Ok(v) => v,
                Err(e) => { return Err(e); },
            };
            let payload = chunk % flag;
            let ghost placed = (payload as nat) * pow2(true_shift);
            if shift < 32 {
                proof {
                    lemma_pow2_strictly_increases(shift as nat, 32);
                    assert(payload * pow2(shift as nat) <= 0x8000 * 0x1_0000_0000)
                        by (nonlinear_arith)
                        requires
                            payload <= 0x8000,
                            pow2(shift as nat) <= 0x1_0000_0000,
                    ;
                    lemma_u64_shl_is_mul(payload, shift as u64);
                    lemma_low_chunk_adds(sum, placed);
                }
                acc = (acc + (payload << (shift as u64))) % 0x1_0000_0000;
            } else {
                proof {
                    lemma_high_chunk_vanishes(sum, payload as nat, true_shift);
                }
            }
            proof {
                sum = sum + placed;
            }
            if chunk < flag {
                return Ok(signed32(acc));
            }
            if shift < 32 {
                shift = shift + step;
            }
            proof {
                true_shift = true_shift + step as nat;
            }
        }
    }

    /// Reads a modular integer made of chunks of one octet: seven bits of
    /// the value in each, lowest first, the top bit set on all but the last.
    /// Bits of the sum above the 32nd are dropped.
    pub fn read_modular_char(&mut self) -> (r: Result<i32, DwgError>)
        ensures
            final(self)@.source == old(self)@.source,
            final(self)@.version == old(self)@.version,
            0 <= old(self)@.pos <= final(self)@.pos <= bit_len(old(self)@.source),
            final(self)@.pos == modular_char_at(old(self)@.source, old(self)@.pos).end,
            r == modular_char_at(old(self)@.source, old(self)@.pos).value,
    {
        self.read_modular::<8>()
    }

    /// Reads a modular integer made of chunks of 16 bits: fifteen bits of
    /// the value in each, lowest first, the top bit set on all but the last.
    /// Bits of the sum above the 32nd are dropped.
    pub fn read_modular_short(&mut self) -> (r: Result<i32, DwgError>)
        ensures
            final(self)@.source == old(self)@.source,
            final(self)@.version == old(self)@.version,
            0 <= old(self)@.pos <= final(self)@.pos <= bit_len(old(self)@.source),
            final(self)@.pos == modular_short_at(old(self)@.source, old(self)@.pos).end,
            r == modular_short_at(old(self)@.source, old(self)@.pos).value,
    {
        self.read_modular::<16>()
    }
}

} // verus!
