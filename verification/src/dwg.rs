//! The readers for the file header and for the object free-space record.

use crate::bitcodes::BitReader;
use crate::encoding::{
    exhausted, failed, literal, magic_at, version_at, Decoded, LEGACY_BOUNDARY,
};
use crate::error::{DwgError, HeaderStep};
use crate::stream::{bit_len, bits_value, lemma_bits_value_bound, signed_value};
use crate::version::DWGVersion;
use vstd::arithmetic::power2::lemma2_to64;
use vstd::prelude::*;

verus! {

/// Where one named section lies in the file.
#[derive(Clone, Copy, Debug, PartialEq, Eq, Structural)]
pub struct SectionLocatorEntry {
    pub unused: u8,
    pub seeker: i32,
    pub size: i32,
}

/// What the file header holds, once its fixed parts have been checked.
#[derive(Clone, Debug, PartialEq, Eq)]
pub struct HeaderRecord {
    /// The release that the magic token names.
    pub version: DWGVersion,
    /// The sixth reserved octet, which is not checked.
    pub reserved: u8,
    /// Offset of the image sentinel.
    pub image_seeker: i32,
    /// The octet between the image offset and the section count, which is
    /// not checked.
    pub padding: u8,
    /// The section locator table, in file order.
    pub sections: Vec<SectionLocatorEntry>,
    /// The checksum as stored. It is not verified here.
    pub checksum: u16,
}

/// A header record with its table as a sequence.
pub struct HeaderView {
    pub version: DWGVersion,
    pub reserved: u8,
    pub image_seeker: i32,
    pub padding: u8,
    pub sections: Seq<SectionLocatorEntry>,
    pub checksum: u16,
}

impl View for HeaderRecord {
    type V = HeaderView;

    open spec fn view(&self) -> HeaderView {
        HeaderView {
            version: self.version,
            reserved: self.reserved,
            image_seeker: self.image_seeker,
            padding: self.padding,
            sections: self.sections@,
            checksum: self.checksum,
        }
    }
}

/// The sixteen octets that close the file header.
pub open spec fn sentinel() -> Seq<u8> {
    seq![
        0x95u8, 0xA0u8, 0x4Eu8, 0x28u8, 0x99u8, 0x82u8, 0x1Au8, 0xE5u8,
        0x5Eu8, 0x41u8, 0xE0u8, 0x5Fu8, 0x9Du8, 0x3Au8, 0x4Du8, 0x00u8,
    ]
}

/// The octet at bit `p`.
pub open spec fn octet_at(s: Seq<u8>, p: int) -> u8 {
    bits_value(s, p, 8) as u8
}

/// The little-endian signed 32-bit integer at bit `p`.
pub open spec fn long_at(s: Seq<u8>, p: int) -> i32 {
    signed_value(bits_value(s, p, 32), 32) as i32
}

/// The little-endian signed 64-bit integer at bit `p`.
pub open spec fn longlong_at(s: Seq<u8>, p: int) -> i64 {
    signed_value(bits_value(s, p, 64), 64) as i64
}

/// The section locator entry of nine octets at bit `p`.
pub open spec fn entry_at(s: Seq<u8>, p: int) -> SectionLocatorEntry {
    SectionLocatorEntry {
        unused: octet_at(s, p),
        seeker: long_at(s, p + 8),
        size: long_at(s, p + 40),
    }
}

/// `count` reserved octets at `p`, each of which must be zero. The first
/// octet that is missing or not zero decides the outcome.
pub open spec fn zeros_at(s: Seq<u8>, p: int, count: nat) -> Decoded<()>
    decreases count,
{
    if count == 0 {
        literal((), p)
    } else if p + 8 > bit_len(s) {
        exhausted(s)
    } else if octet_at(s, p) != 0 {
        failed(DwgError::MalformedHeader(HeaderStep::ReservedBytes), p + 8)
    } else {
        zeros_at(s, p + 8, (count - 1) as nat)
    }
}

/// The octets of the sentinel from index `from` on, at `p`. The first
/// octet that is missing or differs decides the outcome.
pub open spec fn sentinel_at(s: Seq<u8>, p: int, from: nat) -> Decoded<()>
    decreases 16 - from,
{
    if from >= 16 {
        literal((), p)
    } else if p + 8 > bit_len(s) {
        exhausted(s)
    } else if octet_at(s, p) != sentinel()[from as int] {
        failed(DwgError::MalformedHeader(HeaderStep::TrailingSentinel), p + 8)
    } else {
        sentinel_at(s, p + 8, from + 1)
    }
}

/// Number of entries that a stored section count stands for: a count
/// below zero stands for none.
pub open spec fn section_count(stored: i32) -> nat {
    if stored > 0 {
        stored as nat
    } else {
        0
    }
}

/// The file header at `p`: the magic token, five reserved octets that are
/// zero and one that is free, the literal 1, the image offset, a free
/// octet, the section count with as many locator entries, the checksum,
/// and the sentinel. The first part that is missing or wrong decides the
/// outcome.
pub open spec fn header_at(s: Seq<u8>, p: int) -> Decoded<HeaderView> {
    let version = version_at(s, p);
    let reserved = zeros_at(s, p + 48, 5);
    let n = section_count(long_at(s, p + 144));
    let table_end = p + 176 + 72 * n;
    let closing = sentinel_at(s, table_end + 16, 0);
    if version.value is Err {
        failed(version.value->Err_0, version.end)
    } else if reserved.value is Err {
        failed(reserved.value->Err_0, reserved.end)
    } else if p + 104 > bit_len(s) {
        exhausted(s)
    } else if octet_at(s, p + 96) != 1 {
        failed(DwgError::MalformedHeader(HeaderStep::LiteralOne), p + 104)
    } else if table_end + 16 > bit_len(s) {
        exhausted(s)
    } else if closing.value is Err {
        failed(closing.value->Err_0, closing.end)
    } else {
        literal(
            HeaderView {
                version: version.value->Ok_0,
                reserved: octet_at(s, p + 88),
                image_seeker: long_at(s, p + 104),
                padding: octet_at(s, p + 136),
                sections: Seq::new(n, |i: int| entry_at(s, p + 176 + 72 * i)),
                checksum: bits_value(s, table_end, 16) as u16,
            },
            table_end + 144,
        )
    }
}

/// Reads one octet as an unsigned number.
fn read_octet(reader: &mut BitReader) -> (r: Result<u8, DwgError>)
    ensures
        final(reader)@.source == old(reader)@.source,
        final(reader)@.version == old(reader)@.version,
        0 <= old(reader)@.pos <= final(reader)@.pos <= bit_len(old(reader)@.source),
        old(reader)@.pos + 8 <= bit_len(old(reader)@.source) ==> {
            &&& r == Ok::<u8, DwgError>(octet_at(old(reader)@.source, old(reader)@.pos))
            &&& final(reader)@.pos == old(reader)@.pos + 8
        },
        old(reader)@.pos + 8 > bit_len(old(reader)@.source) ==> {
            &&& r == Err::<u8, DwgError>(DwgError::StreamExhausted)
            &&& final(reader)@.pos == bit_len(old(reader)@.source)
        },
{
    proof {
        lemma2_to64();
        lemma_bits_value_bound(reader@.source, reader@.pos, 8);
    }
    let v = reader.read_bits::<8>()?;
    Ok(v as u8)
}

/// Reads `count` reserved octets and checks that each is zero.
fn expect_zeros(reader: &mut BitReader, count: u32) -> (r: Result<(), DwgError>)
    requires
        0 <= old(reader)@.pos <= bit_len(old(reader)@.source),
    ensures
        final(reader)@.source == old(reader)@.source,
        final(reader)@.version == old(reader)@.version,
        0 <= old(reader)@.pos <= final(reader)@.pos <= bit_len(old(reader)@.source),
        final(reader)@.pos == zeros_at(old(reader)@.source, old(reader)@.pos, count as nat).end,
        r == zeros_at(old(reader)@.source, old(reader)@.pos, count as nat).value,
{
    let ghost src = reader@.source;
    let ghost start = reader@.pos;
    let mut i: u32 = 0;
    while i < count
        invariant
            i <= count,
            src == old(reader)@.source,
            start == old(reader)@.pos,
            reader@.source == src,
            reader@.version == old(reader)@.version,
            0 <= start <= reader@.pos <= bit_len(src),
            zeros_at(src, start, count as nat) == zeros_at(src, reader@.pos, (count - i) as nat),
        decreases count - i,
    {
        let octet = read_octet(reader)?;
        if octet != 0 {
            return Err(DwgError::MalformedHeader(HeaderStep::ReservedBytes));
        }
        i = i + 1;
    }
    Ok(())
}

/// Octet `i` of the sentinel.
fn sentinel_octet(i: usize) -> (r: u8)
    requires
        i < 16,
    ensures
        r == sentinel()[i as int],
{
    let table: [u8; 16] = [
        0x95, 0xA0, 0x4E, 0x28, 0x99, 0x82, 0x1A, 0xE5,
        0x5E, 0x41, 0xE0, 0x5F, 0x9D, 0x3A, 0x4D, 0x00,
    ];
    proof {
        assert(table@ =~= sentinel());
    }
    table[i]
}

/// Reads sixteen octets and checks them against the sentinel.
fn expect_sentinel(reader: &mut BitReader) -> (r: Result<(), DwgError>)
    requires
        0 <= old(reader)@.pos <= bit_len(old(reader)@.source),
    ensures
        final(reader)@.source == old(reader)@.source,
        final(reader)@.version == old(reader)@.version,
        0 <= old(reader)@.pos <= final(reader)@.pos <= bit_len(old(reader)@.source),
        final(reader)@.pos == sentinel_at(old(reader)@.source, old(reader)@.pos, 0).end,
        r == sentinel_at(old(reader)@.source, old(reader)@.pos, 0).value,
{
    let ghost src = reader@.source;
    let ghost start = reader@.pos;
    let mut i: usize = 0;
    while i < 16
        invariant
            i <= 16,
            src == old(reader)@.source,
            start == old(reader)@.pos,
            reader@.source == src,
            reader@.version == old(reader)@.version,
            0 <= start <= reader@.pos <= bit_len(src),
            sentinel_at(src, start, 0) == sentinel_at(src, reader@.pos, i as nat),
        decreases 16 - i,
    {
        let octet = read_octet(reader)?;
        if octet != sentinel_octet(i) {
            return Err(DwgError::MalformedHeader(HeaderStep::TrailingSentinel));
        }
        i = i + 1;
    }
    Ok(())
}

/// Reads the `stored` entries of a section locator table.
fn read_sections(reader: &mut BitReader, stored: i32) -> (r: Result<
    Vec<SectionLocatorEntry>,
    DwgError,
>)
    requires
        0 <= old(reader)@.pos <= bit_len(old(reader)@.source),
    ensures
        final(reader)@.source == old(reader)@.source,
        final(reader)@.version == old(reader)@.version,
        0 <= old(reader)@.pos <= final(reader)@.pos <= bit_len(old(reader)@.source),
        old(reader)@.pos + 72 * section_count(stored) <= bit_len(old(reader)@.source) ==> {
            &&& r matches Ok(sections)
            &&& sections@ == Seq::new(
                section_count(stored),
                |i: int| entry_at(old(reader)@.source, old(reader)@.pos + 72 * i),
            )
            &&& final(reader)@.pos == old(reader)@.pos + 72 * section_count(stored)
        },
        old(reader)@.pos + 72 * section_count(stored) > bit_len(old(reader)@.source) ==> {
            &&& r matches Err(e)
            &&& e == DwgError::StreamExhausted
            &&& final(reader)@.pos == bit_len(old(reader)@.source)
        },
{
    let ghost src = reader@.source;
    let ghost start = reader@.pos;
    let mut sections: Vec<SectionLocatorEntry> = Vec::new();
    let mut i: i32 = 0;
    while i < stored
        invariant
            0 <= i,
            i <= section_count(stored),
            src == old(reader)@.source,
            start == old(reader)@.pos,
            reader@.source == src,
            reader@.version == old(reader)@.version,
            reader@.pos == start + 72 * i,
            0 <= start,
            reader@.pos <= bit_len(src),
            sections@ == Seq::new(i as nat, |k: int| entry_at(src, start + 72 * k)),
        decreases stored - i,
    {
        let ghost p = reader@.pos;
        proof {
            lemma2_to64();
        }
        let unused = read_octet(reader)?;
        let seeker = reader.read_raw_long()?;
        let size = reader.read_raw_long()?;
        sections.push(SectionLocatorEntry { unused, seeker, size });
        proof {
            assert(sections@ =~= Seq::new((i + 1) as nat, |k: int| entry_at(src, start + 72 * k)));
        }
        i = i + 1;
    }
    proof {
        assert(sections@ =~= Seq::new(
            section_count(stored),
            |k: int| entry_at(old(reader)@.source, old(reader)@.pos + 72 * k),
        ));
    }
    Ok(sections)
}

/// Reserved octets that pass the check end right after the last of them.
proof fn lemma_zeros_end(s: Seq<u8>, p: int, count: nat)
    ensures
        zeros_at(s, p, count).value is Ok ==> zeros_at(s, p, count).end == p + 8 * count && (count
            > 0 ==> p + 8 * count <= bit_len(s)),
    decreases count,
{
    if count > 0 && p + 8 <= bit_len(s) && octet_at(s, p) == 0 {
        lemma_zeros_end(s, p + 8, (count - 1) as nat);
    }
}

/// A sentinel that passes the check ends right after its last octet.
proof fn lemma_sentinel_end(s: Seq<u8>, p: int, from: nat)
    requires
        from <= 16,
    ensures
        sentinel_at(s, p, from).value is Ok ==> sentinel_at(s, p, from).end == p + 8 * (16 - from),
    decreases 16 - from,
{
    if from < 16 && p + 8 <= bit_len(s) && octet_at(s, p) == sentinel()[from as int] {
        lemma_sentinel_end(s, p + 8, from + 1);
    }
}

/// Reads and checks the file header, and sets the release that its magic
/// token names on the reader as soon as it is resolved.
///
/// Fails on the first part that is missing (`StreamExhausted`), on an
/// unknown magic token (`UnrecognizedVersion`), and on a fixed part that
/// does not hold (`MalformedHeader`, with the check that failed).
pub fn read_r2000_header(reader: &mut BitReader) -> (r: Result<HeaderRecord, DwgError>)
    ensures
        final(reader)@.source == old(reader)@.source,
        final(reader)@.version == match version_at(old(reader)@.source, old(reader)@.pos).value {
            Ok(v) => Some(v),
            Err(_) => old(reader)@.version,
        },
        0 <= old(reader)@.pos <= final(reader)@.pos <= bit_len(old(reader)@.source),
        final(reader)@.pos == header_at(old(reader)@.source, old(reader)@.pos).end,
        match r {
            Ok(h) => header_at(old(reader)@.source, old(reader)@.pos).value == Ok::<
                HeaderView,
                DwgError,
            >(h@),
            Err(e) => header_at(old(reader)@.source, old(reader)@.pos).value == Err::<
                HeaderView,
                DwgError,
            >(e),
        },
{
    let ghost src = reader@.source;
    let ghost p = reader@.pos;
    proof {
        lemma2_to64();
        lemma_zeros_end(src, p + 48, 5);
    }
    let version = reader.read_version()?;
    reader.set_version(version);
    expect_zeros(reader, 5)?;
    let reserved = read_octet(reader)?;
    let one = read_octet(reader)?;
    if one != 1 {
        return Err(DwgError::MalformedHeader(HeaderStep::LiteralOne));
    }
    let image_seeker = reader.read_raw_long()?;
    let padding = read_octet(reader)?;
    let stored = reader.read_raw_long()?;
    let sections = read_sections(reader, stored)?;
    let ghost table_end = reader@.pos;
    proof {
        lemma_bits_value_bound(src, table_end, 16);
        lemma_sentinel_end(src, table_end + 16, 0);
    }
    let checksum = reader.read_bits::<16>()? as u16;
    expect_sentinel(reader)?;
    Ok(HeaderRecord { version, reserved, image_seeker, padding, sections, checksum })
}

/// The summary of free space among the objects, in the shape of the
/// release that wrote it.
#[allow(inconsistent_fields)]
#[derive(Clone, Copy, Debug, PartialEq, Eq, Structural)]
pub enum FreeSpaceRecord {
    /// The record of releases up to the legacy boundary.
    Narrow {
        unknown_a: i32,
        approx_object_count: i32,
        unknown_b: i64,
        object_section_offset: i32,
        n_64bit_values: u8,
        max32: i64,
        max64: i64,
        max_table: i64,
        max_record_length: i64,
    },
    /// The record of later releases: eleven 64-bit values, each maximum as
    /// a low and a high half.
    Wide {
        header_a: i64,
        header_b: i64,
        approx_object_count: i64,
        max32_low: i64,
        max32_high: i64,
        max64_low: i64,
        max64_high: i64,
        max_table_low: i64,
        max_table_high: i64,
        max_record_length_low: i64,
        max_record_length_high: i64,
    },
}

/// Number of bits in the narrow free-space record.
pub const NARROW_FREE_SPACE_BITS: u32 = 424;

/// Number of bits in the wide free-space record.
pub const WIDE_FREE_SPACE_BITS: u32 = 704;

/// The free-space record at `p`, in the shape that `version` asks for.
pub open spec fn free_space_at(s: Seq<u8>, p: int, version: DWGVersion) -> Decoded<
    FreeSpaceRecord,
> {
    if version.at_most(LEGACY_BOUNDARY) {
        if p + NARROW_FREE_SPACE_BITS > bit_len(s) {
            exhausted(s)
        } else {
            literal(
                FreeSpaceRecord::Narrow {
                    unknown_a: long_at(s, p),
                    approx_object_count: long_at(s, p + 32),
                    unknown_b: longlong_at(s, p + 64),
                    object_section_offset: long_at(s, p + 128),
                    n_64bit_values: octet_at(s, p + 160),
                    max32: longlong_at(s, p + 168),
                    max64: longlong_at(s, p + 232),
                    max_table: longlong_at(s, p + 296),
                    max_record_length: longlong_at(s, p + 360),
                },
                p + NARROW_FREE_SPACE_BITS,
            )
        }
    } else {
        if p + WIDE_FREE_SPACE_BITS > bit_len(s) {
            exhausted(s)
        } else {
            literal(
                FreeSpaceRecord::Wide {
                    header_a: longlong_at(s, p),
                    header_b: longlong_at(s, p + 64),
                    approx_object_count: longlong_at(s, p + 128),
                    max32_low: longlong_at(s, p + 192),
                    max32_high: longlong_at(s, p + 256),
                    max64_low: longlong_at(s, p + 320),
                    max64_high: longlong_at(s, p + 384),
                    max_table_low: longlong_at(s, p + 448),
                    max_table_high: longlong_at(s, p + 512),
                    max_record_length_low: longlong_at(s, p + 576),
                    max_record_length_high: longlong_at(s, p + 640),
                },
                p + WIDE_FREE_SPACE_BITS,
            )
        }
    }
}

/// Reads the free-space record in the shape of the release that was set.
pub fn read_obj_free_space(reader: &mut BitReader) -> (r: Result<FreeSpaceRecord, DwgError>)
    requires
        old(reader)@.version is Some,
    ensures
        final(reader)@.source == old(reader)@.source,
        final(reader)@.version == old(reader)@.version,
        0 <= old(reader)@.pos <= final(reader)@.pos <= bit_len(old(reader)@.source),
        final(reader)@.pos == free_space_at(
            old(reader)@.source,
            old(reader)@.pos,
            old(reader)@.version->0,
        ).end,
        r == free_space_at(old(reader)@.source, old(reader)@.pos, old(reader)@.version->0).value,
{
    let version = match reader.get_version() {
        Some(v) => v,
        None => vstd::pervasive::unreached(),
    };
    if version <= LEGACY_BOUNDARY {
        let unknown_a = reader.read_raw_long()?;
        let approx_object_count = reader.read_raw_long()?;
        let unknown_b = reader.read_raw_longlong()?;
        let object_section_offset = reader.read_raw_long()?;
        let n_64bit_values = read_octet(reader)?;
        let max32 = reader.read_raw_longlong()?;
        let max64 = reader.read_raw_longlong()?;
        let max_table = reader.read_raw_longlong()?;
        let max_record_length = reader.read_raw_longlong()?;
        Ok(
            FreeSpaceRecord::Narrow {
                unknown_a,
                approx_object_count,
                unknown_b,
                object_section_offset,
                n_64bit_values,
                max32,
                max64,
                max_table,
                max_record_length,
            },
        )
    } else {
        let header_a = reader.read_raw_longlong()?;
        let header_b = reader.read_raw_longlong()?;
        let approx_object_count = reader.read_raw_longlong()?;
        let max32_low = reader.read_raw_longlong()?;
        let max32_high = reader.read_raw_longlong()?;
        let max64_low = reader.read_raw_longlong()?;
        let max64_high = reader.read_raw_longlong()?;
        let max_table_low = reader.read_raw_longlong()?;
        let max_table_high = reader.read_raw_longlong()?;
        let max_record_length_low = reader.read_raw_longlong()?;
        let max_record_length_high = reader.read_raw_longlong()?;
        Ok(
            FreeSpaceRecord::Wide {
                header_a,
                header_b,
                approx_object_count,
                max32_low,
                max32_high,
                max64_low,
                max64_high,
                max_table_low,
                max_table_high,
                max_record_length_low,
                max_record_length_high,
            },
        )
    }
}

/// A drawing, as far as this library decodes it: the release it was
/// written for.
#[derive(Clone, Copy, Debug, PartialEq, Eq, Structural)]
pub struct Dwg {
    version: DWGVersion,
}

impl View for Dwg {
    type V = DWGVersion;

    closed spec fn view(&self) -> DWGVersion {
        self.version
    }
}

impl Dwg {
    /// Decodes the header at the start of `bytes`.
    pub fn read_from_bytes(bytes: &[u8]) -> (r: Result<Dwg, DwgError>)
        ensures
            match r {
                Ok(d) => header_at(bytes@, 0).value matches Ok(h) && h.version == d@,
                Err(e) => header_at(bytes@, 0).value == Err::<HeaderView, DwgError>(e),
            },
    {
        let mut reader = BitReader::new(bytes);
        let header = read_r2000_header(&mut reader)?;
        Ok(Dwg { version: header.version })
    }

    /// The release that the drawing was written for.
    pub fn version(&self) -> (r: DWGVersion)
        ensures
            r == self@,
    {
        self.version
    }
}

/// The octets at `p` are those of `expected`, in order.
#[verifier::opaque]
pub open spec fn octets_match(s: Seq<u8>, p: int, expected: Seq<u8>) -> bool {
    forall|i: int| 0 <= i < expected.len() ==> octet_at(s, p + 8 * i) == #[trigger] expected[i]
}

/// A header whose fixed parts hold and whose section count is zero is
/// read in full, gives the release that its magic token names, and takes
/// forty octets.
pub proof fn lemma_header_without_sections(s: Seq<u8>, p: int, version: DWGVersion)
    requires
        0 <= p,
        p + 320 <= bit_len(s),
        octets_match(s, p, version.magic()),
        octets_match(s, p + 48, seq![0u8, 0u8, 0u8, 0u8, 0u8]),
        octet_at(s, p + 96) == 1,
        long_at(s, p + 144) == 0,
        octets_match(s, p + 192, sentinel()),
    ensures
        header_at(s, p).value matches Ok(h) && h.version == version && h.sections.len() == 0,
        header_at(s, p).end == p + 320,
{
    lemma_magic_resolves(s, p, version);
    lemma_zeros_pass(s, p + 48, 0);
    lemma_sentinel_passes(s, p + 192, 0);
    lemma_sentinel_end(s, p + 192, 0);
}

/// The magic token of a release, where it is all there, resolves to that
/// release.
proof fn lemma_magic_resolves(s: Seq<u8>, p: int, version: DWGVersion)
    requires
        p + 48 <= bit_len(s),
        octets_match(s, p, version.magic()),
    ensures
        version_at(s, p) == literal(version, p + 48),
{
    let token = version.magic();
    assert(token.len() == 6);
    assert forall|i: int| 0 <= i < 6 implies magic_at(s, p)[i] == token[i] by {
        reveal(octets_match);
        assert(octet_at(s, p + 8 * i) == token[i]);
    }
    assert(magic_at(s, p) =~= token);
    crate::version::lemma_magic_round_trip(version);
}

/// Five reserved octets that are all there and all zero pass the check.
proof fn lemma_zeros_pass(s: Seq<u8>, p: int, done: nat)
    requires
        done <= 5,
        p + 40 <= bit_len(s),
        octets_match(s, p, seq![0u8, 0u8, 0u8, 0u8, 0u8]),
    ensures
        zeros_at(s, p + 8 * done, (5 - done) as nat).value is Ok,
    decreases 5 - done,
{
    if done < 5 {
        let zeros = seq![0u8, 0u8, 0u8, 0u8, 0u8];
        assert(octet_at(s, p + 8 * done) == zeros[done as int]) by {
            reveal(octets_match);
        }
        lemma_zeros_pass(s, p, done + 1);
        assert(p + 8 * done + 8 == p + 8 * (done + 1));
    }
}

/// A sentinel that is all there and right passes the check.
proof fn lemma_sentinel_passes(s: Seq<u8>, p: int, from: nat)
    requires
        from <= 16,
        p + 128 <= bit_len(s),
        octets_match(s, p, sentinel()),
    ensures
        sentinel_at(s, p + 8 * from, from).value is Ok,
    decreases 16 - from,
{
    if from < 16 {
        assert(octet_at(s, p + 8 * from) == sentinel()[from as int]) by {
            reveal(octets_match);
        }
        lemma_sentinel_passes(s, p, from + 1);
        assert(p + 8 * from + 8 == p + 8 * (from + 1));
    }
}

/// A header in which one of the five reserved octets is not zero is
/// malformed, whatever follows.
pub proof fn lemma_header_reserved_octet_set(s: Seq<u8>, p: int, i: int)
    requires
        0 <= p,
        version_at(s, p).value is Ok,
        0 <= i < 5,
        p + 48 + 8 * (i + 1) <= bit_len(s),
        octet_at(s, p + 48 + 8 * i) != 0,
    ensures
        header_at(s, p).value == Err::<HeaderView, DwgError>(
            DwgError::MalformedHeader(HeaderStep::ReservedBytes),
        ),
{
    lemma_zeros_fail(s, p + 48, 5, i);
}

/// Reserved octets of which one that is there is not zero fail the check.
proof fn lemma_zeros_fail(s: Seq<u8>, p: int, count: nat, i: int)
    requires
        0 <= i < count,
        p + 8 * (i + 1) <= bit_len(s),
        octet_at(s, p + 8 * i) != 0,
    ensures
        zeros_at(s, p, count).value == Err::<(), DwgError>(
            DwgError::MalformedHeader(HeaderStep::ReservedBytes),
        ),
    decreases count,
{
    if octet_at(s, p) == 0 {
        assert(i > 0);
        assert(p + 8 + 8 * (i - 1) == p + 8 * i);
        lemma_zeros_fail(s, p + 8, (count - 1) as nat, i - 1);
    }
}

/// A header whose parts before the sentinel hold, and in whose sentinel
/// one octet differs, is malformed.
pub proof fn lemma_header_sentinel_differs(s: Seq<u8>, p: int, i: int)
    requires
        0 <= p,
        version_at(s, p).value is Ok,
        zeros_at(s, p + 48, 5).value is Ok,
        p + 104 <= bit_len(s),
        octet_at(s, p + 96) == 1,
        0 <= i < 16,
        p + 192 + 72 * section_count(long_at(s, p + 144)) + 8 * (i + 1) <= bit_len(s),
        octet_at(s, p + 192 + 72 * section_count(long_at(s, p + 144)) + 8 * i) != sentinel()[i],
    ensures
        header_at(s, p).value == Err::<HeaderView, DwgError>(
            DwgError::MalformedHeader(HeaderStep::TrailingSentinel),
        ),
{
    let start = p + 192 + 72 * section_count(long_at(s, p + 144));
    lemma_sentinel_fails(s, start, 0, i);
}

/// A sentinel of which one octet that is there differs fails the check.
proof fn lemma_sentinel_fails(s: Seq<u8>, p: int, from: nat, i: int)
    requires
        from <= i < 16,
        p + 8 * (i - from + 1) <= bit_len(s),
        octet_at(s, p + 8 * (i - from)) != sentinel()[i],
    ensures
        sentinel_at(s, p, from).value == Err::<(), DwgError>(
            DwgError::MalformedHeader(HeaderStep::TrailingSentinel),
        ),
    decreases 16 - from,
{
    if octet_at(s, p) == sentinel()[from as int] {
        assert(i > from);
        assert(p + 8 + 8 * (i - (from + 1)) == p + 8 * (i - from));
        lemma_sentinel_fails(s, p + 8, from + 1, i);
    }
}

} // verus!
