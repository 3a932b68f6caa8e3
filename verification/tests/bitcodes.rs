use dwg_core::bitcodes::BitReader;
use dwg_core::encoding::{DOUBLE_ONE, DOUBLE_ZERO};
use dwg_core::error::DwgError;
use dwg_core::version::DWGVersion;

#[test]
fn test_read_bits() {
    let buf: [_; 4] = [0xFF, 0xDD, 0xCC, 0xBB];
    let mut reader = BitReader::new(&buf);
    assert_eq!(reader.read_bits::<8>(), Ok(0xFF));
    assert_eq!(reader.read_bits::<16>(), Ok(0xCCDD));
    assert_eq!(reader.read_bits::<5>(), Ok(0x1B));
    assert_eq!(reader.read_bits::<3>(), Ok(0x5));
    assert_eq!(reader.read_bits::<1>(), Err(DwgError::StreamExhausted));
}

#[test]
fn test_read_raw_long() {
    let buf: [_; 4] = [0xFF, 0xFF, 0xFF, 0xFF];
    let mut reader = BitReader::new(&buf);
    assert_eq!(reader.read_raw_long(), Ok(-1));

    let buf: [_; 4] = [0x01, 0x00, 0x00, 0x00];
    let mut reader = BitReader::new(&buf);
    assert_eq!(reader.read_raw_long(), Ok(1));
}

#[test]
fn test_read_raw_longlong() {
    let buf: [_; 8] = [0xFF, 0xFF, 0xFF, 0xFF, 0xFF, 0xFF, 0xFF, 0xFF];
    let mut reader = BitReader::new(&buf);
    assert_eq!(reader.read_raw_longlong(), Ok(-1));

    let buf: [_; 8] = [0x01, 0x00, 0x00, 0x00, 0x00, 0x00, 0x00, 0x00];
    let mut reader = BitReader::new(&buf);
    assert_eq!(reader.read_raw_longlong(), Ok(1));
}

#[test]
fn test_read_modular_char() {
    let buf: [_; 2] = [0b10000010, 0b00100100];
    let mut reader = BitReader::new(&buf);
    assert_eq!(reader.read_modular_char(), Ok(4610));
}

#[test]
fn test_read_modular_short() {
    let buf: [_; 4] = [0b00110001, 0b11110100, 0b10001101, 0b00000000];
    let mut reader = BitReader::new(&buf);
    assert_eq!(reader.read_modular_short(), Ok(4650033));
}

#[test]
fn read_bits_of_every_width_up_to_32() {
    let buf: [u8; 8] = [0xA5, 0x3C, 0x0F, 0xF0, 0x81, 0x7E, 0x55, 0xAA];
    let whole = u64::from_le_bytes(buf);
    assert_eq!(BitReader::new(&buf).read_bits::<1>(), Ok(whole & 0x1));
    assert_eq!(BitReader::new(&buf).read_bits::<2>(), Ok(whole & 0x3));
    assert_eq!(BitReader::new(&buf).read_bits::<7>(), Ok(whole & 0x7F));
    assert_eq!(BitReader::new(&buf).read_bits::<9>(), Ok(whole & 0x1FF));
    assert_eq!(BitReader::new(&buf).read_bits::<13>(), Ok(whole & 0x1FFF));
    assert_eq!(BitReader::new(&buf).read_bits::<24>(), Ok(whole & 0xFF_FFFF));
    assert_eq!(BitReader::new(&buf).read_bits::<31>(), Ok(whole & 0x7FFF_FFFF));
    assert_eq!(BitReader::new(&buf).read_bits::<32>(), Ok(whole & 0xFFFF_FFFF));
    assert_eq!(BitReader::new(&buf).read_bits::<47>(), Ok(whole & 0x7FFF_FFFF_FFFF));
    assert_eq!(BitReader::new(&buf).read_bits::<64>(), Ok(whole));
}

#[test]
fn read_bits_in_two_steps_equals_one_step() {
    let buf: [u8; 6] = [0x12, 0x34, 0x56, 0x78, 0x9A, 0xBC];
    let mut split = BitReader::new(&buf);
    let mut joined = BitReader::new(&buf);
    assert_eq!(split.read_bits::<3>(), joined.read_bits::<3>());
    let low = split.read_bits::<11>().unwrap();
    let high = split.read_bits::<21>().unwrap();
    let both = joined.read_bits::<32>().unwrap();
    assert_eq!(low | (high << 11), both);
    assert_eq!(both, (0xBC9A_7856_3412u64 >> 3) & 0xFFFF_FFFF);
    assert_eq!(both, 0x4F0A_C682);
    assert_eq!(split.read_bits::<13>(), joined.read_bits::<13>());
}

#[test]
fn read_bits_fails_without_a_truncated_value() {
    let buf: [u8; 2] = [0xFF, 0xFF];
    let mut reader = BitReader::new(&buf);
    assert_eq!(reader.read_bits::<10>(), Ok(0x3FF));
    assert_eq!(reader.read_bits::<7>(), Err(DwgError::StreamExhausted));
    // The six bits that were left are gone with the failed read.
    assert_eq!(reader.read_bits::<1>(), Err(DwgError::StreamExhausted));

    let empty: [u8; 0] = [];
    assert_eq!(BitReader::new(&empty).read_bits::<1>(), Err(DwgError::StreamExhausted));
    assert_eq!(BitReader::new(&empty).read_raw_char(), Err(DwgError::StreamExhausted));
}

#[test]
fn read_bit_takes_the_low_bit_first() {
    let buf: [u8; 1] = [0b0000_0101];
    let mut reader = BitReader::new(&buf);
    assert_eq!(reader.read_bit(), Ok(1));
    assert_eq!(reader.read_bit(), Ok(0));
    assert_eq!(reader.read_bit(), Ok(1));
    assert_eq!(reader.read_bits::<5>(), Ok(0));
    assert_eq!(reader.read_bit(), Err(DwgError::StreamExhausted));
}

#[test]
fn read_bit_triplet_stops_at_the_first_zero() {
    // bits in reading order: 0 | 1 0 | 1 1 0 | 1 1 (then the source ends)
    let buf: [u8; 1] = [0b1101_1010];
    let mut reader = BitReader::new(&buf);
    assert_eq!(reader.read_bit_triplet(), Ok(0));
    assert_eq!(reader.read_bit_triplet(), Ok(2));
    assert_eq!(reader.read_bit_triplet(), Ok(6));
    assert_eq!(reader.read_bit_triplet(), Err(DwgError::StreamExhausted));

    let buf: [u8; 1] = [0b0000_0111];
    let mut reader = BitReader::new(&buf);
    assert_eq!(reader.read_bit_triplet(), Ok(7));
    assert_eq!(reader.read_bits::<5>(), Ok(0));
}

#[test]
fn read_raw_char_and_short_are_signed() {
    let buf: [u8; 5] = [0x80, 0x7F, 0xFE, 0xFF, 0x01];
    let mut reader = BitReader::new(&buf);
    assert_eq!(reader.read_raw_char(), Ok(-128));
    assert_eq!(reader.read_raw_char(), Ok(127));
    assert_eq!(reader.read_raw_short(), Ok(-2));
    assert_eq!(reader.read_raw_short(), Err(DwgError::StreamExhausted));
}

#[test]
fn read_raw_longlong_joins_low_word_first() {
    let buf: [u8; 8] = [0x08, 0x07, 0x06, 0x05, 0x04, 0x03, 0x02, 0x81];
    let mut reader = BitReader::new(&buf);
    assert_eq!(reader.read_raw_longlong(), Ok(0x8102_0304_0506_0708u64 as i64));
    let mut reader = BitReader::new(&buf[..7]);
    assert_eq!(reader.read_raw_longlong(), Err(DwgError::StreamExhausted));
}

#[test]
fn read_raw_double_gives_the_bit_pattern() {
    let buf = 2.5f64.to_le_bytes();
    let mut reader = BitReader::new(&buf);
    let bits = reader.read_raw_double().unwrap();
    assert_eq!(f64::from_bits(bits), 2.5);
    assert_eq!(f64::from_bits(DOUBLE_ONE), 1.0);
    assert_eq!(f64::from_bits(DOUBLE_ZERO), 0.0);
}

#[test]
fn read_bitshort_follows_the_selector() {
    // selector 0, then the raw short 0xFFFE
    let buf: [u8; 3] = [0b1111_1000, 0xFF, 0b0000_0011];
    assert_eq!(BitReader::new(&buf).read_bitshort(), Ok(-2));
    // selector 1, then the octet 0xFF, which is not sign extended
    let buf: [u8; 2] = [0b1111_1101, 0b0000_0011];
    assert_eq!(BitReader::new(&buf).read_bitshort(), Ok(255));
    let buf: [u8; 1] = [0b0000_0010];
    assert_eq!(BitReader::new(&buf).read_bitshort(), Ok(0));
    let buf: [u8; 1] = [0b0000_0011];
    assert_eq!(BitReader::new(&buf).read_bitshort(), Ok(256));
    assert_eq!(BitReader::new(&buf).read_cm_color_short(), Ok(256));
    // selector 0 without the short behind it
    let buf: [u8; 2] = [0b0000_0000, 0x00];
    assert_eq!(BitReader::new(&buf).read_bitshort(), Err(DwgError::StreamExhausted));
}

#[test]
fn read_bitlong_follows_the_selector() {
    // selector 0, then the raw long 0x80000001
    let buf: [u8; 5] = [0b0000_0100, 0x00, 0x00, 0x00, 0b0000_0010];
    assert_eq!(BitReader::new(&buf).read_bitlong(), Ok(i32::MIN + 1));
    let buf: [u8; 2] = [0b0010_1001, 0b0000_0000];
    assert_eq!(BitReader::new(&buf).read_bitlong(), Ok(10));
    let buf: [u8; 1] = [0b0000_0010];
    assert_eq!(BitReader::new(&buf).read_bitlong(), Ok(0));
    let buf: [u8; 1] = [0b0000_0011];
    assert_eq!(BitReader::new(&buf).read_bitlong(), Ok(256));
}

#[test]
fn read_bitlonglong_follows_the_selector() {
    // selector 0, then eight octets 0xFF
    let buf: [u8; 9] = [0b1111_1100, 0xFF, 0xFF, 0xFF, 0xFF, 0xFF, 0xFF, 0xFF, 0b0000_0011];
    assert_eq!(BitReader::new(&buf).read_bitlonglong(), Ok(-1));
    let buf: [u8; 2] = [0b1111_1101, 0b0000_0011];
    assert_eq!(BitReader::new(&buf).read_bitlonglong(), Ok(255));
    let buf: [u8; 1] = [0b0000_0010];
    assert_eq!(BitReader::new(&buf).read_bitlonglong(), Ok(0));
    let buf: [u8; 1] = [0b0000_0011];
    assert_eq!(BitReader::new(&buf).read_bitlonglong(), Ok(256));
}

#[test]
fn read_bitdouble_follows_the_selector() {
    let buf: [u8; 1] = [0b0000_0001];
    assert_eq!(BitReader::new(&buf).read_bitdouble().map(f64::from_bits), Ok(1.0));
    let buf: [u8; 1] = [0b0000_0010];
    assert_eq!(BitReader::new(&buf).read_bitdouble().map(f64::from_bits), Ok(0.0));
    let buf: [u8; 1] = [0b0000_0011];
    let mut reader = BitReader::new(&buf);
    assert_eq!(reader.read_bitdouble(), Err(DwgError::InvalidSelector));
    assert_eq!(reader.read_bits::<6>(), Ok(0));

    // selector 0, then the double -3.75 shifted up by two bits
    let wide = ((-3.75f64).to_bits() as u128) << 2;
    let bytes = wide.to_le_bytes();
    let mut reader = BitReader::new(&bytes[..9]);
    assert_eq!(reader.read_bitdouble().map(f64::from_bits), Ok(-3.75));
}

#[test]
fn read_modular_char_of_one_chunk_and_of_many() {
    let buf: [u8; 1] = [0x7F];
    assert_eq!(BitReader::new(&buf).read_modular_char(), Ok(127));
    let buf: [u8; 1] = [0x80];
    assert_eq!(BitReader::new(&buf).read_modular_char(), Err(DwgError::StreamExhausted));
    // five chunks fill 35 bits: the top three are dropped
    let buf: [u8; 5] = [0xFF, 0xFF, 0xFF, 0xFF, 0x7F];
    assert_eq!(BitReader::new(&buf).read_modular_char(), Ok(-1));
    // a sixth chunk lies wholly above bit 32
    let buf: [u8; 7] = [0x81, 0x80, 0x80, 0x80, 0x80, 0xFF, 0x01];
    let mut reader = BitReader::new(&buf);
    assert_eq!(reader.read_modular_char(), Ok(1));
    assert_eq!(reader.read_bit(), Err(DwgError::StreamExhausted));
}

#[test]
fn read_modular_short_of_one_chunk_and_of_many() {
    let buf: [u8; 2] = [0x34, 0x12];
    assert_eq!(BitReader::new(&buf).read_modular_short(), Ok(0x1234));
    let buf: [u8; 3] = [0x34, 0x92, 0x01];
    assert_eq!(BitReader::new(&buf).read_modular_short(), Err(DwgError::StreamExhausted));
    // three chunks fill 45 bits: all above the 32nd are dropped
    let buf: [u8; 6] = [0x00, 0x80, 0x00, 0x80, 0x01, 0x00];
    assert_eq!(BitReader::new(&buf).read_modular_short(), Ok(1 << 30));
    let buf: [u8; 6] = [0x00, 0x80, 0x00, 0x80, 0x04, 0x00];
    assert_eq!(BitReader::new(&buf).read_modular_short(), Ok(0));
}

#[test]
fn read_version_resolves_but_does_not_set() {
    let mut reader = BitReader::new(b"AC1018rest");
    assert_eq!(reader.get_version(), None);
    assert_eq!(reader.read_version(), Ok(DWGVersion::AC1018));
    assert_eq!(reader.get_version(), None);
    reader.set_version(DWGVersion::AC1018);
    assert_eq!(reader.get_version(), Some(DWGVersion::AC1018));
    assert_eq!(reader.read_bits::<8>(), Ok(b'r' as u64));

    assert_eq!(BitReader::new(b"AC1013").read_version(), Err(DwgError::UnrecognizedVersion));
    assert_eq!(BitReader::new(b"AC101").read_version(), Err(DwgError::StreamExhausted));
}

#[test]
fn extrusion_short_form_from_the_boundary_on() {
    let buf: [u8; 4] = [0b0000_0001, 0xFF, 0xFF, 0xFF];
    for version in [
        DWGVersion::AC1015,
        DWGVersion::AC1018,
        DWGVersion::AC1021,
        DWGVersion::AC1027,
        DWGVersion::AC1032,
    ] {
        let mut reader = BitReader::new(&buf);
        reader.set_version(version);
        let (x, y, z) = reader.read_bit_extrusion().unwrap();
        assert_eq!(
            (f64::from_bits(x), f64::from_bits(y), f64::from_bits(z)),
            (0.0, 0.0, 1.0)
        );
        // exactly one bit was taken
        assert_eq!(reader.read_bits::<7>(), Ok(0));
        assert_eq!(reader.read_bits::<8>(), Ok(0xFF));
    }
}

#[test]
fn extrusion_long_form_after_a_zero_bit() {
    // bit 0, then the selectors 1, 2, 1
    let buf: [u8; 1] = [0b0011_0010];
    let mut reader = BitReader::new(&buf);
    reader.set_version(DWGVersion::AC1015);
    let (x, y, z) = reader.read_bit_extrusion().unwrap();
    assert_eq!((f64::from_bits(x), f64::from_bits(y), f64::from_bits(z)), (1.0, 0.0, 1.0));
    assert_eq!(reader.read_bit(), Ok(0));
}

#[test]
fn extrusion_before_the_boundary_reads_three_doubles() {
    // the selectors 1, 2, 1: the leading 1 bit is part of the first
    let buf: [u8; 1] = [0b0001_1001];
    for version in [DWGVersion::AC1012, DWGVersion::AC1014] {
        let mut reader = BitReader::new(&buf);
        reader.set_version(version);
        let (x, y, z) = reader.read_bit_extrusion().unwrap();
        assert_eq!((f64::from_bits(x), f64::from_bits(y), f64::from_bits(z)), (1.0, 0.0, 1.0));
        assert_eq!(reader.read_bits::<2>(), Ok(0));
    }
    // an unused selector in the second double
    let buf: [u8; 1] = [0b0000_1101];
    let mut reader = BitReader::new(&buf);
    reader.set_version(DWGVersion::AC1014);
    assert_eq!(reader.read_bit_extrusion(), Err(DwgError::InvalidSelector));
    assert_eq!(reader.read_bits::<4>(), Ok(0));
}

#[test]
fn defaulted_double_is_gated_by_the_release() {
    let buf: [u8; 1] = [0b0000_0101];
    let mut reader = BitReader::new(&buf);
    reader.set_version(DWGVersion::AC1015);
    assert_eq!(reader.read_bitdouble_with_default().map(f64::from_bits), Ok(0.0));
    assert_eq!(reader.read_bits::<7>(), Ok(0b10));

    let mut reader = BitReader::new(&buf);
    reader.set_version(DWGVersion::AC1014);
    assert_eq!(reader.read_bitdouble_with_default().map(f64::from_bits), Ok(1.0));
    assert_eq!(reader.read_bits::<6>(), Ok(0b1));

    // bit 0, then selector 1
    let buf: [u8; 1] = [0b0000_0010];
    let mut reader = BitReader::new(&buf);
    reader.set_version(DWGVersion::AC1032);
    assert_eq!(reader.read_bitdouble_with_default().map(f64::from_bits), Ok(1.0));
}

#[test]
fn object_type_is_gated_by_the_release() {
    // selector 1, then the octet 0x10
    let buf: [u8; 2] = [0b0100_0001, 0b0000_0000];
    let mut reader = BitReader::new(&buf);
    reader.set_version(DWGVersion::AC1021);
    assert_eq!(reader.read_object_type(), Ok(0x10));
    let mut reader = BitReader::new(&buf);
    reader.set_version(DWGVersion::AC1027);
    assert_eq!(reader.read_object_type(), Ok(0x10 + 0x1F0));

    // selector 0, then the octet 0x10
    let buf: [u8; 2] = [0b0100_0000, 0b0000_0000];
    let mut reader = BitReader::new(&buf);
    reader.set_version(DWGVersion::AC1032);
    assert_eq!(reader.read_object_type(), Ok(0x10));

    // selectors 2 and 3, then the raw short 0x0302
    for low in [0b0000_1010u8, 0b0000_1011u8] {
        let buf: [u8; 3] = [low, 0b0000_1100, 0b0000_0000];
        let mut reader = BitReader::new(&buf);
        reader.set_version(DWGVersion::AC1027);
        assert_eq!(reader.read_object_type(), Ok(0x0302));
    }
    // up to the boundary, selector 2 is the literal 0
    let buf: [u8; 1] = [0b0000_0010];
    let mut reader = BitReader::new(&buf);
    reader.set_version(DWGVersion::AC1012);
    assert_eq!(reader.read_object_type(), Ok(0));
}
