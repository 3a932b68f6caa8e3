use dwg_core::bitcodes::BitReader;
use dwg_core::dwg::{
    read_obj_free_space, read_r2000_header, Dwg, FreeSpaceRecord, HeaderRecord,
    SectionLocatorEntry,
};
use dwg_core::error::{DwgError, HeaderStep};
use dwg_core::version::DWGVersion;

const SENTINEL: [u8; 16] = [
    0x95, 0xA0, 0x4E, 0x28, 0x99, 0x82, 0x1A, 0xE5, 0x5E, 0x41, 0xE0, 0x5F, 0x9D, 0x3A, 0x4D, 0x00,
];

fn header_bytes(magic: &[u8; 6], sections: &[(u8, i32, i32)]) -> Vec<u8> {
    let mut bytes = Vec::new();
    bytes.extend_from_slice(magic);
    bytes.extend_from_slice(&[0, 0, 0, 0, 0, 0x77, 1]);
    bytes.extend_from_slice(&0x1234_5678i32.to_le_bytes());
    bytes.push(0x99);
    bytes.extend_from_slice(&(sections.len() as i32).to_le_bytes());
    for (unused, seeker, size) in sections {
        bytes.push(*unused);
        bytes.extend_from_slice(&seeker.to_le_bytes());
        bytes.extend_from_slice(&size.to_le_bytes());
    }
    bytes.extend_from_slice(&[0xCD, 0xAB]);
    bytes.extend_from_slice(&SENTINEL);
    bytes
}

#[test]
fn header_without_sections_is_read() {
    let bytes = header_bytes(b"AC1015", &[]);
    assert_eq!(bytes.len(), 40);
    let mut reader = BitReader::new(&bytes);
    let header = read_r2000_header(&mut reader).unwrap();
    assert_eq!(
        header,
        HeaderRecord {
            version: DWGVersion::AC1015,
            reserved: 0x77,
            image_seeker: 0x1234_5678,
            padding: 0x99,
            sections: vec![],
            checksum: 0xABCD,
        }
    );
    assert_eq!(reader.get_version(), Some(DWGVersion::AC1015));
    assert_eq!(reader.read_bit(), Err(DwgError::StreamExhausted));
}

#[test]
fn header_of_every_release_returns_its_version() {
    let table: [(&[u8; 6], DWGVersion); 7] = [
        (b"AC1012", DWGVersion::AC1012),
        (b"AC1014", DWGVersion::AC1014),
        (b"AC1015", DWGVersion::AC1015),
        (b"AC1018", DWGVersion::AC1018),
        (b"AC1021", DWGVersion::AC1021),
        (b"AC1027", DWGVersion::AC1027),
        (b"AC1032", DWGVersion::AC1032),
    ];
    for (magic, version) in table {
        let bytes = header_bytes(magic, &[]);
        let mut reader = BitReader::new(&bytes);
        assert_eq!(read_r2000_header(&mut reader).map(|h| h.version), Ok(version));
        assert_eq!(Dwg::read_from_bytes(&bytes).map(|d| d.version()), Ok(version));
    }
}

#[test]
fn header_keeps_the_sections_in_file_order() {
    let mut bytes = header_bytes(b"AC1018", &[(0, 0x58, 0x1BD), (1, -1, 7), (2, i32::MIN, i32::MAX)]);
    bytes.push(0xEE);
    let mut reader = BitReader::new(&bytes);
    let header = read_r2000_header(&mut reader).unwrap();
    assert_eq!(
        header.sections,
        vec![
            SectionLocatorEntry { unused: 0, seeker: 0x58, size: 0x1BD },
            SectionLocatorEntry { unused: 1, seeker: -1, size: 7 },
            SectionLocatorEntry { unused: 2, seeker: i32::MIN, size: i32::MAX },
        ]
    );
    assert_eq!(header.checksum, 0xABCD);
    // the cursor rests right behind the sentinel
    assert_eq!(reader.read_bits::<8>(), Ok(0xEE));
}

#[test]
fn header_with_a_negative_count_has_no_sections() {
    let mut bytes = header_bytes(b"AC1015", &[]);
    bytes[18..22].copy_from_slice(&(-3i32).to_le_bytes());
    let header = read_r2000_header(&mut BitReader::new(&bytes)).unwrap();
    assert_eq!(header.sections, vec![]);
}

#[test]
fn header_with_a_reserved_octet_set_is_malformed() {
    for at in 6..11 {
        for bit in 0..8 {
            let mut bytes = header_bytes(b"AC1015", &[]);
            bytes[at] ^= 1 << bit;
            let mut reader = BitReader::new(&bytes);
            assert_eq!(
                read_r2000_header(&mut reader),
                Err(DwgError::MalformedHeader(HeaderStep::ReservedBytes))
            );
            assert_eq!(Dwg::read_from_bytes(&bytes).is_err(), true);
        }
    }
    // the sixth reserved octet is free
    let mut bytes = header_bytes(b"AC1015", &[]);
    bytes[11] = 0xFF;
    assert_eq!(read_r2000_header(&mut BitReader::new(&bytes)).map(|h| h.reserved), Ok(0xFF));
}

#[test]
fn header_without_the_literal_one_is_malformed() {
    for value in [0u8, 2, 0x81, 0xFF] {
        let mut bytes = header_bytes(b"AC1015", &[]);
        bytes[12] = value;
        assert_eq!(
            read_r2000_header(&mut BitReader::new(&bytes)),
            Err(DwgError::MalformedHeader(HeaderStep::LiteralOne))
        );
    }
}

#[test]
fn header_with_a_wrong_sentinel_is_malformed() {
    let sections = [(0u8, 1i32, 2i32)];
    let good = header_bytes(b"AC1027", &sections);
    let start = good.len() - 16;
    for at in start..good.len() {
        for bit in 0..8 {
            let mut bytes = good.clone();
            bytes[at] ^= 1 << bit;
            assert_eq!(
                read_r2000_header(&mut BitReader::new(&bytes)),
                Err(DwgError::MalformedHeader(HeaderStep::TrailingSentinel))
            );
        }
    }
}

#[test]
fn header_with_an_unknown_magic_is_refused() {
    let bytes = header_bytes(b"AC1009", &[]);
    let mut reader = BitReader::new(&bytes);
    assert_eq!(read_r2000_header(&mut reader), Err(DwgError::UnrecognizedVersion));
    assert_eq!(reader.get_version(), None);
    assert_eq!(Dwg::read_from_bytes(&bytes), Err(DwgError::UnrecognizedVersion));
}

#[test]
fn header_cut_short_is_exhausted() {
    let good = header_bytes(b"AC1015", &[(0, 1, 2), (3, 4, 5)]);
    for len in 0..good.len() {
        assert_eq!(
            read_r2000_header(&mut BitReader::new(&good[..len])),
            Err(DwgError::StreamExhausted)
        );
    }
    // a count that promises more entries than the source holds
    let mut bytes = header_bytes(b"AC1015", &[]);
    bytes[18..22].copy_from_slice(&i32::MAX.to_le_bytes());
    assert_eq!(read_r2000_header(&mut BitReader::new(&bytes)), Err(DwgError::StreamExhausted));
}

#[test]
fn header_may_start_inside_an_octet() {
    let good = header_bytes(b"AC1015", &[(9, 8, 7)]);
    let mut shifted = vec![0u8; good.len() + 1];
    for (i, b) in good.iter().enumerate() {
        shifted[i] |= b << 3;
        shifted[i + 1] |= b >> 5;
    }
    let mut reader = BitReader::new(&shifted);
    assert_eq!(reader.read_bits::<3>(), Ok(0));
    let header = read_r2000_header(&mut reader).unwrap();
    assert_eq!(header.sections, vec![SectionLocatorEntry { unused: 9, seeker: 8, size: 7 }]);
    assert_eq!(reader.read_bits::<5>(), Ok(0));
}

fn counting_bytes(len: usize) -> Vec<u8> {
    (0..len).map(|i| i as u8).collect()
}

#[test]
fn free_space_record_is_narrow_up_to_the_boundary() {
    let bytes = counting_bytes(54);
    for version in [
        DWGVersion::AC1012,
        DWGVersion::AC1014,
        DWGVersion::AC1015,
        DWGVersion::AC1018,
        DWGVersion::AC1021,
    ] {
        let mut reader = BitReader::new(&bytes);
        reader.set_version(version);
        assert_eq!(
            read_obj_free_space(&mut reader),
            Ok(FreeSpaceRecord::Narrow {
                unknown_a: 0x0302_0100,
                approx_object_count: 0x0706_0504,
                unknown_b: 0x0F0E_0D0C_0B0A_0908,
                object_section_offset: 0x1312_1110,
                n_64bit_values: 0x14,
                max32: 0x1C1B_1A19_1817_1615,
                max64: 0x2423_2221_201F_1E1D,
                max_table: 0x2C2B_2A29_2827_2625,
                max_record_length: 0x3433_3231_302F_2E2D,
            })
        );
        // 53 octets were taken
        assert_eq!(reader.read_bits::<8>(), Ok(53));
        let mut reader = BitReader::new(&bytes[..52]);
        reader.set_version(version);
        assert_eq!(read_obj_free_space(&mut reader), Err(DwgError::StreamExhausted));
    }
}

#[test]
fn free_space_record_is_wide_after_the_boundary() {
    let bytes = counting_bytes(89);
    for version in [DWGVersion::AC1027, DWGVersion::AC1032] {
        let mut reader = BitReader::new(&bytes);
        reader.set_version(version);
        assert_eq!(
            read_obj_free_space(&mut reader),
            Ok(FreeSpaceRecord::Wide {
                header_a: 0x0706_0504_0302_0100,
                header_b: 0x0F0E_0D0C_0B0A_0908,
                approx_object_count: 0x1716_1514_1312_1110,
                max32_low: 0x1F1E_1D1C_1B1A_1918,
                max32_high: 0x2726_2524_2322_2120,
                max64_low: 0x2F2E_2D2C_2B2A_2928,
                max64_high: 0x3736_3534_3332_3130,
                max_table_low: 0x3F3E_3D3C_3B3A_3938,
                max_table_high: 0x4746_4544_4342_4140,
                max_record_length_low: 0x4F4E_4D4C_4B4A_4948,
                max_record_length_high: 0x5756_5554_5352_5150,
            })
        );
        assert_eq!(reader.read_bits::<8>(), Ok(88));
        let mut reader = BitReader::new(&bytes[..87]);
        reader.set_version(version);
        assert_eq!(read_obj_free_space(&mut reader), Err(DwgError::StreamExhausted));
    }
}
