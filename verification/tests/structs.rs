use zippity::structs::{
    CentralDirectoryHeader, Compression, DataDescriptor64, DosDatetime, EndOfCentralDirectory,
    GpBitFlag, LocalFileHeader, PackedStructZippityExt, VersionMadeBy, VersionMadeByOs,
    Zip64EndOfCentralDirectoryLocator, Zip64EndOfCentralDirectoryRecord, Zip64ExtraField,
};

#[test]
fn valid_dosdatetime_creation() {
    // Test a valid DosDatetime creation within valid ranges
    let dt = DosDatetime::new(1985, 12, 25, 14, 30, 28);
    assert!(dt.is_some());
}

#[test]
fn invalid_year_lower_bound() {
    // Year is below 1980
    let dt = DosDatetime::new(1979, 5, 10, 10, 20, 20);
    assert!(dt.is_none());
}

#[test]
fn invalid_year_upper_bound() {
    // Year is above 2107 (1980 + 127)
    let dt = DosDatetime::new(2108, 5, 10, 10, 20, 20);
    assert!(dt.is_none());
}

#[test]
fn invalid_month() {
    // Month is out of range (valid range is 1-12)
    let dt = DosDatetime::new(2000, 13, 10, 10, 20, 20);
    assert!(dt.is_none());
    assert!(DosDatetime::new(2000, 0, 10, 10, 20, 20).is_none());
}

#[test]
fn invalid_day() {
    // Day is out of range (valid range is 1-31)
    let dt = DosDatetime::new(2000, 5, 32, 10, 20, 20);
    assert!(dt.is_none());
    assert!(DosDatetime::new(2000, 5, 0, 10, 20, 20).is_none());
}

#[test]
fn invalid_hour() {
    // Hour is out of range (valid range is 0-23)
    let dt = DosDatetime::new(2000, 5, 10, 24, 20, 20);
    assert!(dt.is_none());
}

#[test]
fn invalid_minute() {
    // Minute is out of range (valid range is 0-59)
    let dt = DosDatetime::new(2000, 5, 10, 10, 60, 20);
    assert!(dt.is_none());
}

#[test]
fn invalid_second() {
    // Second is out of range (valid range is 0-59)
    let dt = DosDatetime::new(2000, 5, 10, 10, 20, 60);
    assert!(dt.is_none());
}

#[test]
fn even_second_rounding() {
    // Test that odd seconds round down to even
    let dt = DosDatetime::new(2000, 5, 10, 10, 20, 31);
    assert!(dt.is_some());
    let datetime = dt.unwrap();
    // Check that the seconds were rounded down to 30
    assert!(datetime.time & 0b11111 == 15); // 15 represents 30 seconds (rounded down)
}

#[test]
fn dos_datetime_round_trip() {
    for year in [1980, 1981, 1999, 2024, 2043, 2107] {
        for month in 1u32..=12 {
            for day in [1u32, 15, 16, 31] {
                for (hour, minute, second) in [(0u32, 0u32, 0u32), (23, 59, 59), (12, 31, 58), (7, 32, 1)]
                {
                    let dt = DosDatetime::new(year, month, day, hour, minute, second).unwrap();
                    assert!(dt.year() == year);
                    assert!(dt.month() == month);
                    assert!(dt.day() == day);
                    assert!(dt.hour() == hour);
                    assert!(dt.minute() == minute);
                    assert!(dt.second() == second & 0xfe);
                }
            }
        }
    }
}

#[test]
fn default_datetime_is_the_earliest() {
    let default = DosDatetime::default();
    assert_eq!(Some(default), DosDatetime::new(1980, 1, 1, 0, 0, 0));
    assert_eq!(default, DosDatetime { time: 0, date: 0x21 });
}

#[test]
fn datetime_bits() {
    // Bits 0-4: two-second steps, 5-10: minutes, 11-15: hours
    let dt = DosDatetime::new(1985, 12, 25, 14, 30, 28).unwrap();
    assert_eq!(dt.time, (14 << 11) | (30 << 5) | 14);
    // Bits 0-4: day, 5-8: month, 9-15: years since 1980
    assert_eq!(dt.date, (5 << 9) | (12 << 5) | 25);
}

#[test]
fn packed_sizes() {
    assert_eq!(LocalFileHeader::packed_size(), 30);
    assert_eq!(Zip64ExtraField::packed_size_u16(), 28);
    assert_eq!(DataDescriptor64::packed_size_usize(), 24);
    assert_eq!(CentralDirectoryHeader::packed_size(), 46);
    assert_eq!(Zip64EndOfCentralDirectoryRecord::packed_size(), 56);
    assert_eq!(Zip64EndOfCentralDirectoryLocator::packed_size(), 20);
    assert_eq!(EndOfCentralDirectory::packed_size(), 22);
}

#[test]
fn packed_local_header() {
    let header = LocalFileHeader {
        signature: LocalFileHeader::SIGNATURE,
        version_to_extract: 45,
        flags: GpBitFlag { use_data_descriptor: true, language_encoding: true },
        compression: Compression::Store,
        last_mod_datetime: DosDatetime { time: 0x1234, date: 0x5678 },
        crc32: 0,
        compressed_size: u32::MAX,
        uncompressed_size: u32::MAX,
        file_name_len: 3,
        extra_field_len: 28,
    };
    assert_eq!(
        header.pack(),
        vec![
            0x50, 0x4b, 0x03, 0x04, 45, 0, 0x08, 0x08, 0, 0, 0x34, 0x12, 0x78, 0x56, 0, 0, 0, 0,
            0xff, 0xff, 0xff, 0xff, 0xff, 0xff, 0xff, 0xff, 3, 0, 28, 0,
        ]
    );
}

#[test]
fn packed_extra_field_and_descriptor() {
    let extra = Zip64ExtraField {
        tag: Zip64ExtraField::TAG,
        size: 24,
        uncompressed_size: 0x0102030405060708,
        compressed_size: 5,
        offset: 0x1122334455667788,
    };
    assert_eq!(
        extra.pack(),
        vec![
            1, 0, 24, 0, 8, 7, 6, 5, 4, 3, 2, 1, 5, 0, 0, 0, 0, 0, 0, 0, 0x88, 0x77, 0x66, 0x55,
            0x44, 0x33, 0x22, 0x11,
        ]
    );
    let descriptor = DataDescriptor64 {
        signature: DataDescriptor64::SIGNATURE,
        crc32: 0xdeadbeef,
        compressed_size: 1,
        uncompressed_size: 2,
    };
    assert_eq!(
        descriptor.pack(),
        vec![
            0x50, 0x4b, 0x07, 0x08, 0xef, 0xbe, 0xad, 0xde, 1, 0, 0, 0, 0, 0, 0, 0, 2, 0, 0, 0, 0,
            0, 0, 0,
        ]
    );
}

#[test]
fn packed_version_made_by() {
    let header = CentralDirectoryHeader {
        signature: CentralDirectoryHeader::SIGNATURE,
        version_made_by: VersionMadeBy { os: VersionMadeByOs::Unix, spec_version: 45 },
        version_to_extract: 45,
        flags: GpBitFlag { use_data_descriptor: false, language_encoding: true },
        compression: Compression::Store,
        last_mod_datetime: DosDatetime { time: 0, date: 33 },
        crc32: 1,
        compressed_size: u32::MAX,
        uncompressed_size: u32::MAX,
        file_name_len: 1,
        extra_field_len: 28,
        file_comment_length: 0,
        disk_number_start: u16::MAX,
        internal_attributes: 0,
        external_attributes: 0o100644 << 16,
        local_header_offset: u32::MAX,
    };
    let packed = header.pack();
    assert_eq!(packed.len(), 46);
    assert_eq!(&packed[..10], &[0x50, 0x4b, 0x01, 0x02, 45, 3, 45, 0, 0, 8]);
    assert_eq!(&packed[38..42], &[0, 0, 0xa4, 0x81]);
}
