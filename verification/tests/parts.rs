use zippity::crc_cache::CrcCache;
use zippity::encode::push_le;
use zippity::error::ZippityError;
use zippity::io::{ReadBuf, SeekFrom};
use zippity::proptest::{ArbitraryReaderParams, ArbitraryTestEntryDataParams};
use zippity::text::{push_decimal, push_hexadecimal};
use zippity::time::{
    share, system_timezone_converter, FixedOffset, NaiveDateTime, SystemTime, TimeConverter,
};
use zippity::vec_buffer::VecBuffer;

#[test]
fn vec_buffer_is_read_in_steps() {
    let mut buffer = VecBuffer::new();
    assert!(!buffer.has_remaining());
    assert_eq!(buffer.read(10), b"");
    buffer.reset(5).copy_from_slice(b"hello");
    assert_eq!(buffer.remaining(), 5);
    assert_eq!(buffer.read(2), b"he");
    assert_eq!(buffer.remaining(), 3);
    assert!(buffer.has_remaining());
    let mut target = ReadBuf::new(2);
    assert_eq!(buffer.read_into_readbuf(&mut target), 2);
    assert_eq!(target.filled(), b"ll");
    assert_eq!(buffer.read_into_readbuf(&mut target), 0);
    assert_eq!(buffer.read(usize::MAX), b"o");
    assert!(!buffer.has_remaining());
}

#[test]
fn vec_buffer_reset_keeps_what_fits() {
    let mut buffer = VecBuffer::new();
    buffer.reset(3).copy_from_slice(b"abc");
    buffer.read(3);
    assert_eq!(buffer.reset(5), b"abc\0\0");
    assert_eq!(buffer.remaining(), 5);
    assert_eq!(buffer.reset(2), b"ab");
    assert_eq!(buffer.read(5), b"ab");
}

#[test]
fn crc_cache_has_a_limit() {
    assert_eq!(CrcCache::new(17).limit(), 17);
    assert_eq!(CrcCache::unbounded().limit(), usize::MAX);
}

#[test]
fn read_buf_fills_up() {
    let mut buf = ReadBuf::new(4);
    assert_eq!(buf.remaining(), 4);
    buf.put_slice(b"abc");
    assert_eq!(buf.filled(), b"abc");
    assert_eq!(buf.remaining(), 1);
    buf.clear();
    assert_eq!(buf.remaining(), 4);
    buf.put_slice(b"wxyz");
    assert_eq!(buf.into_filled(), b"wxyz");
    assert_eq!(SeekFrom::Start(1), SeekFrom::Start(1));
}

#[test]
fn numbers_as_bytes() {
    let mut out = vec![9];
    push_le(&mut out, 0x0102030405060708, 8);
    push_le(&mut out, 0x0102, 2);
    push_le(&mut out, 0x0102, 1);
    push_le(&mut out, 5, 0);
    assert_eq!(out, vec![9, 8, 7, 6, 5, 4, 3, 2, 1, 2, 1, 2]);
}

#[test]
fn numbers_as_text() {
    for n in [0u64, 1, 9, 10, 99, 100, 1234567890, u64::MAX] {
        let mut text = String::from("n=");
        push_decimal(&mut text, n);
        assert_eq!(text, format!("n={n}"));
    }
    for n in [0u32, 1, 0xabcdef, 0xdeadbeef, u32::MAX] {
        let mut text = String::new();
        push_hexadecimal(&mut text, n, 8);
        assert_eq!(text, format!("{n:08x}"));
    }
}

#[test]
fn error_messages() {
    let entry_name = "x".to_owned();
    assert_eq!(
        ZippityError::TooLongEntryName { entry_name: entry_name.clone() }.message(),
        "Entry name too long (length must fit into 16bit)"
    );
    assert_eq!(
        ZippityError::DuplicateEntryName { entry_name: entry_name.clone() }.message(),
        "Duplicate entry name x"
    );
    assert_eq!(
        ZippityError::LengthMismatch { entry_name: entry_name.clone(), expected_size: 10, actual_size: 9 }
            .message(),
        "Entry x reports length 10 B, but was 9 B"
    );
    assert_eq!(
        ZippityError::Crc32Mismatch { entry_name, expected_crc: 0xab, actual_crc: 0x12345678 }
            .message(),
        "Entry x was given a CRC value 000000ab that does not match the computed 12345678"
    );
    assert_eq!(
        ZippityError::SeekingBeforeStart.message(),
        "Attempting to seek before the start of the file"
    );
}

fn date_at(seconds: i64, local_minus_utc: i32) -> (i32, u32, u32, u32, u32, u32) {
    let converter = system_timezone_converter(FixedOffset { local_minus_utc });
    let NaiveDateTime { year, month, day, hour, minute, second } =
        converter.convert(SystemTime { seconds, nanos: 999_999_999 });
    (year, month, day, hour, minute, second)
}

#[test]
fn dates_of_points_in_time() {
    assert_eq!(date_at(0, 0), (1970, 1, 1, 0, 0, 0));
    assert_eq!(date_at(-1, 0), (1969, 12, 31, 23, 59, 59));
    assert_eq!(date_at(951782400, 0), (2000, 2, 29, 0, 0, 0));
    assert_eq!(date_at(951868799, 1), (2000, 3, 1, 0, 0, 0));
    assert_eq!(date_at(4107542400, 0), (2100, 3, 1, 0, 0, 0));
    assert_eq!(date_at(-62135596800, 0), (1, 1, 1, 0, 0, 0));
    assert_eq!(date_at(-62135596801, 0), (0, 12, 31, 23, 59, 59));
    // The first and the last second that can be told
    assert_eq!(date_at(-8334601228800, 0), (-262143, 1, 1, 0, 0, 0));
    assert_eq!(date_at(8210266876799, 0), (262142, 12, 31, 23, 59, 59));
}

#[test]
fn converters_are_shared() {
    assert!(share(&None).is_none());
    let shared = zippity::time::new_shared(system_timezone_converter(FixedOffset {
        local_minus_utc: 60,
    }));
    let again = share(&Some(shared)).unwrap();
    let date = again.convert(SystemTime { seconds: 0, nanos: 0 });
    assert_eq!((date.year, date.minute), (1970, 1));
}

#[test]
fn arbitrary_parameters() {
    let params = ArbitraryReaderParams::default();
    assert!(!params.seek);
    let entries: ArbitraryTestEntryDataParams = params.clone().into();
    assert_eq!(entries.count_range, 0..64);
    assert_eq!(entries.max_size, 512);
    assert_eq!(entries.entry_name_pattern, ".{0,30}");
    assert_eq!(entries.clone().max_size, 512);
}
