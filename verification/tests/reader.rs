use std::io::Read;
use std::sync::Arc;
use std::task::{Context, Wake, Waker};
use zip::read::ZipArchive;
use zippity::builder::Builder;
use zippity::chunk::Chunk;
use zippity::entry_data::{EntryData, EntryReader, InvalidSeek, ReaderFuture};
use zippity::error::{ReadError, ZippityError};
use zippity::io::{Poll, ReadBuf, SeekFrom};
use zippity::read_state::{check_file_data, ReadState, Sizes};
use zippity::reader::Reader;
use zippity::structs::{DataDescriptor64, PackedStructZippityExt};

struct NoWake;

impl Wake for NoWake {
    fn wake(self: Arc<Self>) {}
}

fn poll_read<D: EntryData>(
    reader: &mut Reader<D>,
    buf: &mut ReadBuf,
) -> Poll<Result<(), ReadError<D::Error>>> {
    let waker = Waker::from(Arc::new(NoWake));
    let mut cx = Context::from_waker(&waker);
    reader.poll_read(&mut cx, buf)
}

/// Reads up to the end. Data that has to be waited for is asked for again at once.
fn read_to_vec<D: EntryData>(
    reader: &mut Reader<D>,
    read_size: usize,
) -> Result<Vec<u8>, ReadError<D::Error>> {
    let mut output = Vec::new();
    loop {
        let mut buf = ReadBuf::new(read_size);
        match poll_read(reader, &mut buf) {
            Poll::Ready(Ok(())) => {
                if buf.filled().is_empty() {
                    return Ok(output);
                }
            }
            Poll::Ready(Err(error)) => return Err(error),
            Poll::Pending => assert!(buf.filled().is_empty()),
        }
        output.extend_from_slice(buf.filled());
    }
}

fn read_all<D: EntryData<Error = InvalidSeek>>(reader: &mut Reader<D>, read_size: usize) -> Vec<u8> {
    match read_to_vec(reader, read_size) {
        Ok(output) => output,
        Err(_) => panic!("Data in memory can always be read"),
    }
}

fn seek<D: EntryData>(reader: &mut Reader<D>, position: SeekFrom) -> Result<u64, ZippityError> {
    let waker = Waker::from(Arc::new(NoWake));
    let mut cx = Context::from_waker(&waker);
    reader.start_seek(position)?;
    match reader.poll_complete(&mut cx) {
        Poll::Ready(Ok(position)) => Ok(position),
        _ => panic!("Seeking is always done at once"),
    }
}

fn add<'a>(builder: &mut Builder<&'a [u8]>, name: &str, data: &'a [u8]) {
    assert!(builder.add_entry_data(name.to_owned(), data).is_ok());
}

/// A few sets of entries, from none to several, with names and contents of various lengths.
fn contents() -> Vec<Vec<(String, Vec<u8>)>> {
    let pattern = |n: usize, seed: usize| -> Vec<u8> {
        (0..n).map(|i| ((i * 31 + seed) % 256) as u8).collect()
    };
    vec![
        vec![],
        vec![("a".to_owned(), pattern(0, 0))],
        vec![("Foo".to_owned(), b"bar!".to_vec())],
        vec![
            (String::new(), pattern(1, 3)),
            ("dir/file.txt".to_owned(), pattern(100, 5)),
            ("empty".to_owned(), pattern(0, 0)),
            ("p\u{159}\u{ed}li\u{161}".to_owned(), pattern(37, 11)),
        ],
        vec![
            ("large".to_owned(), pattern(20000, 1)),
            ("x".repeat(300), pattern(8192, 2)),
            ("z".to_owned(), pattern(8193, 3)),
        ],
    ]
}

fn build(content: &[(String, Vec<u8>)]) -> Reader<&[u8]> {
    let mut builder: Builder<&[u8]> = Builder::new();
    for (name, value) in content {
        add(&mut builder, name, value.as_slice());
    }
    builder.build()
}

fn unzip(zip: Vec<u8>) -> Vec<(String, Vec<u8>)> {
    let mut unpacked = ZipArchive::new(std::io::Cursor::new(zip)).expect("Should be a valid zip");
    let mut result = Vec::new();
    for i in 0..unpacked.len() {
        let mut zipfile = unpacked.by_index(i).unwrap();
        let name = std::str::from_utf8(zipfile.name_raw()).unwrap().to_string();
        let mut file_content = Vec::new();
        zipfile.read_to_end(&mut file_content).unwrap();
        result.push((name, file_content));
    }
    result
}

fn read_state(staging_buffer: Vec<u8>, to_skip: u64) -> ReadState {
    ReadState {
        current_chunk: Chunk::Finished,
        chunk_processed_size: 0,
        staging_buffer,
        to_skip,
        position: 0,
    }
}

fn buffer(content: &[u8], extra_size: usize) -> ReadBuf {
    let mut buf = ReadBuf::new(content.len() + extra_size);
    buf.put_slice(content);
    buf
}

fn test_ps() -> DataDescriptor64 {
    DataDescriptor64 {
        signature: DataDescriptor64::SIGNATURE,
        crc32: 0x01020304,
        compressed_size: 5,
        uncompressed_size: 6,
    }
}

const TEST_PS_BYTES: [u8; 24] = [
    0x50, 0x4b, 0x07, 0x08, 0x04, 0x03, 0x02, 0x01, 5, 0, 0, 0, 0, 0, 0, 0, 6, 0, 0, 0, 0, 0, 0, 0,
];

#[test]
fn read_packed_struct_direct_write() {
    for extra_size in [0usize, 1, 19] {
        for initial in [b"".as_slice(), b"123", b"123456789"] {
            let mut rs = read_state(Vec::new(), 0);
            let mut buf = buffer(initial, extra_size + 24);
            rs.read_packed_struct(test_ps(), &mut buf);
            // Must not touch what was in the buffer before
            assert!(&buf.filled()[..initial.len()] == initial);
            // Must write the whole struct to output
            assert!(buf.filled()[initial.len()..] == TEST_PS_BYTES);
            assert!(rs.staging_buffer.is_empty());
            assert!(rs.chunk_processed_size == 24);
        }
    }
}

#[test]
fn read_packed_struct_skip_all() {
    for extra_size in [0usize, 1, 19, 40] {
        for to_skip in [24u64, 25, 100] {
            let mut rs = read_state(Vec::new(), to_skip);
            let mut buf = buffer(b"abc", extra_size);
            rs.read_packed_struct(test_ps(), &mut buf);
            assert!(buf.filled() == b"abc");
            assert!(rs.to_skip == to_skip - 24);
            assert!(rs.staging_buffer.is_empty());
        }
    }
}

#[test]
fn read_packed_struct_skip_partial() {
    for extra_size in [1usize, 2, 40] {
        for to_skip in 1u64..24 {
            let mut rs = read_state(Vec::new(), to_skip);
            let mut buf = buffer(b"abc", extra_size);
            rs.read_packed_struct(test_ps(), &mut buf);
            assert!(buf.filled() == b"abc");
            // Must not change how much there was to skip
            assert!(rs.to_skip == to_skip);
            // Must copy the whole structure to buffer
            assert!(rs.staging_buffer == TEST_PS_BYTES);
        }
    }
}

#[test]
fn read_packed_struct_nonempty_buffer() {
    for extra_size in [1usize, 2, 40] {
        for to_skip in 0u64..=5 {
            let initial = vec![9u8, 8, 7, 6, 5];
            let mut rs = read_state(initial.clone(), to_skip);
            let mut buf = buffer(b"abc", extra_size);
            rs.read_packed_struct(test_ps(), &mut buf);
            assert!(buf.filled() == b"abc");
            assert!(rs.to_skip == to_skip);
            // Must not modify the initial content of the buffer
            assert!(rs.staging_buffer[..5] == initial);
            // Must append the packed structure to buffer
            assert!(rs.staging_buffer[5..] == TEST_PS_BYTES);
        }
    }
}

#[test]
fn read_str_direct_write() {
    for text in ["", "x", "hello", "\u{17e}lu\u{165}ou\u{10d}k\u{fd}"] {
        for extra_size in [0usize, 1, 19] {
            let mut rs = read_state(Vec::new(), 0);
            let mut buf = buffer(b"abc", extra_size + text.len());
            rs.read_str(text, &mut buf);
            assert!(&buf.filled()[..3] == b"abc");
            assert!(&buf.filled()[3..] == text.as_bytes());
        }
    }
}

#[test]
fn read_str_skip_all() {
    for text in ["", "x", "hello"] {
        for to_skip_extra in [0u64, 1, 99] {
            let mut rs = read_state(Vec::new(), text.len() as u64 + to_skip_extra);
            let mut buf = buffer(b"abc", 3);
            rs.read_str(text, &mut buf);
            assert!(buf.filled() == b"abc");
            // Must decrease amount to skip
            assert!(rs.to_skip == to_skip_extra);
        }
    }
}

#[test]
fn read_str_skip_partial() {
    let text = "hello world";
    for to_skip in 1u64..11 {
        for extra_size in [1usize, 2, 40] {
            let mut rs = read_state(Vec::new(), to_skip);
            let mut buf = buffer(b"abc", extra_size);
            rs.read_str(text, &mut buf);
            assert!(buf.filled() == b"abc");
            assert!(rs.to_skip == to_skip);
            // Must copy the whole string to buffer
            assert!(rs.staging_buffer.as_slice() == text.as_bytes());
        }
    }
}

#[test]
fn read_str_nonempty_buffer() {
    for text in ["", "x", "hello"] {
        for to_skip in 0u64..=3 {
            let mut rs = read_state(vec![1, 2, 3], to_skip);
            let mut buf = buffer(b"abc", 10);
            rs.read_str(text, &mut buf);
            assert!(buf.filled() == b"abc");
            assert!(rs.to_skip == to_skip);
            assert!(rs.staging_buffer[..3] == [1, 2, 3]);
            assert!(&rs.staging_buffer[3..] == text.as_bytes());
        }
    }
}

#[test]
fn read_from_staging_works_as_expected() {
    for len in [1usize, 2, 50, 99] {
        let test_data: Vec<u8> = (0..len).map(|i| i as u8).collect();
        for to_skip in [1u64, 2, 49, 50, 99] {
            for read_size in [1usize, 2, 48, 99] {
                let mut rs = read_state(test_data.clone(), to_skip);
                // Calculate range in test data that will be added to the output.
                let start = to_skip as usize;
                let stop = (start + read_size).min(test_data.len());
                let start = start.min(stop);
                let mut buf = buffer(b"abc", read_size);
                rs.read_from_staging(&mut buf);
                assert!(&buf.filled()[..3] == b"abc");
                assert!(&buf.filled()[3..] == &test_data[start..stop]);
                if stop >= test_data.len() {
                    // Must clear the staging buffer if all data was read
                    assert!(rs.staging_buffer.len() == 0);
                } else {
                    // What remains after the skip must be what was not written
                    assert!(&rs.staging_buffer[rs.to_skip as usize..] == &test_data[stop..]);
                }
            }
        }
    }
}

#[test]
fn empty_archive_can_be_unzipped() {
    let mut zippity = Builder::<()>::new().build();
    let size = zippity.size();

    let buf = read_all(&mut zippity, 1);

    assert!(size == (buf.len() as u64));

    let unpacked = ZipArchive::new(std::io::Cursor::new(buf)).expect("Should be a valid zip");
    assert!(unpacked.is_empty());
}

#[test]
fn empty_entry_name_can_be_unzipped() {
    let mut builder: Builder<()> = Builder::new();
    assert!(builder.add_entry(String::new(), ()).is_ok());

    let mut zippity = builder.build();
    let buf = read_all(&mut zippity, 8192);

    let mut unpacked = ZipArchive::new(std::io::Cursor::new(buf)).expect("Should be a valid zip");
    assert!(unpacked.len() == 1);

    let mut zipfile = unpacked.by_index(0).unwrap();
    let name = std::str::from_utf8(zipfile.name_raw()).unwrap().to_string();
    assert!(name.is_empty());
    let mut file_content = Vec::new();
    zipfile.read_to_end(&mut file_content).unwrap();
    assert!(file_content.is_empty());
}

#[test]
fn archive_with_single_file_can_be_unzipped() {
    let mut builder: Builder<&[u8]> = Builder::new();
    assert!(builder.add_entry("Foo".to_owned(), b"bar!".as_slice()).is_ok());

    let mut zippity = builder.build();
    let size = zippity.size();

    let buf = read_all(&mut zippity, 1);

    assert!(size == (buf.len() as u64));

    let mut unpacked = ZipArchive::new(std::io::Cursor::new(buf)).expect("Should be a valid zip");
    assert!(unpacked.len() == 1);

    let mut zipfile = unpacked.by_index(0).unwrap();
    let name = std::str::from_utf8(zipfile.name_raw()).unwrap().to_string();
    assert!(name == "Foo");
    let mut file_content = Vec::new();
    zipfile.read_to_end(&mut file_content).unwrap();
    assert!(file_content == b"bar!");
}

#[test]
fn archive_with_single_empty_file_can_be_unzipped() {
    let mut builder: Builder<&[u8]> = Builder::new();
    assert!(builder.add_entry("0".to_owned(), b"".as_slice()).is_ok());

    let mut zippity = builder.build();
    let size = zippity.size();

    let buf = read_all(&mut zippity, 1);

    assert!(size == (buf.len() as u64));

    let mut unpacked = ZipArchive::new(std::io::Cursor::new(buf)).expect("Should be a valid zip");
    assert!(unpacked.len() == 1);

    let mut zipfile = unpacked.by_index(0).unwrap();
    let name = std::str::from_utf8(zipfile.name_raw()).unwrap().to_string();
    assert!(name == "0");
    let mut file_content = Vec::new();
    zipfile.read_to_end(&mut file_content).unwrap();
    assert!(file_content == b"");
}

#[test]
fn result_can_be_unzipped() {
    for content in contents() {
        for read_size in [1usize, 7, 64, 8192] {
            let mut zippity = build(&content);
            let size = zippity.size();
            let buf = read_all(&mut zippity, read_size);
            assert!(size == (buf.len() as u64));
            assert!(zippity.tell() == size);
            assert!(unzip(buf) == content);
        }
    }
}

/// The bytes of an archive with one entry, spelled out.
#[test]
fn archive_bytes() {
    let mut builder: Builder<&[u8]> = Builder::new();
    match builder.add_entry_data("Ab".to_owned(), b"1234".as_slice()) {
        Ok(entry) => {
            entry.datetime_fields(2000, 5, 10, 10, 20, 30);
        }
        Err(_) => panic!("There is room for the entry"),
    }
    let mut reader = builder.build();
    let buf = read_all(&mut reader, 8192);
    let mut expected: Vec<u8> = Vec::new();
    // Local header
    expected.extend_from_slice(b"PK\x03\x04\x2d\x00\x08\x00\x00\x00\x8f\x52\xaa\x28");
    expected.extend_from_slice(b"\x00\x00\x00\x00\xff\xff\xff\xff\xff\xff\xff\xff\x02\x00\x1c\x00");
    expected.extend_from_slice(b"Ab");
    expected.extend_from_slice(b"\x01\x00\x18\x00");
    expected.extend_from_slice(&[0; 24]);
    // Data
    expected.extend_from_slice(b"1234");
    // Data descriptor
    expected.extend_from_slice(b"PK\x07\x08\xa3\xe0\xe3\x9b\x04\0\0\0\0\0\0\0\x04\0\0\0\0\0\0\0");
    // Central directory
    expected.extend_from_slice(b"PK\x01\x02\x2d\x03\x2d\x00\x00\x00\x00\x00\x8f\x52\xaa\x28");
    expected.extend_from_slice(b"\xa3\xe0\xe3\x9b\xff\xff\xff\xff\xff\xff\xff\xff\x02\x00\x1c\x00");
    expected.extend_from_slice(b"\x00\x00\xff\xff\x00\x00\x00\x00\xa4\x81\xff\xff\xff\xff");
    expected.extend_from_slice(b"Ab");
    expected.extend_from_slice(b"\x01\x00\x18\x00\x04\0\0\0\0\0\0\0\x04\0\0\0\0\0\0\0\0\0\0\0\0\0\0\0");
    // Zip64 end of central directory
    expected.extend_from_slice(b"PK\x06\x06\x2c\0\0\0\0\0\0\0\x2d\x03\x2d\x00\0\0\0\0\0\0\0\0");
    expected.extend_from_slice(b"\x01\0\0\0\0\0\0\0\x01\0\0\0\0\0\0\0\x4c\0\0\0\0\0\0\0\x58\0\0\0\0\0\0\0");
    // Its locator
    expected.extend_from_slice(b"PK\x06\x07\0\0\0\0\xa4\0\0\0\0\0\0\0\x01\0\0\0");
    // End of central directory
    expected.extend_from_slice(b"PK\x05\x06\0\0\0\0\xff\xff\xff\xff\xff\xff\xff\xff\xff\xff\xff\xff\0\0");
    assert_eq!(buf, expected);
    assert_eq!(reader.size(), 262);
}

fn seek_read_and_verify(
    reader: &mut Reader<&[u8]>,
    read_size: usize,
    seek_from: SeekFrom,
    ground_truth: &[u8],
) -> u64 {
    let seek_reported = seek(reader, seek_from).unwrap();
    assert!(reader.tell() == seek_reported);
    let buf = read_all(reader, read_size);
    assert!(buf.as_slice() == &ground_truth[seek_reported as usize..]);
    seek_reported
}

/// Positions in an archive: all of them where it is small.
fn positions(size: usize) -> Vec<u64> {
    if size < 1000 {
        (0..=size as u64).collect()
    } else {
        (0..=size as u64).step_by(997).chain([size as u64 - 1, size as u64]).collect()
    }
}

#[test]
fn seeking_from_start() {
    for content in contents() {
        let whole = read_all(&mut build(&content), 8192);
        for position in positions(whole.len()) {
            for read_size in [13usize, 8192] {
                let mut reader = build(&content);
                let reported =
                    seek_read_and_verify(&mut reader, read_size, SeekFrom::Start(position), &whole);
                assert!(reported == position);
            }
        }
    }
}

#[test]
fn seeking_from_end() {
    for content in contents() {
        let whole = read_all(&mut build(&content), 8192);
        let mut reader = build(&content);
        for position in positions(whole.len()) {
            let offset = position as i64 - whole.len() as i64;
            let reported =
                seek_read_and_verify(&mut reader, 8192, SeekFrom::End(offset), &whole);
            assert!(reported == position);
        }
    }
}

#[test]
fn seeking_from_cursor() {
    for content in contents() {
        let whole = read_all(&mut build(&content), 8192);
        let mut reader = build(&content);
        for (i, position) in positions(whole.len()).into_iter().enumerate() {
            let first = (i as u64 * 7919) % (whole.len() as u64);
            seek(&mut reader, SeekFrom::Start(first)).unwrap();
            let offset = position as i64 - first as i64;
            let reported =
                seek_read_and_verify(&mut reader, 8192, SeekFrom::Current(offset), &whole);
            assert!(reported == position);
        }
    }
}

/// Reading single bytes with seeks in between returns the same bytes as reading the whole file.
#[test]
fn seeking_single_bytes() {
    for content in contents() {
        let whole = read_all(&mut build(&content), 8192);
        let mut reader = build(&content);
        for i in 0..200usize {
            let position = i * 7919 % whole.len();
            seek(&mut reader, SeekFrom::Start(position as u64)).unwrap();
            let mut buf = ReadBuf::new(1);
            assert!(matches!(poll_read(&mut reader, &mut buf), Poll::Ready(Ok(()))));
            assert!(buf.filled() == &whole[position..position + 1]);
        }
    }
}

#[test]
fn seeking_before_start() {
    for distance in [0i64, 1, 254, 255] {
        let mut reader = Builder::<()>::new().build();
        let error = seek(&mut reader, SeekFrom::Current(-distance - 1)).unwrap_err();
        assert!(error == ZippityError::SeekingBeforeStart);
        assert!(error.message().contains("before"));
        assert!(reader.tell() == 0);
    }
    let mut reader = Builder::<()>::new().build();
    assert!(seek(&mut reader, SeekFrom::End(-99)).is_err());
    assert!(seek(&mut reader, SeekFrom::End(-98)) == Ok(0));
}

#[test]
fn seeking_after_end_from_start() {
    for distance in [0u64, 1, 255] {
        let mut reader = Builder::<()>::new().build();
        let seek_pos = reader.size() + distance;
        let reported_position = seek(&mut reader, SeekFrom::Start(seek_pos)).unwrap();
        assert!(reported_position == seek_pos);
        assert!(read_all(&mut reader, 16).is_empty());
        assert!(reader.tell() == seek_pos);
    }
}

#[test]
fn seeking_after_end_from_current() {
    for distance in [0i64, 1, 255] {
        let mut reader = Builder::<()>::new().build();
        let seek_position = reader.size() as i64 + distance;
        let reported_position = seek(&mut reader, SeekFrom::Current(seek_position)).unwrap();
        assert!(reported_position == seek_position as u64);
        assert!(read_all(&mut reader, 16).is_empty());
    }
    let mut reader = Builder::<()>::new().build();
    assert!(seek(&mut reader, SeekFrom::Start(u64::MAX)) == Ok(u64::MAX));
    assert!(read_all(&mut reader, 16).is_empty());
}

#[test]
fn tell() {
    for content in contents() {
        let whole = read_all(&mut build(&content), 8192);
        let mut reader = build(&content);
        assert!(reader.tell() == 0);
        for position in positions(whole.len()) {
            seek(&mut reader, SeekFrom::Start(position)).unwrap();
            assert!(reader.tell() == position);
            let mut buf = ReadBuf::new(99);
            assert!(matches!(poll_read(&mut reader, &mut buf), Poll::Ready(Ok(()))));
            assert!(reader.tell() == position + buf.filled().len() as u64);
        }
    }
}

/// Data that is given in a certain way.
#[derive(Clone)]
struct TestData {
    content: Vec<u8>,
    /// The size that is reported.
    size: u64,
    /// How often everything has to be waited for.
    waits: usize,
    /// Whether reading fails.
    fails: bool,
    /// By how much seeking misses.
    misses: u64,
}

impl TestData {
    fn new(content: &[u8]) -> TestData {
        TestData {
            content: content.to_vec(),
            size: content.len() as u64,
            waits: 0,
            fails: false,
            misses: 0,
        }
    }
}

struct TestReader {
    position: usize,
    waits: usize,
}

struct TestFuture {
    waits: usize,
}

impl ReaderFuture<TestReader, &'static str> for TestFuture {
    fn poll(&mut self, _cx: &mut Context<'_>) -> Poll<Result<TestReader, &'static str>> {
        if self.waits > 0 {
            self.waits -= 1;
            return Poll::Pending;
        }
        Poll::Ready(Ok(TestReader { position: 0, waits: 0 }))
    }
}

impl EntryReader<TestData, &'static str> for TestReader {
    fn poll_read(
        &mut self,
        data: &TestData,
        _cx: &mut Context<'_>,
        buf: &mut ReadBuf,
    ) -> Poll<Result<(), &'static str>> {
        if data.fails {
            return Poll::Ready(Err("broken"));
        }
        if self.waits < data.waits {
            self.waits += 1;
            return Poll::Pending;
        }
        self.waits = 0;
        let end = (self.position + buf.remaining()).min(data.content.len());
        if self.position < end {
            buf.put_slice(&data.content[self.position..end]);
            self.position = end;
        }
        Poll::Ready(Ok(()))
    }

    fn start_seek(&mut self, data: &TestData, pos: SeekFrom) -> Result<(), &'static str> {
        match pos {
            SeekFrom::Start(position) => {
                self.position = (position + data.misses) as usize;
                self.waits = 0;
                Ok(())
            }
            _ => Err("unexpected seek"),
        }
    }

    fn poll_seek_complete(
        &mut self,
        data: &TestData,
        _cx: &mut Context<'_>,
    ) -> Poll<Result<u64, &'static str>> {
        if self.waits < data.waits {
            self.waits += 1;
            return Poll::Pending;
        }
        self.waits = 0;
        Poll::Ready(Ok(self.position as u64))
    }
}

impl EntryData for TestData {
    type Error = &'static str;
    type Reader = TestReader;
    type Future = TestFuture;

    fn get_reader(&self) -> TestFuture {
        assert!(self.size > 0, "Readers of empty data must not be asked for");
        TestFuture { waits: self.waits }
    }

    fn size(&self) -> u64 {
        self.size
    }
}

fn build_one(name: &str, data: TestData, crc32: Option<u32>) -> Reader<TestData> {
    let mut builder: Builder<TestData> = Builder::new();
    match builder.add_entry(name.to_owned(), data) {
        Ok(entry) => {
            if let Some(crc32) = crc32 {
                entry.crc32(crc32);
            }
        }
        Err(_) => panic!("There is room for the entry"),
    }
    builder.build()
}

#[test]
fn bad_size_entry_data_errors_out() {
    let data = TestData { size: 100, ..TestData::new(&[5]) };
    let mut zippity = build_one("xxx", data, None);
    match read_to_vec(&mut zippity, 1024) {
        Err(ReadError::Zippity(error)) => {
            assert_eq!(
                error,
                ZippityError::LengthMismatch {
                    entry_name: "xxx".to_owned(),
                    expected_size: 100,
                    actual_size: 1,
                }
            );
            let message = error.message();
            assert!(message.contains("xxx"));
            assert_eq!(message, "Entry xxx reports length 100 B, but was 1 B");
        }
        _ => panic!("Must fail"),
    }
}

#[test]
fn bad_size() {
    let data = TestData { size: 100, ..TestData::new(&[5]) };
    let mut zippity = build_one("xxx", data, None);
    match read_to_vec(&mut zippity, 1024) {
        Err(ReadError::Zippity(error)) => assert!(error.message().contains("xxx")),
        _ => panic!("Must fail"),
    }
}

#[test]
fn data_that_is_too_long_errors_out() {
    let data = TestData { size: 100, ..TestData::new(&[5; 101]) };
    let mut zippity = build_one("xxx", data, None);
    match read_to_vec(&mut zippity, 1024) {
        Err(ReadError::Zippity(error)) => assert_eq!(
            error,
            ZippityError::LengthMismatch {
                entry_name: "xxx".to_owned(),
                expected_size: 100,
                actual_size: 101,
            }
        ),
        _ => panic!("Must fail"),
    }
}

/// Reads up to the end, and tells for each read that had to wait how much was read before.
fn waits_at(reader: &mut Reader<TestData>) -> Vec<u64> {
    let mut waits = Vec::new();
    loop {
        let mut buf = ReadBuf::new(1024);
        match poll_read(reader, &mut buf) {
            Poll::Ready(Ok(())) => {
                if buf.filled().is_empty() {
                    return waits;
                }
            }
            Poll::Ready(Err(_)) => panic!("Nothing is wrong with the data"),
            Poll::Pending => waits.push(reader.tell()),
        }
    }
}

#[test]
fn only_data_is_waited_for() {
    let waiting = || TestData { waits: 2, ..TestData::new(&[1, 2, 3]) };
    // The data is opened, read, and read once more at its end
    let mut reader = build_one("xxx", waiting(), None);
    assert_eq!(waits_at(&mut reader), vec![61, 61, 61, 61, 64, 64]);

    // The checksum is computed from all of the data
    let mut reader = build_one("xxx", waiting(), None);
    seek(&mut reader, SeekFrom::Start(64)).unwrap();
    assert_eq!(waits_at(&mut reader), vec![64; 6]);
    seek(&mut reader, SeekFrom::Start(64)).unwrap();
    assert_eq!(waits_at(&mut reader), Vec::<u64>::new());

    // The checksum is known
    let mut reader = build_one("xxx", waiting(), Some(crc32fast::hash(&[1, 2, 3])));
    seek(&mut reader, SeekFrom::Start(64)).unwrap();
    assert_eq!(waits_at(&mut reader), Vec::<u64>::new());

    // Only the data of the first entry is waited for
    let mut builder: Builder<TestData> = Builder::new();
    assert!(builder.add_entry("a".to_owned(), waiting()).is_ok());
    assert!(builder.add_entry("b".to_owned(), TestData::new(&[4])).is_ok());
    let mut reader = builder.build();
    assert_eq!(waits_at(&mut reader), vec![59, 59, 59, 59, 62, 62]);
}

#[test]
fn wrong_crc32_errors_out() {
    let crc32 = crc32fast::hash(b"1234");
    let mut zippity = build_one("xxx", TestData::new(b"1234"), Some(crc32 ^ 1));
    match read_to_vec(&mut zippity, 1024) {
        Err(ReadError::Zippity(error)) => {
            assert_eq!(
                error,
                ZippityError::Crc32Mismatch {
                    entry_name: "xxx".to_owned(),
                    expected_crc: crc32 ^ 1,
                    actual_crc: crc32,
                }
            );
            assert_eq!(
                error.message(),
                "Entry xxx was given a CRC value 9be3e0a2 that does not match the computed 9be3e0a3"
            );
        }
        _ => panic!("Must fail"),
    }
    let mut zippity = build_one("xxx", TestData::new(b"1234"), Some(crc32));
    assert!(read_to_vec(&mut zippity, 1024).is_ok());
}

#[test]
fn failing_data_errors_out() {
    let data = TestData { fails: true, ..TestData::new(b"1234") };
    let mut zippity = build_one("xxx", data, None);
    assert!(matches!(read_to_vec(&mut zippity, 1024), Err(ReadError::Source("broken"))));
}

#[test]
fn missed_seek_errors_out() {
    let data = TestData { misses: 1, ..TestData::new(b"1234") };
    let mut zippity = build_one("xxx", data, None);
    seek(&mut zippity, SeekFrom::Start(63)).unwrap();
    assert!(matches!(
        read_to_vec(&mut zippity, 1024),
        Err(ReadError::SeekMismatch { expected_position: 2, actual_position: 3 })
    ));
}

/// Data that has to be waited for gives the same archive as data in memory.
#[test]
fn waiting_changes_nothing() {
    let content = (0..10000usize).map(|i| (i % 199) as u8).collect::<Vec<u8>>();
    let mut builder: Builder<&[u8]> = Builder::new();
    add(&mut builder, "xxx", content.as_slice());
    let expected = read_all(&mut builder.build(), 8192);
    for waits in [1usize, 3] {
        for position in [0u64, 1, 60, 61, 100, 10058, 10059, 10100, 10200] {
            let data = TestData { waits, ..TestData::new(&content) };
            let mut zippity = build_one("xxx", data, None);
            seek(&mut zippity, SeekFrom::Start(position)).unwrap();
            match read_to_vec(&mut zippity, 1000) {
                Ok(output) => assert!(output == expected[position as usize..]),
                Err(_) => panic!("The data can be read"),
            }
        }
    }
}

/// Verifies the CRC calculation: seeks within file data, or after the file data. Either pre-fills
/// the CRC from a ground truth run or not.
fn check_crc_recalculation(pre_fill_crc: bool, seek_past_data: bool) {
    let test_data: Vec<u8> = (0..(8192 + 1)).map(|v| (v & 0xff) as u8).collect();
    // The test data is larger than 8k so that the CRC recalculation always takes more than one read

    let mut builder1 = Builder::<&[u8]>::new();
    add(&mut builder1, "X", test_data.as_slice());
    let mut reader1 = builder1.build();
    assert!(reader1.crc32s().is_empty());
    let whole_zip = read_all(&mut reader1, 8192);

    let entry_crc = {
        let crcs = reader1.crc32s();
        assert!(crcs.len() == 1, "There should be exactly one item");
        assert!(crcs[0].0 == "X", "The item recovered must have the expected name");
        crcs[0].1
    };
    assert!(entry_crc == crc32fast::hash(&test_data));

    let mut builder2 = Builder::<&[u8]>::new();
    match builder2.add_entry("X".to_owned(), test_data.as_slice()) {
        Ok(entry) => {
            if pre_fill_crc {
                entry.crc32(entry_crc);
            }
        }
        Err(_) => panic!("There is room for the entry"),
    }
    let mut reader2 = builder2.build();

    let position = if seek_past_data {
        test_data.len() as u64 + Chunk::LocalHeader { entry_index: 0 }.size(reader1.get_entries())
    } else {
        test_data.len() as u64
    };
    seek(&mut reader2, SeekFrom::Start(position)).unwrap();

    let zip_after_seek = read_all(&mut reader2, 8192);
    assert!(zip_after_seek.as_slice() == &whole_zip[whole_zip.len() - zip_after_seek.len()..]);
    assert!(zip_after_seek.len() as u64 == whole_zip.len() as u64 - position);
}

#[test]
fn crc_recalculation_with_seek() {
    check_crc_recalculation(false, false);
    check_crc_recalculation(false, true);
    check_crc_recalculation(true, false);
    check_crc_recalculation(true, true);
}

/// Tests that the archive can be larger than 4 GB and have more than 65536 entries, as far as the
/// sizes are concerned.
#[test]
fn zip64_sizes() {
    let mut builder = Builder::<TestData>::new();
    let big = TestData { size: 0x100000000, ..TestData::new(b"") };
    assert!(builder.add_entry("Big file".to_owned(), big).is_ok());
    for i in 0..0x10000 {
        assert!(builder.add_entry(format!("Empty file {i}"), TestData::new(b"")).is_ok());
    }
    let mut zippity = builder.build();
    let size = zippity.size();
    assert!(size > 0x100000000);
    seek(&mut zippity, SeekFrom::End(-98)).unwrap();
    let end = match read_to_vec(&mut zippity, 8192) {
        Ok(end) => end,
        Err(_) => panic!("The end can be read"),
    };
    assert_eq!(end.len(), 98);
    assert_eq!(&end[32..40], &0x10001u64.to_le_bytes());
}

#[test]
fn taking_the_reader_keeps_checksums() {
    let mut builder: Builder<&[u8]> = Builder::new();
    add(&mut builder, "X", b"1234");
    let mut reader = builder.build();
    read_all(&mut reader, 100);
    let taken = reader.take_pinned();
    assert_eq!(taken.crc32s(), vec![("X", 0x9be3_e0a3)]);
    assert!(reader.get_entries().is_empty());
    assert_eq!(read_all(&mut reader, 100).len(), 98);
}

#[test]
fn file_data_is_checked() {
    let name = "xxx".to_owned();
    assert_eq!(check_file_data(&name, 5, 5, None, Some(7)), Ok(()));
    assert_eq!(check_file_data(&name, 5, 5, Some(7), None), Ok(()));
    assert_eq!(check_file_data(&name, 5, 5, Some(7), Some(7)), Ok(()));
    assert_eq!(
        check_file_data(&name, 5, 4, Some(7), Some(8)),
        Err(ZippityError::LengthMismatch {
            entry_name: "xxx".to_owned(),
            expected_size: 5,
            actual_size: 4,
        })
    );
    assert_eq!(
        check_file_data(&name, 5, 5, Some(7), Some(8)),
        Err(ZippityError::Crc32Mismatch {
            entry_name: "xxx".to_owned(),
            expected_crc: 7,
            actual_crc: 8,
        })
    );
}

#[test]
fn waiting_for_checksums_loses_nothing() {
    let mut builder: Builder<TestData> = Builder::new();
    let mut in_memory: Builder<&[u8]> = Builder::new();
    for name in ["first", "second", "third"] {
        let data = TestData { waits: 2, ..TestData::new(&[1, 2, 3]) };
        assert!(builder.add_entry_data(name.to_owned(), data).is_ok());
        add(&mut in_memory, name, &[1, 2, 3]);
    }
    let expected = read_all(&mut in_memory.build(), 1024);
    // One local part takes 82 bytes, the name and the data
    let cd_start = 3 * 82 + 5 + 6 + 5 + 9;

    let mut zippity = builder.build();
    for read_size in [1, 100, 1024] {
        assert_eq!(seek(&mut zippity, SeekFrom::Start(cd_start as u64)), Ok(cd_start as u64));
        match read_to_vec(&mut zippity, read_size) {
            Ok(output) => assert!(output == expected[cd_start..]),
            Err(_) => panic!("The data can be read"),
        }
        assert_eq!(zippity.tell(), zippity.size());
    }

    let data = TestData { waits: 2, ..TestData::new(&[1, 2, 3]) };
    let mut first = build_one("first", data, None);
    assert_eq!(seek(&mut first, SeekFrom::Start(0)), Ok(0));
    match read_to_vec(&mut first, 1024) {
        Ok(output) => assert_eq!(output.len() as u64, first.size()),
        Err(_) => panic!("The data can be read"),
    }
}

#[test]
fn one_read_gives_all_of_the_empty_archive() {
    let mut reader = Builder::<()>::new().build();
    let mut buf = ReadBuf::new(200);
    assert!(matches!(poll_read(&mut reader, &mut buf), Poll::Ready(Ok(()))));
    assert_eq!(reader.tell(), 98);
    let expected = [
        &[0x50, 0x4b, 0x06, 0x06, 0x2c, 0, 0, 0, 0, 0, 0, 0, 0x2d, 3, 0x2d, 0][..],
        &[0; 40],
        &[0x50, 0x4b, 0x06, 0x07],
        &[0; 12],
        &[1, 0, 0, 0],
        &[0x50, 0x4b, 0x05, 0x06, 0, 0, 0, 0],
        &[0xff; 12],
        &[0, 0],
    ]
    .concat();
    assert!(buf.filled() == expected);
}

#[test]
fn closing_records_go_to_the_output() {
    let reader = Builder::<()>::new().build();
    let sizes = Sizes {
        cd_offset: 0x1_0000_0002,
        cd_size: 0x2_0000_0003,
        eocd_offset: 0x3_0000_0005,
        total_size: 0x3_0000_0067,
    };
    let mut state = read_state(Vec::new(), 0);
    let mut buf = ReadBuf::new(98);
    assert!(state.read_eocd(&sizes, reader.get_entries(), &mut buf));
    assert!(state.staging_buffer.is_empty());
    assert_eq!(buf.filled().len(), 98);
    assert_eq!(buf.filled()[40..48], [3, 0, 0, 0, 2, 0, 0, 0]);
    assert_eq!(buf.filled()[48..56], [2, 0, 0, 0, 1, 0, 0, 0]);
    assert_eq!(buf.filled()[64..72], [5, 0, 0, 0, 3, 0, 0, 0]);
    assert_eq!(buf.filled()[84..96], [0xff; 12]);
}

#[test]
fn headers_go_to_the_output() {
    let mut builder: Builder<&[u8]> = Builder::new();
    match builder.add_entry_data("xyz".to_owned(), b"123456789".as_slice()) {
        Ok(entry) => assert!(entry.datetime_fields(1980, 1, 2, 0, 0, 6).is_some()),
        Err(_) => panic!("There is room for the entry"),
    }
    let mut reader = builder.build();
    let mut buf = ReadBuf::new(1024);
    assert!(matches!(poll_read(&mut reader, &mut buf), Poll::Ready(Ok(()))));
    let header = [
        &[0x50, 0x4b, 0x03, 0x04, 0x2d, 0, 8, 0, 0, 0, 3, 0, 0x22, 0, 0, 0, 0, 0][..],
        &[0xff; 8],
        &[3, 0, 0x1c, 0],
        b"xyz",
        &[1, 0, 0x18, 0],
        &[0; 24],
    ]
    .concat();
    assert!(buf.filled() == header);

    seek(&mut reader, SeekFrom::Start(61 + 9 + 24)).unwrap();
    let mut buf = ReadBuf::new(77);
    assert!(matches!(poll_read(&mut reader, &mut buf), Poll::Ready(Ok(()))));
    let header = [
        &[0x50, 0x4b, 0x01, 0x02, 0x2d, 3, 0x2d, 0, 0, 0, 0, 0, 3, 0, 0x22, 0][..],
        // The checksum that is well known
        &[0x26, 0x39, 0xf4, 0xcb],
        &[0xff; 8],
        &[3, 0, 0x1c, 0, 0, 0, 0xff, 0xff, 0, 0, 0, 0, 0xa4, 0x81, 0xff, 0xff, 0xff, 0xff],
        b"xyz",
        &[1, 0, 0x18, 0, 9, 0, 0, 0, 0, 0, 0, 0, 9, 0, 0, 0, 0, 0, 0, 0],
        &[0; 8],
    ]
    .concat();
    assert!(buf.filled() == header);
    assert_eq!(reader.crc32s(), vec![("xyz", 0xcbf4_3926)]);
}

#[test]
fn reading_through_makes_all_checksums_known() {
    let mut builder: Builder<&[u8]> = Builder::new();
    for name in ["123456789", "", "x"] {
        add(&mut builder, name, name.as_bytes());
    }
    let mut reader = builder.build();
    assert!(reader.crc32s().is_empty());
    read_all(&mut reader, 10);
    let expected = vec![("123456789", 0xcbf4_3926), ("", 0), ("x", 0x8cdc_1683)];
    assert_eq!(reader.crc32s(), expected);
    seek(&mut reader, SeekFrom::Start(3)).unwrap();
    assert_eq!(reader.crc32s(), expected);
    read_all(&mut reader, 1000);
    assert_eq!(reader.crc32s(), expected);

    // The central directory holds them all, too
    let cd_start = 3 * 82 + 2 * (9 + 1);
    for position in [1, 100, cd_start - 1, cd_start] {
        let mut builder: Builder<&[u8]> = Builder::new();
        for name in ["123456789", "", "x"] {
            add(&mut builder, name, name.as_bytes());
        }
        let mut reader = builder.build();
        seek(&mut reader, SeekFrom::Start(position)).unwrap();
        read_all(&mut reader, 50);
        assert_eq!(reader.crc32s(), expected);
    }
}

#[test]
fn wrong_sizes_never_go_unnoticed() {
    for (size, content) in [(1u64, 0usize), (1, 2), (100, 1), (100, 99), (100, 101), (9000, 8999)] {
        for waits in [0usize, 2] {
            for read_size in [1usize, 100, 10000] {
                let data = TestData { size, waits, ..TestData::new(&vec![7; content]) };
                let mut zippity = build_one("xxx", data, None);
                match read_to_vec(&mut zippity, read_size) {
                    Err(ReadError::Zippity(error)) => assert_eq!(
                        error,
                        ZippityError::LengthMismatch {
                            entry_name: "xxx".to_owned(),
                            expected_size: size,
                            actual_size: content as u64,
                        }
                    ),
                    _ => panic!("Must fail"),
                }
            }
        }
    }
}
