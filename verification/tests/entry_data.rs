use std::sync::Arc;
use std::task::{Context, Wake, Waker};
use zippity::entry_data::{AsRefReader, EntryData, EntryReader, InvalidSeek, ReaderFuture};
use zippity::io::{Poll, ReadBuf, SeekFrom};

struct NoWake;

impl Wake for NoWake {
    fn wake(self: Arc<Self>) {}
}

fn open<D>(data: &D) -> AsRefReader
where
    D: EntryData<Error = InvalidSeek, Reader = AsRefReader>,
{
    let waker = Waker::from(Arc::new(NoWake));
    let mut cx = Context::from_waker(&waker);
    match data.get_reader().poll(&mut cx) {
        Poll::Ready(Ok(reader)) => reader,
        _ => panic!("Data in memory is always there"),
    }
}

fn read<D>(reader: &mut AsRefReader, data: &D, size: usize) -> Vec<u8>
where
    AsRefReader: EntryReader<D, InvalidSeek>,
{
    let waker = Waker::from(Arc::new(NoWake));
    let mut cx = Context::from_waker(&waker);
    let mut buf = ReadBuf::new(size);
    match reader.poll_read(data, &mut cx, &mut buf) {
        Poll::Ready(Ok(())) => buf.into_filled(),
        _ => panic!("Data in memory can always be read"),
    }
}

fn read_to_vec<D>(reader: &mut AsRefReader, data: &D, read_size: usize) -> Vec<u8>
where
    AsRefReader: EntryReader<D, InvalidSeek>,
{
    let mut output = Vec::new();
    loop {
        let block = read(reader, data, read_size);
        if block.is_empty() {
            return output;
        }
        output.extend_from_slice(&block);
    }
}

fn seek<D>(reader: &mut AsRefReader, data: &D, pos: SeekFrom) -> Result<u64, InvalidSeek>
where
    AsRefReader: EntryReader<D, InvalidSeek>,
{
    let waker = Waker::from(Arc::new(NoWake));
    let mut cx = Context::from_waker(&waker);
    reader.start_seek(data, pos)?;
    match reader.poll_seek_complete(data, &mut cx) {
        Poll::Ready(result) => result,
        Poll::Pending => panic!("Seeking in memory is done at once"),
    }
}

fn check_size_matches<D>(data: &D) -> u64
where
    D: EntryData<Error = InvalidSeek, Reader = AsRefReader>,
    AsRefReader: EntryReader<D, InvalidSeek>,
{
    let mut reader = open(data);
    let expected_size = data.size();
    let actual_size = read_to_vec(&mut reader, data, 1024).len() as u64;
    assert!(actual_size == expected_size);
    actual_size
}

#[test]
fn empty_entry() {
    let size = check_size_matches(b"");
    assert!(size == 0);
    assert!(check_size_matches(&()) == 0);
}

#[test]
fn slice_entry() {
    let entry = b"23456789sdfghjk,".as_slice();
    check_size_matches(&entry);

    let mut reader = open(&entry);
    let read_back = read_to_vec(&mut reader, &entry, 1024);
    assert!(read_back.as_slice() == entry);
}

#[test]
fn seek_past_end_and_read() {
    let data = b"hello";
    let mut reader = open(data);

    // Seek past the end
    let pos = seek(&mut reader, data, SeekFrom::Start(100)).unwrap();
    assert!(pos == 100);

    // Reading should return EOF (0 bytes)
    let n = read(&mut reader, data, 10).len();
    assert!(n == 0);
}

#[test]
fn seek_negative_from_current() {
    let data = b"hello world";
    let mut reader = open(data);

    // Read some data first
    let buf = read(&mut reader, data, 5);
    assert!(buf == b"hello");

    // Seek backward
    seek(&mut reader, data, SeekFrom::Current(-3)).unwrap();

    // Read again
    let buf2 = read(&mut reader, data, 5);
    assert!(buf2 == b"llo w");
}

#[test]
fn seek_from_end() {
    let data = b"hello world";
    let mut reader = open(data);

    // Seek to 5 bytes before end
    seek(&mut reader, data, SeekFrom::End(-5)).unwrap();

    let buf = read(&mut reader, data, 5);
    assert!(buf == b"world");
}

#[test]
fn seek_to_negative_position_errors() {
    let data = b"hello";
    let mut reader = open(data);

    // Seek past end is ok
    let result = seek(&mut reader, data, SeekFrom::Start(10));
    assert!(result.is_ok());

    // Try to seek to negative position from current
    let result = seek(&mut reader, data, SeekFrom::Current(-20));
    assert!(result.is_err());
    assert!(result.unwrap_err() == InvalidSeek);
}

#[test]
fn seek_overflow_from_end_errors() {
    let data = b"hello";
    let mut reader = open(data);

    // Try to overflow by seeking from end with i64::MIN
    let result = seek(&mut reader, data, SeekFrom::End(i64::MIN));
    assert!(result.is_err());
    assert!(result.unwrap_err() == InvalidSeek);
}

#[test]
fn multiple_seeks_and_reads() {
    let data = b"0123456789";
    let mut reader = open(data);

    // Read forward
    assert!(read(&mut reader, data, 3) == b"012");

    // Seek to start
    seek(&mut reader, data, SeekFrom::Start(5)).unwrap();
    assert!(read(&mut reader, data, 3) == b"567");

    // Seek to end
    seek(&mut reader, data, SeekFrom::End(-2)).unwrap();
    assert!(read(&mut reader, data, 2) == b"89");
}

#[test]
fn vec_u8_works() {
    let data = vec![1u8, 2, 3, 4, 5];
    let mut reader = open(&data);
    let read_back = read_to_vec(&mut reader, &data, 1024);
    assert!(read_back == data);
}

#[test]
fn string_works() {
    let data = String::from("hello world");
    let mut reader = open(&data);
    let read_back = read_to_vec(&mut reader, &data, 1024);
    assert!(read_back == data.as_bytes());
}

#[test]
fn bytes_and_str_work() {
    let data = bytes::Bytes::from_static(b"\x01\x02\x03");
    assert_eq!(data.size(), 3);
    assert_eq!(read_to_vec(&mut open(&data), &data, 2), b"\x01\x02\x03");
    let text = "\u{17e}lu\u{165}";
    assert_eq!(text.size(), 6);
    assert_eq!(read_to_vec(&mut open(&text), &text, 4), text.as_bytes());
}

#[test]
fn boxed_and_shared_slices_work() {
    let boxed: Box<[u8]> = Box::from(b"0123456789".as_slice());
    assert_eq!(boxed.size(), 10);
    assert_eq!(read_to_vec(&mut open(&boxed), &boxed, 3), b"0123456789");
    let shared: Arc<[u8]> = Arc::from(b"\x01\x02\x03".as_slice());
    assert_eq!(shared.size(), 3);
    assert_eq!(read_to_vec(&mut open(&shared), &shared, 1024), b"\x01\x02\x03");
}

#[test]
fn the_default_reader_stands_at_the_start() {
    let data = b"0123".as_slice();
    let mut reader = AsRefReader::default();
    assert_eq!(reader, AsRefReader::new());
    assert_eq!(read(&mut reader, &data, 2), b"01");
}

#[test]
fn reads_stop_at_the_capacity() {
    let data = b"0123456789".as_slice();
    let mut reader = open(&data);
    assert_eq!(read(&mut reader, &data, 0), b"");
    assert_eq!(read(&mut reader, &data, 4), b"0123");
    assert_eq!(read(&mut reader, &data, 100), b"456789");
    assert_eq!(read(&mut reader, &data, 100), b"");
}
