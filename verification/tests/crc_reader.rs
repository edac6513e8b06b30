use std::sync::Arc;
use std::task::{Context, Wake, Waker};
use zippity::crc_reader::CrcReader;
use zippity::entry_data::AsRefReader;
use zippity::io::{Poll, ReadBuf, SeekFrom};

struct NoWake;

impl Wake for NoWake {
    fn wake(self: Arc<Self>) {}
}

fn read_to_vec(reader: &mut CrcReader<AsRefReader>, data: &&[u8], read_size: usize) -> Vec<u8> {
    let waker = Waker::from(Arc::new(NoWake));
    let mut cx = Context::from_waker(&waker);
    let mut output = Vec::new();
    loop {
        let mut buf = ReadBuf::new(read_size);
        match reader.poll_read(data, &mut cx, &mut buf) {
            Poll::Ready(Ok(())) => {}
            _ => panic!("Data in memory can always be read"),
        }
        if buf.filled().is_empty() {
            return output;
        }
        output.extend_from_slice(buf.filled());
    }
}

#[test]
fn passes_through_data_and_crc() {
    for size in [0usize, 1, 2, 100, 8192, 10000] {
        let content: Vec<u8> = (0..size).map(|i| (i * 7 % 251) as u8).collect();
        for read_size in [1usize, 3, 64, 8192] {
            let data = content.as_slice();
            let mut reader = CrcReader::new(AsRefReader::new());
            let output = read_to_vec(&mut reader, &data, read_size);
            assert!(output == content);
            assert!(reader.get_crc32() == crc32fast::hash(&content));
            assert!(reader.is_crc_valid());
        }
    }
}

/// Verify a known example CRC value.
#[test]
fn crc_reader_known_crc() {
    let data: &[u8] = b"1234";
    let mut reader = CrcReader::new(AsRefReader::new());
    let _ = read_to_vec(&mut reader, &data, data.len());
    assert!(reader.get_crc32() == 0x9be3_e0a3);
}

#[test]
fn crc_is_not_valid_after_seek() {
    let data: &[u8] = b"123456";
    let waker = Waker::from(Arc::new(NoWake));
    let mut cx = Context::from_waker(&waker);
    let mut reader = CrcReader::new(AsRefReader::new());
    assert!(reader.is_crc_valid());
    match reader.seek(&data, &mut cx, SeekFrom::Start(2)) {
        Poll::Ready(Ok(position)) => assert_eq!(position, 2),
        _ => panic!("Seeking in memory is done at once"),
    }
    assert!(!reader.is_crc_valid());
    assert_eq!(read_to_vec(&mut reader, &data, 3), b"3456");
    assert!(!reader.is_crc_valid());
    assert_eq!(reader.get_crc32(), crc32fast::hash(b"3456"));
}

#[test]
fn seeks_from_anywhere() {
    let waker = Waker::from(Arc::new(NoWake));
    let mut cx = Context::from_waker(&waker);
    let data = b"0123456789".as_slice();
    let mut reader = CrcReader::new(AsRefReader::new());
    for (position, expected) in [
        (SeekFrom::End(-3), 7),
        (SeekFrom::Current(-2), 5),
        (SeekFrom::Current(4), 9),
        (SeekFrom::Start(1), 1),
        (SeekFrom::End(0), 10),
    ] {
        match reader.seek(&data, &mut cx, position) {
            Poll::Ready(Ok(reached)) => assert_eq!(reached, expected),
            _ => panic!("Seeking in memory is done at once"),
        }
    }
    assert!(!reader.is_crc_valid());
    assert!(read_to_vec(&mut reader, &data, 4).is_empty());
}
