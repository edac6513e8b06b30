use std::io::Read;
use std::sync::Arc;
use std::task::{Context, Wake, Waker};
use zip::ZipArchive;
use zippity::builder::{Builder, BuilderEntry};
use zippity::collect::read_to_vec;
use zippity::entry_data::EntryData;
use zippity::io::{Poll, ReadBuf};
use zippity::proptest::{ReaderAndData, TestEntryData};

struct NoWake;

impl Wake for NoWake {
    fn wake(self: Arc<Self>) {}
}

fn build_and_open<D: EntryData>(builder: Builder<D>) -> ZipArchive<std::io::Cursor<Vec<u8>>> {
    let waker = Waker::from(Arc::new(NoWake));
    let mut cx = Context::from_waker(&waker);
    let mut zippity = builder.build();
    let size = zippity.size();

    let mut output = Vec::new();
    match read_to_vec(&mut zippity, &mut cx, 1000, &mut output) {
        Poll::Ready(Ok(())) => {}
        _ => panic!("Data in memory can always be read"),
    }

    assert!(size == (output.len() as u64));
    ZipArchive::new(std::io::Cursor::new(output)).expect("Should be a valid zip")
}

fn add<'a>(builder: &'a mut Builder<()>, name: &str) -> &'a mut BuilderEntry<()> {
    match builder.add_entry(name.to_owned(), ()) {
        Ok(entry) => entry,
        Err(_) => panic!("There is room for the entry"),
    }
}

#[test]
fn empty_archive() {
    let unpacked = build_and_open(Builder::<()>::new());
    assert!(unpacked.is_empty());
}

#[test]
fn empty_entry_name() {
    let mut builder: Builder<()> = Builder::new();
    add(&mut builder, "");

    let mut unpacked = build_and_open(builder);
    assert!(unpacked.len() == 1);

    let mut zipfile = unpacked.by_index(0).unwrap();
    let name = std::str::from_utf8(zipfile.name_raw()).unwrap().to_string();
    assert!(name.is_empty());
    let mut file_content = Vec::new();
    zipfile.read_to_end(&mut file_content).unwrap();
    assert!(file_content.is_empty());
}

#[test]
fn archive_with_single_file() {
    let mut builder: Builder<&[u8]> = Builder::new();
    assert!(builder.add_entry("Foo".to_owned(), b"bar!".as_slice()).is_ok());

    let mut unpacked = build_and_open(builder);
    assert!(unpacked.len() == 1);

    let mut zipfile = unpacked.by_index(0).unwrap();
    let name = std::str::from_utf8(zipfile.name_raw()).unwrap().to_string();
    assert!(name == "Foo");
    let mut file_content = Vec::new();
    zipfile.read_to_end(&mut file_content).unwrap();
    assert!(file_content == b"bar!");
}

#[test]
fn archive_with_single_empty_file() {
    let mut builder: Builder<&[u8]> = Builder::new();
    assert!(builder.add_entry("0".to_owned(), b"".as_slice()).is_ok());

    let mut unpacked = build_and_open(builder);
    assert!(unpacked.len() == 1);

    let mut zipfile = unpacked.by_index(0).unwrap();
    let name = std::str::from_utf8(zipfile.name_raw()).unwrap().to_string();
    assert!(name == "0");
    let mut file_content = Vec::new();
    zipfile.read_to_end(&mut file_content).unwrap();
    assert!(file_content == b"");
}

fn sample() -> Vec<(String, bytes::Bytes)> {
    (0..20usize)
        .map(|i| {
            let content: Vec<u8> = (0..i * i * 10).map(|j| (i + j) as u8).collect();
            (format!("entry \u{17e} {i}"), bytes::Bytes::from(content))
        })
        .collect()
}

#[test]
fn any_archive() {
    let content = sample();
    let mut unpacked = build_and_open(TestEntryData(content.clone()).into_builder());
    assert!(unpacked.len() == content.len());

    for i in 0..unpacked.len() {
        let mut zipfile = unpacked.by_index(i).unwrap();
        let name = std::str::from_utf8(zipfile.name_raw()).unwrap().to_string();
        assert!(name == content[i].0);
        let mut file_content = Vec::new();
        zipfile.read_to_end(&mut file_content).unwrap();
        assert!(file_content == content[i].1);
    }
    let reader = TestEntryData(content.clone()).into_reader();
    assert!(reader.get_entries().len() == content.len());
    assert!(reader.size() == TestEntryData(content).into_builder().size());
}

#[test]
fn reader_and_data_belong_together() {
    let content = sample();
    let waker = Waker::from(Arc::new(NoWake));
    let mut cx = Context::from_waker(&waker);

    let both = ReaderAndData::new(TestEntryData(content.clone()));
    assert!(both.data.0 == content);
    assert!(both.data.clone().0 == content);
    assert!(both.reader.tell() == 0);
    assert!(both.reader.get_entries().len() == content.len());

    // The content of the last entry follows 30 bytes of local header, the name and an extra field
    // of 28 bytes
    let local: u64 = both.reader.get_entries()[19].offset;
    let mut both = both.sought(local + 30 + content[19].0.len() as u64 + 28);
    let mut buf = ReadBuf::new(content[19].1.len());
    while buf.remaining() > 0 {
        assert!(matches!(both.reader.poll_read(&mut cx, &mut buf), Poll::Ready(Ok(()))));
    }
    assert!(buf.filled() == content[19].1);
    assert!(both.data.0 == content);
}

#[test]
fn rest_is_collected() {
    let waker = Waker::from(Arc::new(NoWake));
    let mut cx = Context::from_waker(&waker);
    let mut reader = TestEntryData(sample()).into_reader();

    let mut all = Vec::new();
    assert!(matches!(read_to_vec(&mut reader, &mut cx, 7, &mut all), Poll::Ready(Ok(()))));
    assert!(all.len() as u64 == reader.size());
    assert!(reader.tell() == reader.size());

    for position in [0, 1, 1000, all.len() - 98, all.len(), all.len() + 5] {
        reader.seek_from_start_mut(position as u64);
        let mut output = b"before".to_vec();
        assert!(matches!(read_to_vec(&mut reader, &mut cx, 512, &mut output), Poll::Ready(Ok(()))));
        assert!(output[..6] == b"before"[..]);
        assert!(output[6..] == all[position.min(all.len())..]);
    }
}

/// A little-endian number.
fn number(bytes: &[u8]) -> usize {
    bytes.iter().rev().fold(0, |value, byte| value * 256 + *byte as usize)
}

#[test]
fn archive_can_be_unpacked_by_its_end() {
    let waker = Waker::from(Arc::new(NoWake));
    let mut cx = Context::from_waker(&waker);
    let content = sample();
    let mut reader = TestEntryData(content.clone()).into_reader();
    let mut bytes = Vec::new();
    assert!(matches!(read_to_vec(&mut reader, &mut cx, 8192, &mut bytes), Poll::Ready(Ok(()))));

    let end = &bytes[bytes.len() - 98..];
    assert!(number(&end[32..40]) == content.len());
    let mut start = number(&end[48..56]);
    for (name, data) in content {
        let header = &bytes[start..];
        let name_len = number(&header[28..30]);
        assert!(header[46..46 + name_len] == *name.as_bytes());
        let size = number(&header[50 + name_len..58 + name_len]);
        let offset = number(&header[66 + name_len..74 + name_len]);
        let position = offset + 58 + name_len;
        assert!(bytes[position..position + size] == data);
        start += 74 + name_len;
    }
    assert!(start == bytes.len() - 98);
}

#[test]
fn entry_ordering() {
    let entry_names = ["b", "a", "\u{17e}", "", "aa", "ab/", "A"];
    let mut builder = Builder::<()>::new();
    for name in entry_names {
        add(&mut builder, name);
    }

    let mut unpacked = build_and_open(builder);
    let unpacked_entries: Vec<String> = (0..unpacked.len())
        .map(|i| {
            let zipfile = unpacked.by_index(i).unwrap();
            std::str::from_utf8(zipfile.name_raw()).unwrap().to_string()
        })
        .collect();
    assert!(unpacked_entries == entry_names);
}

#[test]
fn file_modification_time() {
    for (year, month, day, hour, minute, second) in
        [(1980, 1, 1, 0, 0, 0), (2107, 12, 31, 23, 59, 59), (2024, 2, 29, 12, 30, 31)]
    {
        let mut builder: Builder<()> = Builder::new();
        assert!(add(&mut builder, "X")
            .datetime_fields(year, month, day, hour, minute, second)
            .is_some());

        let mut unpacked = build_and_open(builder);
        assert!(unpacked.len() == 1);

        let unpacked_timestamp = unpacked.by_index(0).unwrap().last_modified();
        assert!(unpacked_timestamp.year() == year as u16);
        assert!(unpacked_timestamp.month() == month as u8);
        assert!(unpacked_timestamp.day() == day as u8);
        assert!(unpacked_timestamp.hour() == hour as u8);
        assert!(unpacked_timestamp.minute() == minute as u8);
        assert!(unpacked_timestamp.second() == (second & !1) as u8);
    }
}

#[test]
fn default_modification_time() {
    let mut builder: Builder<()> = Builder::new();
    add(&mut builder, "X");
    let mut unpacked = build_and_open(builder);
    let timestamp = unpacked.by_index(0).unwrap().last_modified();
    assert!((timestamp.year(), timestamp.month(), timestamp.day()) == (1980, 1, 1));
    assert!((timestamp.hour(), timestamp.minute(), timestamp.second()) == (0, 0, 0));
}

fn only_permissions(builder: Builder<()>) -> u32 {
    let mut unpacked = build_and_open(builder);
    assert!(unpacked.len() == 1);
    let permissions = unpacked.by_index(0).unwrap().unix_mode().unwrap();
    permissions
}

#[test]
fn regular_file_default_permissions() {
    let mut builder: Builder<()> = Builder::new();
    add(&mut builder, "X");
    assert!(only_permissions(builder) == 0o100644);
}

#[test]
fn directory_default_permissions() {
    let mut builder: Builder<()> = Builder::new();
    add(&mut builder, "X").directory();
    assert!(only_permissions(builder) == 0o40755);
}

#[test]
fn regular_file_override_permissions() {
    let mut builder: Builder<()> = Builder::new();
    add(&mut builder, "X").unix_permissions(0o123);
    assert!(only_permissions(builder) == 0o100123);
}

#[test]
fn directory_override_permissions() {
    let mut builder: Builder<()> = Builder::new();
    add(&mut builder, "X").directory().unix_permissions(0o123);
    assert!(only_permissions(builder) == 0o40123);
}

#[test]
fn readonly_file_permissions() {
    let mut builder: Builder<()> = Builder::new();
    add(&mut builder, "ro_file").readonly(true);
    // Expect readonly file => 0o100444
    assert!(only_permissions(builder) == 0o100444);
}

#[test]
fn readonly_directory_permissions() {
    let mut builder: Builder<()> = Builder::new();
    add(&mut builder, "ro_dir").directory().readonly(true);
    // Expect readonly directory => 0o40555
    assert!(only_permissions(builder) == 0o40555);
}

#[test]
fn symlink_permissions() {
    let mut builder: Builder<()> = Builder::new();
    add(&mut builder, "X").symlink().unix_permissions(0o123); // Will get overridden
    assert!(only_permissions(builder) == 0o120777);
}
