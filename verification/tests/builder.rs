use std::task::Context;
use zippity::builder::{
    cd_header_size, eocd_size, get_external_attributes, local_header_size, AddEntryError, Builder,
    BuilderEntry, BuilderFileType, BuilderPermissions, Metadata, Permissions,
};
use zippity::chunk::Chunk;
use zippity::entry_data::{EntryData, EntryReader, ReaderFuture};
use zippity::io::{Poll, ReadBuf, SeekFrom};
use zippity::structs::DosDatetime;
use zippity::time::{
    system_timezone_converter, FixedOffset, NaiveDateTime, SystemTime, TimeConverter,
};

/// So many zeros
#[derive(Clone)]
struct Zeros {
    size: u64,
}

impl Zeros {
    fn new(size: u64) -> Zeros {
        Zeros { size }
    }
}

struct ZerosReader {
    left: u64,
}

struct ZerosFuture {
    size: u64,
}

impl ReaderFuture<ZerosReader, ()> for ZerosFuture {
    fn poll(&mut self, _cx: &mut Context<'_>) -> Poll<Result<ZerosReader, ()>> {
        Poll::Ready(Ok(ZerosReader { left: self.size }))
    }
}

impl EntryReader<Zeros, ()> for ZerosReader {
    fn poll_read(
        &mut self,
        _data: &Zeros,
        _cx: &mut Context<'_>,
        buf: &mut ReadBuf,
    ) -> Poll<Result<(), ()>> {
        let size = self.left.min(buf.remaining() as u64);
        buf.put_slice(&vec![0; size as usize]);
        self.left -= size;
        Poll::Ready(Ok(()))
    }

    fn start_seek(&mut self, _data: &Zeros, _pos: SeekFrom) -> Result<(), ()> {
        Err(())
    }

    fn poll_seek_complete(
        &mut self,
        _data: &Zeros,
        _cx: &mut Context<'_>,
    ) -> Poll<Result<u64, ()>> {
        Poll::Ready(Err(()))
    }
}

impl EntryData for Zeros {
    type Error = ();
    type Reader = ZerosReader;
    type Future = ZerosFuture;

    fn get_reader(&self) -> ZerosFuture {
        ZerosFuture { size: self.size }
    }

    fn size(&self) -> u64 {
        self.size
    }
}

fn add_error<D: EntryData>(builder: &mut Builder<D>, name: &str, data: D) -> AddEntryError {
    match builder.add_entry_data(name.to_owned(), data) {
        Ok(_) => panic!("Adding must fail"),
        Err(error) => error,
    }
}

fn add<D: EntryData>(builder: &mut Builder<D>, name: &str, data: D) {
    assert!(builder.add_entry_data(name.to_owned(), data).is_ok());
}

#[test]
fn too_long_enty_name() {
    let mut builder: Builder<&[u8]> = Builder::new();

    let name_length = u16::MAX as usize + 1;
    let e = add_error(&mut builder, &"X".repeat(name_length), b"".as_ref());
    assert_eq!(e.message(), "Entry name too long");
    assert!(
        matches!(e, AddEntryError::TooLongEntryName { entry_name } if entry_name.len() == name_length)
    );
    assert!(builder.size() == eocd_size());

    add(&mut builder, &"X".repeat(u16::MAX as usize), b"".as_ref());
    assert!(builder.get_entries().len() == 1);

    // It is the bytes that count
    let e = add_error(&mut builder, &"\u{17e}".repeat(0x8000), b"".as_ref());
    assert!(matches!(e, AddEntryError::TooLongEntryName { .. }));
}

#[test]
fn single_entry_does_not_fit() {
    let mut builder: Builder<Zeros> = Builder::new();

    let e = add_error(&mut builder, "x", Zeros::new(u64::MAX));
    assert_eq!(
        e.message(),
        "Adding entry x would cause the ZIP file to be longer than u64::MAX"
    );
    assert!(matches!(e, AddEntryError::TooLongZipFile { entry_name } if entry_name == "x"));
}

#[test]
fn two_entries_header_fits_data_does_not() {
    let mut builder: Builder<Zeros> = Builder::new();

    let entry = Zeros::new(u64::MAX - 1024);
    add(&mut builder, "x", entry.clone());
    let size = builder.size();
    let e = add_error(&mut builder, "y", entry);
    assert!(matches!(e, AddEntryError::TooLongZipFile { entry_name } if entry_name == "y"));
    assert!(builder.size() == size);
    assert!(builder.get_entries().len() == 1);
    // What was refused can be added later
    add(&mut builder, "y", Zeros::new(1));
}

#[test]
fn two_entries_header_does_not_fit() {
    let mut builder: Builder<Zeros> = Builder::new();

    // Entry is sized so that it perfectly fits inside the limit
    let entry =
        Zeros::new(u64::MAX - local_header_size("x") - cd_header_size("y") - eocd_size());
    add(&mut builder, "x", entry.clone());
    assert!(builder.size() == u64::MAX);
    let e = add_error(&mut builder, "y", entry);
    assert!(matches!(e, AddEntryError::TooLongZipFile { entry_name } if entry_name == "y"));
    assert!(builder.build().size() == u64::MAX);
}

#[test]
fn duplicate_entry_name() {
    let mut builder: Builder<&[u8]> = Builder::new();
    add(&mut builder, "x", b"1".as_slice());
    add(&mut builder, "y", b"2".as_slice());
    let e = add_error(&mut builder, "x", b"3".as_slice());
    assert_eq!(e.message(), "Duplicate entry name x");
    assert!(matches!(e, AddEntryError::DuplicateEntryName { entry_name } if entry_name == "x"));
    let names: Vec<&str> = builder.get_entries().iter().map(|(name, _)| *name).collect();
    assert_eq!(names, vec!["x", "y"]);
}

#[test]
fn header_sizes() {
    assert_eq!(local_header_size("abc"), 30 + 28 + 3 + 24);
    assert_eq!(cd_header_size("abc"), 46 + 28 + 3);
    assert_eq!(eocd_size(), 98);
}

fn sample() -> Builder<Vec<u8>> {
    let mut builder: Builder<Vec<u8>> = Builder::new();
    for (i, name) in ["", "a", "dir/", "dir/file", "p\u{159}\u{ed}li\u{161}"].iter().enumerate() {
        add(&mut builder, name, vec![7; i * 100]);
    }
    builder
}

/// The sizes that are reckoned with during building match the chunk sizes.
#[test]
fn local_size_matches_chunks() {
    let builder = sample();
    let local_sizes: Vec<u64> = builder
        .get_entries()
        .iter()
        .map(|(name, entry)| local_header_size(name) + entry.get_data().size())
        .collect();

    let zippity = builder.build();
    let entries = zippity.get_entries();
    for i in 0..entries.len() {
        let mut entry_local_size = 0;
        let mut chunk = Chunk::LocalHeader { entry_index: i };
        loop {
            entry_local_size += chunk.size(entries);
            chunk = chunk.next(entries);
            if matches!(chunk, Chunk::LocalHeader { .. } | Chunk::CDFileHeader { .. }) {
                break;
            }
        }
        assert!(local_sizes[i] == entry_local_size);
    }
}

#[test]
fn empty_builder_size_matches_reader_size() {
    let builder = Builder::<&[u8]>::new();
    let size = builder.size();
    let reader = builder.build();

    assert!(size == reader.size());
    assert!(Builder::<()>::default().size() == size);
}

#[test]
fn builder_size_matches_reader_size() {
    let builder = sample();
    let size = builder.size();
    let reader = builder.build();

    assert!(size == reader.size());
}

#[test]
fn entries_keep_their_order() {
    let mut builder: Builder<()> = Builder::new();
    let names = ["z", "a", "m", "b", "y"];
    for name in names {
        add(&mut builder, name, ());
    }
    let reader = builder.build();
    let read_back: Vec<&str> = reader.get_entries().iter().map(|e| e.get_name()).collect();
    assert_eq!(read_back, names);
    let offsets: Vec<u64> = reader.get_entries().iter().map(|e| e.offset).collect();
    assert_eq!(offsets, vec![0, 83, 166, 249, 332]);
}

#[test]
fn entries_can_be_removed() {
    let mut builder: Builder<&[u8]> = Builder::new();
    let mut expected: Builder<&[u8]> = Builder::new();
    for name in ["a", "bb", "ccc", "dddd"] {
        assert!(builder.add_entry_data(name.to_owned(), name.as_bytes()).is_ok());
        if name != "bb" {
            assert!(expected.add_entry_data(name.to_owned(), name.as_bytes()).is_ok());
        }
    }
    let size = builder.size();
    assert!(builder.remove_entry("x").is_none());
    assert_eq!(builder.size(), size);

    let removed = builder.remove_entry("bb").expect("There is such an entry");
    assert_eq!(removed.get_data(), b"bb");
    assert_eq!(builder.size(), size - 156 - 2 * 2 - 2);
    assert_eq!(builder.size(), expected.size());
    assert!(builder.remove_entry("bb").is_none());
    let names: Vec<&str> = builder.get_entries().iter().map(|(name, _)| *name).collect();
    assert_eq!(names, vec!["a", "ccc", "dddd"]);

    assert!(builder.add_entry_data("bb".to_owned(), b"bb".as_slice()).is_ok());
    assert_eq!(builder.size(), size);
    let size = builder.size();
    assert_eq!(builder.build().size(), size);
}

#[test]
fn entries_can_be_reordered() {
    let mut builder: zippity::Builder<&[u8]> = zippity::Builder::new();
    for name in ["a", "bb", "ccc", "dddd"] {
        assert!(builder.add_entry_data(name.to_owned(), name.as_bytes()).is_ok());
    }
    let size = builder.size();
    builder.swap_entries(3, 0);
    builder.swap_entries(1, 2);
    builder.swap_entries(2, 2);
    assert_eq!(builder.size(), size);
    let order = ["dddd", "ccc", "bb", "a"];
    let names: Vec<&str> = builder.get_entries().iter().map(|(name, _)| *name).collect();
    assert_eq!(names, order);
    for (name, entry) in builder.get_entries() {
        assert_eq!(*entry.get_data(), name.as_bytes());
    }
    assert_eq!(
        builder.remove_entry("ccc").expect("There is such an entry").get_data(),
        b"ccc"
    );
    let size = builder.size();
    let reader: zippity::Reader<&[u8]> = builder.build();
    assert_eq!(reader.size(), size);
    let names: Vec<&str> = reader.get_entries().iter().map(|e| e.get_name()).collect();
    assert_eq!(names, vec!["dddd", "bb", "a"]);
}

#[test]
fn entries_can_be_changed_later() {
    let mut builder = sample();
    builder.get_entries_mut()[1].crc32(5).directory();
    let entries = builder.get_entries();
    assert_eq!(entries[1].1.get_metadata().crc32, Some(5));
    assert_eq!(entries[1].1.get_metadata().file_type, BuilderFileType::Directory);
    assert_eq!(entries[2].1.get_metadata().crc32, None);
    let copy = builder.clone();
    assert_eq!(copy.size(), builder.size());
    assert_eq!(copy.get_entries()[1].1.get_metadata().crc32, Some(5));
    assert_eq!(copy.get_entries()[4].0, "p\u{159}\u{ed}li\u{161}");
}

/// Always gives the same date.
struct Fixed(NaiveDateTime);

impl TimeConverter for Fixed {
    fn convert(&self, _time: SystemTime) -> NaiveDateTime {
        self.0
    }
}

fn epoch() -> SystemTime {
    SystemTime { seconds: 0, nanos: 0 }
}

fn new_year(year: i32) -> NaiveDateTime {
    NaiveDateTime { year, month: 1, day: 1, hour: 1, minute: 1, second: 1 }
}

/// An entry whose converter always tells the new year.
fn entry_with_converter(year: i32) -> BuilderEntry<&'static [u8]> {
    let mut builder: Builder<&'static [u8]> = Builder::new();
    builder.system_time_converter(Fixed(new_year(year)));
    match builder.add_entry_data("X".to_owned(), b"".as_ref()) {
        Ok(entry) => entry.clone(),
        Err(_) => panic!("There is room for the entry"),
    }
}

#[test]
fn datetime_test() {
    for year in [2024, 1000] {
        let is_some = year >= 1980;
        let expected = DosDatetime::new(year, 1, 1, 1, 1, 1);
        assert!(expected.is_some() == is_some);

        let mut entry = BuilderEntry::new(b"".as_ref(), None);
        assert!(entry.datetime_fields(year, 1, 1, 1, 1, 1).is_some() == is_some);
        assert!(entry.get_metadata().datetime == expected);

        let mut entry = BuilderEntry::new(b"".as_ref(), None);
        entry.datetime_fields_or_default(year, 1, 1, 1, 1, 1);
        assert!(entry.get_metadata().datetime == expected);

        let mut entry = BuilderEntry::new(b"".as_ref(), None);
        assert!(entry.datetime(new_year(year)).is_some() == is_some);
        assert!(entry.get_metadata().datetime == expected);

        let mut entry = BuilderEntry::new(b"".as_ref(), None);
        entry.datetime_or_default(new_year(year));
        assert!(entry.get_metadata().datetime == expected);

        let mut entry = entry_with_converter(year);
        assert!(entry.datetime_system(epoch()).is_some() == is_some);
        assert!(entry.get_metadata().datetime == expected);

        let mut entry = entry_with_converter(year);
        entry.datetime_system_or_default(epoch());
        assert!(entry.get_metadata().datetime == expected);
    }
}

#[test]
fn failed_dates_leave_or_reset_the_date() {
    let date = DosDatetime::new(2000, 1, 2, 3, 4, 5);
    // Without a default the old date stays
    let mut entry = BuilderEntry::new(b"".as_ref(), None);
    entry.datetime_fields(2000, 1, 2, 3, 4, 5);
    assert!(entry.datetime_fields(1979, 1, 2, 3, 4, 5).is_none());
    assert!(entry.datetime(new_year(1979)).is_none());
    assert!(entry.datetime_system(epoch()).is_none());
    assert_eq!(entry.get_metadata().datetime, date);
    // With a default the old date goes
    entry.datetime_or_default(new_year(1979));
    assert_eq!(entry.get_metadata().datetime, None);
    entry.datetime_fields(2000, 1, 2, 3, 4, 5);
    entry.datetime_system_or_default(epoch());
    assert_eq!(entry.get_metadata().datetime, None);
    entry.datetime_fields(2000, 1, 2, 3, 4, 5);
    entry.datetime_fields_or_default(2200, 1, 2, 3, 4, 5);
    assert_eq!(entry.get_metadata().datetime, None);
}

#[test]
fn system_time_conversion_comes_from_builder() {
    let mut builder: Builder<&[u8]> = Builder::new();
    builder.system_time_converter(Fixed(NaiveDateTime {
        year: 2000,
        month: 1,
        day: 2,
        hour: 3,
        minute: 4,
        second: 5,
    }));

    let x = match builder.add_entry("X".into(), b"".as_ref()) {
        Ok(entry) => match entry.datetime_system(epoch()) {
            Some(entry) => entry.get_metadata().datetime,
            None => panic!("The date can be stored"),
        },
        Err(_) => panic!("There is room for the entry"),
    };
    let mut y = BuilderEntry::new(b"".as_ref(), None);
    assert!(y.datetime_fields(2000, 1, 2, 3, 4, 5).is_some());

    assert!(x == y.get_metadata().datetime);
}

#[test]
fn system_time_timezeone() {
    // 2025-02-02T17:00:00 UTC
    let time = SystemTime { seconds: 1738515600, nanos: 0 };
    for offset in -5..=5 {
        let converter = system_timezone_converter(FixedOffset { local_minus_utc: offset });
        let converted = converter.convert(time);
        assert_eq!((converted.year, converted.month, converted.day), (2025, 2, 2));
        let seconds = 17 * 3600 + offset;
        assert_eq!(converted.hour as i32, seconds / 3600);
        assert_eq!(converted.minute as i32, seconds / 60 % 60);
        assert_eq!(converted.second as i32, seconds % 60);
    }
    let mut builder: Builder<()> = Builder::new();
    builder.system_time_timezone(FixedOffset { local_minus_utc: -3600 });
    match builder.add_entry_data("X".to_owned(), ()) {
        Ok(entry) => {
            assert!(entry.datetime_system(time).is_some());
            assert_eq!(
                entry.get_metadata().datetime,
                DosDatetime::new(2025, 2, 2, 16, 0, 0)
            );
        }
        Err(_) => panic!("There is room for the entry"),
    }
}

#[test]
fn unix_permissions_masking() {
    let mut entry = BuilderEntry::new(b"".as_ref(), None);
    entry.unix_permissions(0o123_456);

    assert!(entry.get_metadata().permissions == BuilderPermissions::UnixPermissions(0o456));
}

#[test]
fn unix_permissions() {
    for permissions in 0u32..0o777 {
        let mut entry = BuilderEntry::new(b"".as_ref(), None);
        entry.unix_permissions(permissions);
        assert!(
            entry.get_metadata().permissions == BuilderPermissions::UnixPermissions(permissions)
        );
    }
}

#[test]
fn readonly() {
    let mut entry = BuilderEntry::new(b"".as_ref(), None);
    assert!(entry.get_metadata().permissions == BuilderPermissions::Rw);
    entry.readonly(true);
    assert!(entry.get_metadata().permissions == BuilderPermissions::Ro);
    entry.readonly(false);
    assert!(entry.get_metadata().permissions == BuilderPermissions::Rw);
}

fn metadata(is_dir: bool, is_symlink: bool) -> Metadata {
    Metadata {
        is_dir,
        is_symlink,
        len: 11,
        permissions: Permissions { readonly: false, mode: Some(0o100640) },
        modified: None,
    }
}

#[test]
fn file() {
    let mut entry = BuilderEntry::new(b"".as_ref(), None);
    entry.directory();
    entry.metadata(&metadata(false, false));
    assert!(entry.get_metadata().file_type == BuilderFileType::File);
    assert!(entry.get_metadata().permissions == BuilderPermissions::UnixPermissions(0o640));
}

#[test]
fn directory() {
    let mut entry = BuilderEntry::new(b"".as_ref(), None);
    entry.metadata(&metadata(true, false));
    assert!(entry.get_metadata().file_type == BuilderFileType::Directory);
}

#[test]
fn symlink() {
    let mut entry = BuilderEntry::new(b"".as_ref(), None);
    entry.metadata(&metadata(false, true));
    assert!(entry.get_metadata().file_type == BuilderFileType::Symlink);
}

#[test]
fn file_permissions() {
    let mut entry = BuilderEntry::new(b"".as_ref(), None);
    entry.permissions(&Permissions { readonly: true, mode: Some(0o100755) });
    assert!(entry.get_metadata().permissions == BuilderPermissions::UnixPermissions(0o755));
    entry.permissions(&Permissions { readonly: true, mode: None });
    assert!(entry.get_metadata().permissions == BuilderPermissions::Ro);
    entry.permissions(&Permissions { readonly: false, mode: None });
    assert!(entry.get_metadata().permissions == BuilderPermissions::Rw);
}

/// Setting the modification time from metadata results in the same modification time as setting
/// it alone.
#[test]
fn modification_time1() {
    let time = SystemTime { seconds: 1738515601, nanos: 5 };
    let mut builder: Builder<()> = Builder::new();
    builder.system_time_timezone(FixedOffset { local_minus_utc: 0 });
    add(&mut builder, "1", ());
    add(&mut builder, "2", ());
    let entries = builder.get_entries_mut();
    entries[0].metadata(&Metadata { modified: Some(time), ..metadata(false, false) });
    assert!(entries[1].datetime_system(time).is_some());
    assert!(entries[0].get_metadata().datetime == entries[1].get_metadata().datetime);
    assert!(entries[0].get_metadata().datetime == DosDatetime::new(2025, 2, 2, 17, 0, 1));
    // Where there is no modification time, the one that was set stays
    entries[0].metadata(&metadata(true, false));
    assert!(entries[0].get_metadata().datetime == DosDatetime::new(2025, 2, 2, 17, 0, 1));
}

#[test]
fn external_attributes() {
    let attributes = |t, p| get_external_attributes(t, p);
    assert_eq!(attributes(BuilderFileType::File, BuilderPermissions::Rw), 0o100644 << 16);
    assert_eq!(attributes(BuilderFileType::File, BuilderPermissions::Ro), 0o100444 << 16);
    assert_eq!(attributes(BuilderFileType::Directory, BuilderPermissions::Rw), 0o040755 << 16);
    assert_eq!(attributes(BuilderFileType::Directory, BuilderPermissions::Ro), 0o040555 << 16);
    for permissions in [
        BuilderPermissions::Rw,
        BuilderPermissions::Ro,
        BuilderPermissions::UnixPermissions(0o123),
    ] {
        assert_eq!(attributes(BuilderFileType::Symlink, permissions), 0o120777 << 16);
    }
    assert_eq!(
        attributes(BuilderFileType::File, BuilderPermissions::UnixPermissions(0o7123)),
        0o100123 << 16
    );
}
