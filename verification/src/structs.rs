//! The records of the ZIP format, and how each is laid out in bytes.

use crate::encode::{le_bytes, lemma_le_bytes_len, push_le};
use vstd::prelude::*;

verus! {

/// A record that is written as a fixed number of bytes.
pub trait PackedStructZippityExt: Sized {
    /// The bytes of this record.
    spec fn spec_packed(&self) -> Seq<u8>;

    /// How many bytes every record of this type takes.
    spec fn spec_packed_size() -> nat;

    /// The bytes of a record are as many as its type takes.
    proof fn lemma_packed_len(&self)
        ensures
            self.spec_packed().len() == Self::spec_packed_size(),
    ;

    /// Size of the packed record in bytes.
    fn packed_size_u16() -> (size: u16)
        ensures
            size == Self::spec_packed_size(),
    ;

    /// Writes the record out.
    fn pack(&self) -> (bytes: Vec<u8>)
        ensures
            bytes@ == self.spec_packed(),
    ;

    /// Size of the packed record in bytes.
    fn packed_size() -> (size: u64)
        ensures
            size == Self::spec_packed_size(),
    {
        Self::packed_size_u16() as u64
    }

    /// Size of the packed record in bytes.
    fn packed_size_usize() -> (size: usize)
        ensures
            size == Self::spec_packed_size(),
    {
        Self::packed_size_u16() as usize
    }
}

/// General purpose flags of an entry.
#[derive(Clone, Copy, Debug, PartialEq, Eq, Structural)]
pub struct GpBitFlag {
    /// Sizes and CRC32 follow the data in a data descriptor.
    pub use_data_descriptor: bool,
    /// Filename and comments in UTF-8.
    pub language_encoding: bool,
}

impl GpBitFlag {
    /// Bit 3 marks the data descriptor and bit 11 the UTF-8 names.
    pub open spec fn spec_value(self) -> u16 {
        ((if self.use_data_descriptor {
            8int
        } else {
            0
        }) + (if self.language_encoding {
            2048int
        } else {
            0
        })) as u16
    }

    /// The flags as the 16-bit number that is stored.
    pub fn value(&self) -> (value: u16)
        ensures
            value == self.spec_value(),
    {
        let descriptor: u16 = if self.use_data_descriptor {
            8
        } else {
            0
        };
        let utf8: u16 = if self.language_encoding {
            2048
        } else {
            0
        };
        descriptor + utf8
    }
}

/// How the data of an entry is compressed.
#[derive(Clone, Copy, Debug, PartialEq, Eq, Structural)]
#[non_exhaustive]
pub enum Compression {
    /// Not at all.
    Store,
}

impl Compression {
    /// The number that stands for the method.
    pub open spec fn spec_value(self) -> u16 {
        match self {
            Compression::Store => 0,
        }
    }

    /// The number that stands for the method.
    pub fn value(&self) -> (value: u16)
        ensures
            value == self.spec_value(),
    {
        match self {
            Compression::Store => 0,
        }
    }
}

/// Operating system whose conventions the external attributes follow.
#[derive(Clone, Copy, Debug, PartialEq, Eq, Structural)]
#[non_exhaustive]
pub enum VersionMadeByOs {
    /// Unix.
    Unix,
}

impl VersionMadeByOs {
    /// The number that stands for the operating system.
    pub open spec fn spec_value(self) -> u8 {
        match self {
            VersionMadeByOs::Unix => 3,
        }
    }

    /// The number that stands for the operating system.
    pub fn value(&self) -> (value: u8)
        ensures
            value == self.spec_value(),
    {
        match self {
            VersionMadeByOs::Unix => 3,
        }
    }
}

/// Version of the format, and operating system, that an archive was made with.
#[derive(Clone, Copy, Debug, PartialEq, Eq, Structural)]
pub struct VersionMadeBy {
    pub spec_version: u8,
    pub os: VersionMadeByOs,
}

/// Date and time in the MS-DOS format.
#[derive(Clone, Copy, Debug, PartialEq, Eq, Structural)]
pub struct DosDatetime {
    pub time: u16,
    pub date: u16,
}

/// Whether the fields can be stored as a [`DosDatetime`].
pub open spec fn valid_datetime_fields(
    year: i32,
    month: u32,
    day: u32,
    hour: u32,
    minute: u32,
    second: u32,
) -> bool {
    &&& 1980 <= year <= 2107
    &&& 1 <= month <= 12
    &&& 1 <= day <= 31
    &&& hour <= 23
    &&& minute <= 59
    &&& second <= 59
}

/// A packed date can be taken apart again.
proof fn lemma_unpack_date(day: int, month: int, years: int)
    requires
        0 <= day < 32,
        0 <= month < 16,
        0 <= years,
    ensures
        (day + month * 32 + years * 512) % 32 == day,
        (day + month * 32 + years * 512) / 32 % 16 == month,
        (day + month * 32 + years * 512) / 512 == years,
{
}

/// A packed time can be taken apart again.
proof fn lemma_unpack_time(half_seconds: int, minute: int, hour: int)
    requires
        0 <= half_seconds < 32,
        0 <= minute < 64,
        0 <= hour,
    ensures
        (half_seconds + minute * 32 + hour * 2048) % 32 == half_seconds,
        (half_seconds + minute * 32 + hour * 2048) / 32 % 64 == minute,
        (half_seconds + minute * 32 + hour * 2048) / 2048 == hour,
{
}

impl DosDatetime {
    pub open spec fn spec_year(self) -> int {
        self.date as int / 512 + 1980
    }

    pub open spec fn spec_month(self) -> int {
        self.date as int / 32 % 16
    }

    pub open spec fn spec_day(self) -> int {
        self.date as int % 32
    }

    pub open spec fn spec_hour(self) -> int {
        self.time as int / 2048
    }

    pub open spec fn spec_minute(self) -> int {
        self.time as int / 32 % 64
    }

    pub open spec fn spec_second(self) -> int {
        self.time as int % 32 * 2
    }

    /// What [`DosDatetime::new`] gives for a date and time.
    pub open spec fn spec_new(
        year: i32,
        month: u32,
        day: u32,
        hour: u32,
        minute: u32,
        second: u32,
    ) -> Option<DosDatetime> {
        if valid_datetime_fields(year, month, day, hour, minute, second) {
            Some(
                DosDatetime {
                    time: (second as int / 2 + minute * 32 + hour * 2048) as u16,
                    date: (day + month * 32 + (year - 1980) * 512) as u16,
                },
            )
        } else {
            None
        }
    }

    /// Constructs a new `DosDatetime`. Returns `None` if any value is out of range.
    pub fn new(year: i32, month: u32, day: u32, hour: u32, minute: u32, second: u32) -> (result:
        Option<DosDatetime>)
        ensures
            result == DosDatetime::spec_new(year, month, day, hour, minute, second),
            result matches Some(dt) ==> {
                &&& dt.spec_year() == year
                &&& dt.spec_month() == month
                &&& dt.spec_day() == day
                &&& dt.spec_hour() == hour
                &&& dt.spec_minute() == minute
                &&& dt.spec_second() == second - second % 2
            },
    {
        if year < 1980 || year >= 1980 + 128 {
            return None;
        }
        if month < 1 || month > 12 {
            return None;
        }
        if day < 1 || day > 31 {
            return None;
        }
        if hour > 23 {
            return None;
        }
        if minute > 59 {
            return None;
        }
        if second > 59 {
            return None;
        }
        let half_seconds: u16 = (second / 2) as u16;
        let minutes: u16 = minute as u16;
        let hours: u16 = hour as u16;
        let days: u16 = day as u16;
        let months: u16 = month as u16;
        let years: u16 = (year - 1980) as u16;
        assert(half_seconds | (minutes << 5) | (hours << 11) == half_seconds + minutes * 32 + hours
            * 2048) by (bit_vector)
            requires
                half_seconds < 32,
                minutes < 64,
                hours < 32,
        ;
        assert(days | (months << 5) | (years << 9) == days + months * 32 + years * 512)
            by (bit_vector)
            requires
                days < 32,
                months < 16,
                years < 128,
        ;
        proof {
            lemma_unpack_time(half_seconds as int, minutes as int, hours as int);
            lemma_unpack_date(days as int, months as int, years as int);
        }
        Some(
            DosDatetime {
                time: half_seconds | (minutes << 5) | (hours << 11),
                date: days | (months << 5) | (years << 9),
            },
        )
    }

    /// The year, 1980 to 2107.
    pub fn year(&self) -> (year: i32)
        ensures
            year == self.spec_year(),
    {
        let date: u16 = self.date;
        assert(date >> 9 == date / 512) by (bit_vector);
        ((date >> 9) + 1980) as i32
    }

    /// The month, 1 to 12 in a date that [`DosDatetime::new`] made.
    pub fn month(&self) -> (month: u32)
        ensures
            month == self.spec_month(),
    {
        let date: u16 = self.date;
        assert((date >> 5) & 15 == date / 32 % 16) by (bit_vector);
        ((date >> 5) & 15) as u32
    }

    /// The day, 1 to 31 in a date that [`DosDatetime::new`] made.
    pub fn day(&self) -> (day: u32)
        ensures
            day == self.spec_day(),
    {
        let date: u16 = self.date;
        assert(date & 31 == date % 32) by (bit_vector);
        (date & 31) as u32
    }

    /// The hour.
    pub fn hour(&self) -> (hour: u32)
        ensures
            hour == self.spec_hour(),
    {
        let time: u16 = self.time;
        assert(time >> 11 == time / 2048) by (bit_vector);
        (time >> 11) as u32
    }

    /// The minute.
    pub fn minute(&self) -> (minute: u32)
        ensures
            minute == self.spec_minute(),
    {
        let time: u16 = self.time;
        assert((time >> 5) & 63 == time / 32 % 64) by (bit_vector);
        ((time >> 5) & 63) as u32
    }

    /// The second, always even.
    pub fn second(&self) -> (second: u32)
        ensures
            second == self.spec_second(),
    {
        let time: u16 = self.time;
        assert(time & 31 == time % 32) by (bit_vector);
        ((time & 31) * 2) as u32
    }
}

/// The default is 1980-01-01T00:00:00, the earliest date that can be stored.
impl Default for DosDatetime {
    fn default() -> (result: DosDatetime)
        ensures
            Some(result) == DosDatetime::spec_new(1980, 1, 1, 0, 0, 0),
    {
        DosDatetime { time: 0, date: 33 }
    }
}

/// Local file header.
/// Precedes every file.
/// Must be followed by file name and extra fields (length is part of this struct).
#[derive(Clone, Copy, Debug, PartialEq, Eq, Structural)]
pub struct LocalFileHeader {
    pub signature: u32,
    pub version_to_extract: u16,
    pub flags: GpBitFlag,
    pub compression: Compression,
    pub last_mod_datetime: DosDatetime,
    pub crc32: u32,
    pub compressed_size: u32,
    pub uncompressed_size: u32,
    pub file_name_len: u16,
    pub extra_field_len: u16,
}

impl LocalFileHeader {
    pub const SIGNATURE: u32 = 0x04034b50;
}

impl PackedStructZippityExt for LocalFileHeader {
    open spec fn spec_packed(&self) -> Seq<u8> {
        le_bytes(self.signature as nat, 4)
            + le_bytes(self.version_to_extract as nat, 2)
            + le_bytes(self.flags.spec_value() as nat, 2)
            + le_bytes(self.compression.spec_value() as nat, 2)
            + le_bytes(self.last_mod_datetime.time as nat, 2)
            + le_bytes(self.last_mod_datetime.date as nat, 2)
            + le_bytes(self.crc32 as nat, 4)
            + le_bytes(self.compressed_size as nat, 4)
            + le_bytes(self.uncompressed_size as nat, 4)
            + le_bytes(self.file_name_len as nat, 2)
            + le_bytes(self.extra_field_len as nat, 2)
    }

    open spec fn spec_packed_size() -> nat {
        30
    }

    proof fn lemma_packed_len(&self) {
        broadcast use lemma_le_bytes_len;

    }

    fn packed_size_u16() -> (size: u16) {
        30
    }

    fn pack(&self) -> (bytes: Vec<u8>) {
        let mut out: Vec<u8> = Vec::new();
        push_le(&mut out, self.signature as u64, 4);
        assert(out@ =~= le_bytes(self.signature as nat, 4));
        push_le(&mut out, self.version_to_extract as u64, 2);
        push_le(&mut out, self.flags.value() as u64, 2);
        push_le(&mut out, self.compression.value() as u64, 2);
        push_le(&mut out, self.last_mod_datetime.time as u64, 2);
        push_le(&mut out, self.last_mod_datetime.date as u64, 2);
        push_le(&mut out, self.crc32 as u64, 4);
        push_le(&mut out, self.compressed_size as u64, 4);
        push_le(&mut out, self.uncompressed_size as u64, 4);
        push_le(&mut out, self.file_name_len as u64, 2);
        push_le(&mut out, self.extra_field_len as u64, 2);
        out
    }
}

/// Zip64 extended information, stored as an extra field of a header.
#[derive(Clone, Copy, Debug, PartialEq, Eq, Structural)]
pub struct Zip64ExtraField {
    pub tag: u16,
    pub size: u16,
    pub uncompressed_size: u64,
    pub compressed_size: u64,
    pub offset: u64,
}

impl Zip64ExtraField {
    pub const TAG: u16 = 0x0001;
}

impl PackedStructZippityExt for Zip64ExtraField {
    open spec fn spec_packed(&self) -> Seq<u8> {
        le_bytes(self.tag as nat, 2)
            + le_bytes(self.size as nat, 2)
            + le_bytes(self.uncompressed_size as nat, 8)
            + le_bytes(self.compressed_size as nat, 8)
            + le_bytes(self.offset as nat, 8)
    }

    open spec fn spec_packed_size() -> nat {
        28
    }

    proof fn lemma_packed_len(&self) {
        broadcast use lemma_le_bytes_len;

    }

    fn packed_size_u16() -> (size: u16) {
        28
    }

    fn pack(&self) -> (bytes: Vec<u8>) {
        let mut out: Vec<u8> = Vec::new();
        push_le(&mut out, self.tag as u64, 2);
        assert(out@ =~= le_bytes(self.tag as nat, 2));
        push_le(&mut out, self.size as u64, 2);
        push_le(&mut out, self.uncompressed_size, 8);
        push_le(&mut out, self.compressed_size, 8);
        push_le(&mut out, self.offset, 8);
        out
    }
}

/// Zip64 version of the data descriptor.
/// Follows file data.
#[derive(Clone, Copy, Debug, PartialEq, Eq, Structural)]
pub struct DataDescriptor64 {
    pub signature: u32,
    pub crc32: u32,
    pub compressed_size: u64,
    pub uncompressed_size: u64,
}

impl DataDescriptor64 {
    pub const SIGNATURE: u32 = 0x08074b50;
}

impl PackedStructZippityExt for DataDescriptor64 {
    open spec fn spec_packed(&self) -> Seq<u8> {
        le_bytes(self.signature as nat, 4)
            + le_bytes(self.crc32 as nat, 4)
            + le_bytes(self.compressed_size as nat, 8)
            + le_bytes(self.uncompressed_size as nat, 8)
    }

    open spec fn spec_packed_size() -> nat {
        24
    }

    proof fn lemma_packed_len(&self) {
        broadcast use lemma_le_bytes_len;

    }

    fn packed_size_u16() -> (size: u16) {
        24
    }

    fn pack(&self) -> (bytes: Vec<u8>) {
        let mut out: Vec<u8> = Vec::new();
        push_le(&mut out, self.signature as u64, 4);
        assert(out@ =~= le_bytes(self.signature as nat, 4));
        push_le(&mut out, self.crc32 as u64, 4);
        push_le(&mut out, self.compressed_size, 8);
        push_le(&mut out, self.uncompressed_size, 8);
        out
    }
}

/// Central directory header.
/// One per each file, placed in central directory.
#[derive(Clone, Copy, Debug, PartialEq, Eq, Structural)]
pub struct CentralDirectoryHeader {
    pub signature: u32,
    pub version_made_by: VersionMadeBy,
    pub version_to_extract: u16,
    pub flags: GpBitFlag,
    pub compression: Compression,
    pub last_mod_datetime: DosDatetime,
    pub crc32: u32,
    pub compressed_size: u32,
    pub uncompressed_size: u32,
    pub file_name_len: u16,
    pub extra_field_len: u16,
    pub file_comment_length: u16,
    pub disk_number_start: u16,
    pub internal_attributes: u16,
    pub external_attributes: u32,
    pub local_header_offset: u32,
}

impl CentralDirectoryHeader {
    pub const SIGNATURE: u32 = 0x02014b50;
}

impl PackedStructZippityExt for CentralDirectoryHeader {
    open spec fn spec_packed(&self) -> Seq<u8> {
        le_bytes(self.signature as nat, 4)
            + le_bytes(self.version_made_by.spec_version as nat, 1)
            + le_bytes(self.version_made_by.os.spec_value() as nat, 1)
            + le_bytes(self.version_to_extract as nat, 2)
            + le_bytes(self.flags.spec_value() as nat, 2)
            + le_bytes(self.compression.spec_value() as nat, 2)
            + le_bytes(self.last_mod_datetime.time as nat, 2)
            + le_bytes(self.last_mod_datetime.date as nat, 2)
            + le_bytes(self.crc32 as nat, 4)
            + le_bytes(self.compressed_size as nat, 4)
            + le_bytes(self.uncompressed_size as nat, 4)
            + le_bytes(self.file_name_len as nat, 2)
            + le_bytes(self.extra_field_len as nat, 2)
            + le_bytes(self.file_comment_length as nat, 2)
            + le_bytes(self.disk_number_start as nat, 2)
            + le_bytes(self.internal_attributes as nat, 2)
            + le_bytes(self.external_attributes as nat, 4)
            + le_bytes(self.local_header_offset as nat, 4)
    }

    open spec fn spec_packed_size() -> nat {
        46
    }

    proof fn lemma_packed_len(&self) {
        broadcast use lemma_le_bytes_len;

    }

    fn packed_size_u16() -> (size: u16) {
        46
    }

    fn pack(&self) -> (bytes: Vec<u8>) {
        let mut out: Vec<u8> = Vec::new();
        push_le(&mut out, self.signature as u64, 4);
        assert(out@ =~= le_bytes(self.signature as nat, 4));
        push_le(&mut out, self.version_made_by.spec_version as u64, 1);
        push_le(&mut out, self.version_made_by.os.value() as u64, 1);
        push_le(&mut out, self.version_to_extract as u64, 2);
        push_le(&mut out, self.flags.value() as u64, 2);
        push_le(&mut out, self.compression.value() as u64, 2);
        push_le(&mut out, self.last_mod_datetime.time as u64, 2);
        push_le(&mut out, self.last_mod_datetime.date as u64, 2);
        push_le(&mut out, self.crc32 as u64, 4);
        push_le(&mut out, self.compressed_size as u64, 4);
        push_le(&mut out, self.uncompressed_size as u64, 4);
        push_le(&mut out, self.file_name_len as u64, 2);
        push_le(&mut out, self.extra_field_len as u64, 2);
        push_le(&mut out, self.file_comment_length as u64, 2);
        push_le(&mut out, self.disk_number_start as u64, 2);
        push_le(&mut out, self.internal_attributes as u64, 2);
        push_le(&mut out, self.external_attributes as u64, 4);
        push_le(&mut out, self.local_header_offset as u64, 4);
        out
    }
}

/// Zip64 end of central directory record.
#[derive(Clone, Copy, Debug, PartialEq, Eq, Structural)]
pub struct Zip64EndOfCentralDirectoryRecord {
    pub signature: u32,
    pub size_of_zip64_eocd: u64,
    pub version_made_by: VersionMadeBy,
    pub version_to_extract: u16,
    pub this_disk_number: u32,
    pub start_of_cd_disk_number: u32,
    pub this_cd_entry_count: u64,
    pub total_cd_entry_count: u64,
    pub size_of_cd: u64,
    pub cd_offset: u64,
}

impl Zip64EndOfCentralDirectoryRecord {
    pub const SIGNATURE: u32 = 0x06064b50;
}

impl PackedStructZippityExt for Zip64EndOfCentralDirectoryRecord {
    open spec fn spec_packed(&self) -> Seq<u8> {
        le_bytes(self.signature as nat, 4)
            + le_bytes(self.size_of_zip64_eocd as nat, 8)
            + le_bytes(self.version_made_by.spec_version as nat, 1)
            + le_bytes(self.version_made_by.os.spec_value() as nat, 1)
            + le_bytes(self.version_to_extract as nat, 2)
            + le_bytes(self.this_disk_number as nat, 4)
            + le_bytes(self.start_of_cd_disk_number as nat, 4)
            + le_bytes(self.this_cd_entry_count as nat, 8)
            + le_bytes(self.total_cd_entry_count as nat, 8)
            + le_bytes(self.size_of_cd as nat, 8)
            + le_bytes(self.cd_offset as nat, 8)
    }

    open spec fn spec_packed_size() -> nat {
        56
    }

    proof fn lemma_packed_len(&self) {
        broadcast use lemma_le_bytes_len;

    }

    fn packed_size_u16() -> (size: u16) {
        56
    }

    fn pack(&self) -> (bytes: Vec<u8>) {
        let mut out: Vec<u8> = Vec::new();
        push_le(&mut out, self.signature as u64, 4);
        assert(out@ =~= le_bytes(self.signature as nat, 4));
        push_le(&mut out, self.size_of_zip64_eocd, 8);
        push_le(&mut out, self.version_made_by.spec_version as u64, 1);
        push_le(&mut out, self.version_made_by.os.value() as u64, 1);
        push_le(&mut out, self.version_to_extract as u64, 2);
        push_le(&mut out, self.this_disk_number as u64, 4);
        push_le(&mut out, self.start_of_cd_disk_number as u64, 4);
        push_le(&mut out, self.this_cd_entry_count, 8);
        push_le(&mut out, self.total_cd_entry_count, 8);
        push_le(&mut out, self.size_of_cd, 8);
        push_le(&mut out, self.cd_offset, 8);
        out
    }
}

/// Zip64 end of central directory locator.
#[derive(Clone, Copy, Debug, PartialEq, Eq, Structural)]
pub struct Zip64EndOfCentralDirectoryLocator {
    pub signature: u32,
    pub start_of_cd_disk_number: u32,
    pub zip64_eocd_offset: u64,
    pub number_of_disks: u32,
}

impl Zip64EndOfCentralDirectoryLocator {
    pub const SIGNATURE: u32 = 0x07064b50;
}

impl PackedStructZippityExt for Zip64EndOfCentralDirectoryLocator {
    open spec fn spec_packed(&self) -> Seq<u8> {
        le_bytes(self.signature as nat, 4)
            + le_bytes(self.start_of_cd_disk_number as nat, 4)
            + le_bytes(self.zip64_eocd_offset as nat, 8)
            + le_bytes(self.number_of_disks as nat, 4)
    }

    open spec fn spec_packed_size() -> nat {
        20
    }

    proof fn lemma_packed_len(&self) {
        broadcast use lemma_le_bytes_len;

    }

    fn packed_size_u16() -> (size: u16) {
        20
    }

    fn pack(&self) -> (bytes: Vec<u8>) {
        let mut out: Vec<u8> = Vec::new();
        push_le(&mut out, self.signature as u64, 4);
        assert(out@ =~= le_bytes(self.signature as nat, 4));
        push_le(&mut out, self.start_of_cd_disk_number as u64, 4);
        push_le(&mut out, self.zip64_eocd_offset, 8);
        push_le(&mut out, self.number_of_disks as u64, 4);
        out
    }
}

/// End of central directory record, the last one of an archive.
#[derive(Clone, Copy, Debug, PartialEq, Eq, Structural)]
pub struct EndOfCentralDirectory {
    pub signature: u32,
    pub this_disk_number: u16,
    pub start_of_cd_disk_number: u16,
    pub this_cd_entry_count: u16,
    pub total_cd_entry_count: u16,
    pub size_of_cd: u32,
    pub cd_offset: u32,
    pub file_comment_length: u16,
}

impl EndOfCentralDirectory {
    pub const SIGNATURE: u32 = 0x06054b50;
}

impl PackedStructZippityExt for EndOfCentralDirectory {
    open spec fn spec_packed(&self) -> Seq<u8> {
        le_bytes(self.signature as nat, 4)
            + le_bytes(self.this_disk_number as nat, 2)
            + le_bytes(self.start_of_cd_disk_number as nat, 2)
            + le_bytes(self.this_cd_entry_count as nat, 2)
            + le_bytes(self.total_cd_entry_count as nat, 2)
            + le_bytes(self.size_of_cd as nat, 4)
            + le_bytes(self.cd_offset as nat, 4)
            + le_bytes(self.file_comment_length as nat, 2)
    }

    open spec fn spec_packed_size() -> nat {
        22
    }

    proof fn lemma_packed_len(&self) {
        broadcast use lemma_le_bytes_len;

    }

    fn packed_size_u16() -> (size: u16) {
        22
    }

    fn pack(&self) -> (bytes: Vec<u8>) {
        let mut out: Vec<u8> = Vec::new();
        push_le(&mut out, self.signature as u64, 4);
        assert(out@ =~= le_bytes(self.signature as nat, 4));
        push_le(&mut out, self.this_disk_number as u64, 2);
        push_le(&mut out, self.start_of_cd_disk_number as u64, 2);
        push_le(&mut out, self.this_cd_entry_count as u64, 2);
        push_le(&mut out, self.total_cd_entry_count as u64, 2);
        push_le(&mut out, self.size_of_cd as u64, 4);
        push_le(&mut out, self.cd_offset as u64, 4);
        push_le(&mut out, self.file_comment_length as u64, 2);
        out
    }
}

} // verus!
