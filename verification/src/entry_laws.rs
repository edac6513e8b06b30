//! What is stored of the metadata of entries.

use crate::builder::{
    external_attributes, file_type_bits, has_name, permission_bits, too_long, Builder,
    BuilderEntry, BuilderFileType, BuilderPermissions, EntryMetadata, Metadata, Permissions,
};
use crate::crc32::crc32_of;
use crate::entry_data::EntryData;
use crate::structs::DosDatetime;
use crate::time::{NaiveDateTime, SystemTime};
use vstd::prelude::*;

verus! {

/// The unix mode that external attributes hold.
pub open spec fn stored_mode(file_type: BuilderFileType, permissions: BuilderPermissions) -> u32 {
    external_attributes(file_type, permissions) >> 16
}

/// External attributes are type and permissions, put together.
proof fn lemma_attributes(file_type: BuilderFileType, permissions: BuilderPermissions)
    ensures
        ({
            let attributes = external_attributes(file_type, permissions);
            let type_bits = file_type_bits(file_type) as u32;
            let bits = permission_bits(file_type, permissions) as u32;
            &&& attributes & 0xffff == 0
            &&& (attributes >> 16) & 0o170_000 == type_bits
            &&& (attributes >> 16) & 0o007_777 == bits
            &&& (attributes >> 16) == type_bits | bits
        }),
{
    let attributes = external_attributes(file_type, permissions);
    let type_bits = file_type_bits(file_type) as u32;
    let bits = permission_bits(file_type, permissions) as u32;
    assert(attributes & 0xffff == 0 && (attributes >> 16) & 0o170_000 == type_bits && (attributes
        >> 16) & 0o007_777 == bits && (attributes >> 16) == type_bits | bits) by (bit_vector)
        requires
            type_bits == 0o100_000 || type_bits == 0o040_000 || type_bits == 0o120_000,
            bits <= 0o777,
            attributes == (type_bits + bits) * 0x10000,
    ;
}

/// The upper half of the external attributes is a unix mode, which tells the type of the entry. The
/// lower half, and the bits that are neither type nor permissions, are zero.
pub proof fn law_attributes_tell_the_type(
    file_type: BuilderFileType,
    permissions: BuilderPermissions,
)
    ensures
        external_attributes(file_type, permissions) & 0xffff == 0,
        stored_mode(file_type, permissions) & 0o170_000 == (match file_type {
            BuilderFileType::File => 0o100_000u32,
            BuilderFileType::Directory => 0o040_000,
            BuilderFileType::Symlink => 0o120_000,
        }),
        stored_mode(file_type, permissions) & 0o007_000 == 0,
{
    lemma_attributes(file_type, permissions);
    let mode = stored_mode(file_type, permissions);
    let bits = permission_bits(file_type, permissions) as u32;
    assert(mode & 0o007_000 == 0) by (bit_vector)
        requires
            mode & 0o007_777 == bits,
            bits <= 0o777,
    ;
}

/// Permissions that are given are stored: the low 9 bits, for files and for directories.
pub proof fn law_given_permissions_are_stored(file_type: BuilderFileType, permissions: u32)
    requires
        file_type != BuilderFileType::Symlink,
    ensures
        stored_mode(file_type, BuilderPermissions::UnixPermissions(permissions)) & 0o777
            == permissions & 0o777,
{
    let given = BuilderPermissions::UnixPermissions(permissions);
    lemma_attributes(file_type, given);
    let mode = stored_mode(file_type, given);
    let bits = permission_bits(file_type, given) as u32;
    assert(mode & 0o777 == permissions & 0o777) by (bit_vector)
        requires
            mode & 0o007_777 == bits,
            bits == permissions % 0o1000,
    ;
}

/// Everybody may do everything with a symlink, whatever permissions are given.
pub proof fn law_symlinks_permit_everything(permissions: BuilderPermissions)
    ensures
        stored_mode(BuilderFileType::Symlink, permissions) == 0o120_777,
{
    lemma_attributes(BuilderFileType::Symlink, permissions);
    assert(0o120_000u32 | 0o777 == 0o120_777) by (bit_vector);
}

/// Where no permissions are given, everybody may read, and only the owner may write, unless nobody
/// may. Directories, and only those, may be searched by everybody.
pub proof fn law_default_permissions(file_type: BuilderFileType)
    requires
        file_type != BuilderFileType::Symlink,
    ensures
        ({
            let rw = stored_mode(file_type, BuilderPermissions::Rw);
            let ro = stored_mode(file_type, BuilderPermissions::Ro);
            &&& rw & 0o444 == 0o444
            &&& ro & 0o444 == 0o444
            &&& rw & 0o222 == 0o200
            &&& ro & 0o222 == 0
            &&& rw & 0o111 == (if file_type == BuilderFileType::Directory {
                0o111u32
            } else {
                0
            })
            &&& ro & 0o111 == rw & 0o111
        }),
{
    lemma_attributes(file_type, BuilderPermissions::Rw);
    lemma_attributes(file_type, BuilderPermissions::Ro);
    let rw = stored_mode(file_type, BuilderPermissions::Rw);
    let ro = stored_mode(file_type, BuilderPermissions::Ro);
    let type_bits = file_type_bits(file_type) as u32;
    if file_type == BuilderFileType::Directory {
        assert(rw & 0o444 == 0o444 && ro & 0o444 == 0o444 && rw & 0o222 == 0o200 && ro & 0o222 == 0
            && rw & 0o111 == 0o111 && ro & 0o111 == 0o111) by (bit_vector)
            requires
                rw == type_bits | 0o755,
                ro == type_bits | 0o555,
                type_bits == 0o040_000,
        ;
    } else {
        assert(rw & 0o444 == 0o444 && ro & 0o444 == 0o444 && rw & 0o222 == 0o200 && ro & 0o222 == 0
            && rw & 0o111 == 0 && ro & 0o111 == 0) by (bit_vector)
            requires
                rw == type_bits | 0o644,
                ro == type_bits | 0o444,
                type_bits == 0o100_000,
        ;
    }
}

/// Whether the numbers that are stored stand for a date and time: five bits for the day, four for
/// the month and seven for the years since 1980, and five bits for half of the seconds, six for the
/// minutes and five for the hours.
pub open spec fn stored_as(
    datetime: DosDatetime,
    year: i32,
    month: u32,
    day: u32,
    hour: u32,
    minute: u32,
    second: u32,
) -> bool {
    &&& datetime.date & 0x1f == day
    &&& (datetime.date >> 5) & 0xf == month
    &&& datetime.date >> 9 == year - 1980
    &&& datetime.time & 0x1f == second as int / 2
    &&& (datetime.time >> 5) & 0x3f == minute
    &&& datetime.time >> 11 == hour
}

/// Dates from 1980-01-01 to 2107-12-31 can be stored, with any time of a day, and no others. What is
/// stored is the date and time, but for odd seconds.
pub proof fn law_dates_are_stored(
    year: i32,
    month: u32,
    day: u32,
    hour: u32,
    minute: u32,
    second: u32,
)
    ensures
        DosDatetime::spec_new(year, month, day, hour, minute, second) is Some <==> {
            &&& 1980 <= year <= 2107
            &&& 1 <= month <= 12
            &&& 1 <= day <= 31
            &&& hour < 24
            &&& minute < 60
            &&& second < 60
        },
        DosDatetime::spec_new(year, month, day, hour, minute, second) matches Some(datetime)
            ==> stored_as(datetime, year, month, day, hour, minute, second),
{
    if let Some(datetime) = DosDatetime::spec_new(year, month, day, hour, minute, second) {
        let (date, time) = (datetime.date, datetime.time);
        let years = (year - 1980) as u16;
        let months = month as u16;
        let days = day as u16;
        let hours = hour as u16;
        let minutes = minute as u16;
        let halves = (second / 2) as u16;
        assert(date & 0x1f == days && (date >> 5) & 0xf == months && date >> 9 == years)
            by (bit_vector)
            requires
                date == days + months * 32 + years * 512,
                days < 32,
                months < 16,
                years < 128,
        ;
        assert(time & 0x1f == halves && (time >> 5) & 0x3f == minutes && time >> 11 == hours)
            by (bit_vector)
            requires
                time == halves + minutes * 32 + hours * 2048,
                halves < 32,
                minutes < 64,
                hours < 32,
        ;
    }
}

/// A date and time is read back from what is stored, but for odd seconds.
pub proof fn law_dates_are_read_back(
    datetime: DosDatetime,
    year: i32,
    month: u32,
    day: u32,
    hour: u32,
    minute: u32,
    second: u32,
)
    requires
        stored_as(datetime, year, month, day, hour, minute, second),
    ensures
        datetime.spec_year() == year,
        datetime.spec_month() == month,
        datetime.spec_day() == day,
        datetime.spec_hour() == hour,
        datetime.spec_minute() == minute,
        datetime.spec_second() == second - second % 2,
{
    let (date, time) = (datetime.date, datetime.time);
    assert(date & 0x1f == date % 32 && (date >> 5) & 0xf == date / 32 % 16 && date >> 9 == date
        / 512) by (bit_vector);
    assert(time & 0x1f == time % 32 && (time >> 5) & 0x3f == time / 32 % 64 && time >> 11 == time
        / 2048) by (bit_vector);
}

/// Of two dates and times that can be stored, the later one is stored as the larger numbers.
pub proof fn law_later_dates_are_larger(first: NaiveDateTime, second: NaiveDateTime)
    requires
        first.spec_dos_datetime() is Some,
        second.spec_dos_datetime() is Some,
    ensures
        ({
            let (a, b) = (first.spec_dos_datetime()->0, second.spec_dos_datetime()->0);
            &&& a.date < b.date <==> {
                ||| first.year < second.year
                ||| first.year == second.year && first.month < second.month
                ||| first.year == second.year && first.month == second.month && first.day
                    < second.day
            }
            &&& a.time < b.time <==> {
                ||| first.hour < second.hour
                ||| first.hour == second.hour && first.minute < second.minute
                ||| first.hour == second.hour && first.minute == second.minute && first.second as int
                    / 2 < second.second as int / 2
            }
        }),
{
}

/// Whether what is stored is a date and time that may be converted to: the date and time itself if
/// it can be stored, and the default otherwise.
pub open spec fn stores(datetime: Option<DosDatetime>, fields: NaiveDateTime) -> bool {
    match datetime {
        Some(stored) => stored_as(
            stored,
            fields.year,
            fields.month,
            fields.day,
            fields.hour,
            fields.minute,
            fields.second,
        ),
        None => {
            ||| fields.year < 1980
            ||| fields.year > 2107
            ||| fields.month < 1
            ||| fields.month > 12
            ||| fields.day < 1
            ||| fields.day > 31
            ||| fields.hour > 23
            ||| fields.minute > 59
            ||| fields.second > 59
        },
    }
}

/// What is stored for a point in time is what the converter gives for it.
pub proof fn law_converted_times_are_stored(
    before: EntryMetadata,
    time: SystemTime,
    datetime: Option<DosDatetime>,
)
    requires
        before.dates(time, datetime),
    ensures
        before.time_converter matches Some(converter) ==> exists|fields: NaiveDateTime| #[trigger]
            converter.converts(time, fields) && stores(datetime, fields),
        before.time_converter is None ==> datetime is None,
{
    if let Some(converter) = before.time_converter {
        let fields = choose|fields: NaiveDateTime| #[trigger]
            converter.converts(time, fields) && datetime == fields.spec_dos_datetime();
        law_dates_are_stored(
            fields.year,
            fields.month,
            fields.day,
            fields.hour,
            fields.minute,
            fields.second,
        );
        assert(converter.converts(time, fields) && stores(datetime, fields));
    }
}

/// A modification time that a filesystem tells is stored as the converter gives it, whatever the
/// entry is: a file, a directory or a symlink. Where there is no converter, the default is stored.
/// Where none is told, nothing changes.
pub proof fn law_modification_times_are_stored(
    before: EntryMetadata,
    after: EntryMetadata,
    metadata: Metadata,
)
    requires
        after.described(before, metadata),
    ensures
        metadata.modified matches Some(modified) ==> {
            &&& before.time_converter matches Some(converter) ==> exists|fields: NaiveDateTime|
                #[trigger] converter.converts(modified, fields) && stores(after.datetime, fields)
            &&& before.time_converter is None ==> after.datetime is None
        },
        metadata.modified is None ==> after.datetime == before.datetime,
        after.time_converter == before.time_converter,
        after.crc32 == before.crc32,
{
    if let Some(modified) = metadata.modified {
        law_converted_times_are_stored(before, modified, after.datetime);
    }
}

/// What is stored for a modification time does not depend on what else a filesystem tells, if the
/// converter gives one date and time for it.
pub proof fn law_type_does_not_change_the_time(
    before: EntryMetadata,
    first: EntryMetadata,
    second: EntryMetadata,
    first_told: Metadata,
    second_told: Metadata,
    fields: NaiveDateTime,
)
    requires
        first.described(before, first_told),
        second.described(before, second_told),
        first_told.modified == second_told.modified,
        before.time_converter matches Some(converter) ==> (first_told.modified matches Some(time)
            ==> forall|other: NaiveDateTime| #[trigger]
            converter.converts(time, other) ==> other == fields),
    ensures
        first.datetime == second.datetime,
        first_told.modified matches Some(time) ==> before.dates(time, second.datetime),
{
}

/// The type of an entry is the one that a filesystem tells. A directory is a directory even if it
/// is reached through a link.
pub proof fn law_told_types_are_stored(
    before: EntryMetadata,
    after: EntryMetadata,
    metadata: Metadata,
)
    requires
        after.described(before, metadata),
    ensures
        after.file_type == BuilderFileType::Directory <==> metadata.is_dir,
        after.file_type == BuilderFileType::Symlink <==> !metadata.is_dir && metadata.is_symlink,
        after.file_type == BuilderFileType::File <==> !metadata.is_dir && !metadata.is_symlink,
{
}

/// The permissions of a file or directory are those that a filesystem tells: by the low 9 bits of
/// the unix mode, where there is one, and otherwise by whether it may be written.
pub proof fn law_told_permissions_are_stored(
    before: EntryMetadata,
    after: EntryMetadata,
    metadata: Metadata,
)
    requires
        after.described(before, metadata),
        metadata.is_dir || !metadata.is_symlink,
    ensures
        ({
            let mode = stored_mode(after.file_type, after.permissions);
            match metadata.permissions.mode {
                Some(told) => mode & 0o777 == told & 0o777,
                None => mode & 0o222 == (if metadata.permissions.readonly {
                    0u32
                } else {
                    0o200
                }),
            }
        }),
{
    match metadata.permissions.mode {
        Some(told) => {
            law_given_permissions_are_stored(after.file_type, told % 0o1000);
            assert((told % 0o1000) & 0o777 == told & 0o777) by (bit_vector);
        },
        None => {
            law_default_permissions(after.file_type);
        },
    }
}

/// Setting permissions as a filesystem tells them changes nothing else: by the low 9 bits of the
/// unix mode, where there is one, and otherwise by whether the file may be written.
pub proof fn law_permissions_alone_change(before: EntryMetadata, permissions: Permissions)
    ensures
        ({
            let after = before.with_permissions(permissions);
            &&& after.crc32 == before.crc32
            &&& after.datetime == before.datetime
            &&& after.file_type == before.file_type
            &&& after.time_converter == before.time_converter
            &&& permissions.mode matches Some(mode) ==> (before.file_type
                != BuilderFileType::Symlink ==> stored_mode(after.file_type, after.permissions)
                & 0o777 == mode & 0o777)
            &&& permissions.mode is None ==> (after.permissions == BuilderPermissions::Ro
                <==> permissions.readonly)
            &&& permissions.mode is None ==> (after.permissions == BuilderPermissions::Rw
                <==> !permissions.readonly)
        }),
{
    if let Some(mode) = permissions.mode {
        if before.file_type != BuilderFileType::Symlink {
            law_given_permissions_are_stored(before.file_type, mode % 0o1000);
            assert((mode % 0o1000) & 0o777 == mode & 0o777) by (bit_vector);
        }
    }
}

/// An entry that nothing is said of is a file that everybody may read and the owner may write, of
/// 1980-01-01T00:00:00, with the checksum of its content.
pub proof fn law_new_entries_are_plain<D: EntryData>(entry: BuilderEntry<D>, name: Seq<char>)
    requires
        entry.spec_meta() == EntryMetadata::spec_new(entry.spec_meta().time_converter),
    ensures
        ({
            let view = entry.file_view(name);
            &&& view.external_attributes >> 16 == 0o100_644
            &&& stored_as(view.datetime, 1980, 1, 1, 0, 0, 0)
            &&& view.crc32 == crc32_of(entry.spec_data().content())
            &&& view.content == entry.spec_data().content()
            &&& view.size == entry.spec_size()
            &&& view.name == vstd::utf8::encode_utf8(name)
        }),
{
    lemma_attributes(BuilderFileType::File, BuilderPermissions::Rw);
    assert(0o100_000u32 | 0o644 == 0o100_644) by (bit_vector);
    law_dates_are_stored(1980, 1, 1, 0, 0, 0);
}

/// The date and time that is stored is the one that was set, or 1980-01-01T00:00:00.
pub proof fn law_set_dates_are_stored(meta: EntryMetadata)
    ensures
        meta.datetime matches Some(datetime) ==> meta.stored_datetime() == datetime,
        meta.datetime is None ==> stored_as(meta.stored_datetime(), 1980, 1, 1, 0, 0, 0),
{
    law_dates_are_stored(1980, 1, 1, 0, 0, 0);
}

/// A name is too long exactly if its length in UTF-8 does not fit into 16 bits.
pub proof fn law_names_of_16_bit_length_fit(name: Seq<char>)
    ensures
        too_long(name) <==> vstd::utf8::encode_utf8(name).len() >= 0x1_0000,
{
}

/// An entry has its name, and adding it gives no name to others.
pub proof fn law_added_names_are_found<D: EntryData>(
    entries: Seq<(Seq<char>, BuilderEntry<D>)>,
    added: (Seq<char>, BuilderEntry<D>),
    name: Seq<char>,
)
    ensures
        !has_name(Seq::<(Seq<char>, BuilderEntry<D>)>::empty(), name),
        has_name(entries.push(added), name) <==> has_name(entries, name) || name == added.0,
{
    let more = entries.push(added);
    if has_name(entries, name) {
        let i = choose|i: int| 0 <= i < entries.len() && (#[trigger] entries[i]).0 == name;
        assert(more[i].0 == name);
    }
    if name == added.0 {
        assert(more[entries.len() as int].0 == name);
    }
    if has_name(more, name) {
        let i = choose|i: int| 0 <= i < more.len() && (#[trigger] more[i]).0 == name;
        if i < entries.len() {
            assert(entries[i].0 == name);
        }
    }
}

/// Removing an entry undoes adding it: what is removed is what was added, and entries and size are
/// as before.
pub proof fn law_removing_undoes_adding<D: EntryData>(
    first: Builder<D>,
    name: Seq<char>,
    added: BuilderEntry<D>,
    second: Builder<D>,
    removed: BuilderEntry<D>,
    third: Builder<D>,
)
    requires
        !has_name(first.spec_entries(), name),
        second.grew(first, name, added),
        third.lost(second, name, removed),
    ensures
        removed == added,
        third.spec_entries() == first.spec_entries(),
        third.spec_size() == first.spec_size(),
        third.spec_time_converter() == first.spec_time_converter(),
{
    let before = first.spec_entries();
    let with = second.spec_entries();
    let i = choose|i: int|
        {
            &&& 0 <= i < with.len()
            &&& #[trigger] with[i] == (name, removed)
            &&& third.spec_entries() == with.remove(i)
        };
    if i < before.len() {
        assert(before[i].0 == name);
    }
    assert(with.remove(i) =~= before);
}

/// An entry that is added comes last, and all others stay as they are. The size grows by the data,
/// twice the name in UTF-8, and 156 bytes.
pub proof fn law_added_entries_come_last<D: EntryData>(
    before: Builder<D>,
    name: Seq<char>,
    added: BuilderEntry<D>,
    after: Builder<D>,
    i: int,
)
    requires
        after.grew(before, name, added),
        0 <= i < after.spec_entries().len(),
    ensures
        after.spec_entries().len() == before.spec_entries().len() + 1,
        i < before.spec_entries().len() ==> after.spec_entries()[i] == before.spec_entries()[i],
        i == before.spec_entries().len() ==> after.spec_entries()[i] == (name, added),
        after.spec_size() - before.spec_size() == added.spec_size() + 2 * vstd::utf8::encode_utf8(
            name,
        ).len() + 156,
{
}

/// Removing an entry keeps the others, in their order.
pub proof fn law_removing_keeps_the_others<D: EntryData>(
    before: Builder<D>,
    name: Seq<char>,
    removed: BuilderEntry<D>,
    after: Builder<D>,
)
    requires
        before.wf(),
        after.lost(before, name, removed),
    ensures
        !has_name(after.spec_entries(), name),
        after.spec_entries().len() + 1 == before.spec_entries().len(),
        exists|i: int|
            {
                &&& 0 <= i < before.spec_entries().len()
                &&& #[trigger] before.spec_entries()[i] == (name, removed)
                &&& before.spec_entries() == after.spec_entries().insert(i, (name, removed))
            },
{
    let entries = before.spec_entries();
    let left = after.spec_entries();
    let i = choose|i: int|
        {
            &&& 0 <= i < entries.len()
            &&& #[trigger] entries[i] == (name, removed)
            &&& left == entries.remove(i)
        };
    assert(entries =~= left.insert(i, (name, removed)));
    if has_name(left, name) {
        let j = choose|j: int| 0 <= j < left.len() && (#[trigger] left[j]).0 == name;
        if j < i {
            assert(entries[j].0 != entries[i].0);
        } else {
            assert(entries[i].0 != entries[j + 1].0);
        }
    }
}

/// Exchanging two entries puts each in the place of the other and leaves all others. Doing it twice
/// changes nothing.
pub proof fn law_swapping_is_its_own_inverse<D: EntryData>(
    first: Builder<D>,
    a: int,
    b: int,
    second: Builder<D>,
    third: Builder<D>,
    i: int,
)
    requires
        0 <= a < first.spec_entries().len(),
        0 <= b < first.spec_entries().len(),
        0 <= i < first.spec_entries().len(),
        second.swapped(first, a, b),
        third.swapped(second, a, b),
    ensures
        second.spec_entries()[a] == first.spec_entries()[b],
        second.spec_entries()[b] == first.spec_entries()[a],
        i != a && i != b ==> second.spec_entries()[i] == first.spec_entries()[i],
        third.spec_entries() == first.spec_entries(),
        third.spec_size() == first.spec_size(),
{
    assert(third.spec_entries() =~= first.spec_entries());
}

} // verus!
