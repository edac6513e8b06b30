//! Archives that are being put together.

use crate::chunk::files;
use crate::crc32::crc32_of;
use crate::entry_data::EntryData;
use crate::entry_laws::{
    law_attributes_tell_the_type, law_converted_times_are_stored, law_dates_are_stored,
    law_default_permissions, law_given_permissions_are_stored, law_symlinks_permit_everything,
    law_told_permissions_are_stored, stored_mode, stores,
};
use crate::layout::{
    archive_size, cd_length, entry_offset, lemma_archive_size_push, lemma_archive_size_remove,
    lemma_archive_size_swap, lemma_parts_fit, lemma_sizes_same, FileView,
};
use crate::names::{
    map_clone, map_contains_key, map_entries, map_insert, map_into_keys, map_keys, map_new,
    map_remove, map_swap,
};
use crate::read_state::Sizes;
use crate::reader::Reader;
use crate::reader_entry::ReaderEntry;
use crate::reading::{all_exact, all_prompt, layout_matches};
use crate::structs::{
    CentralDirectoryHeader, DataDescriptor64, DosDatetime, EndOfCentralDirectory, LocalFileHeader,
    PackedStructZippityExt, Zip64EndOfCentralDirectoryLocator, Zip64EndOfCentralDirectoryRecord,
    Zip64ExtraField,
};
use crate::time::{
    new_shared, same_conversion, share, system_timezone_converter, NaiveDateTime, SharedConverter,
    SystemTime, TimeConverter, UtcOffset, ZoneConverter,
};
use indexmap::IndexMap;
use vstd::prelude::*;
use vstd::string::StringExecFns;

verus! {

/// What the permissions of an entry come from.
#[derive(Clone, Copy, Debug, PartialEq, Eq, Structural)]
pub enum BuilderPermissions {
    /// The defaults, which let the owner write.
    Rw,
    /// The defaults, without the permission to write.
    Ro,
    /// The given permissions.
    UnixPermissions(u32),
}

/// What an entry is.
#[derive(Clone, Copy, Debug, PartialEq, Eq, Structural)]
pub enum BuilderFileType {
    File,
    Directory,
    Symlink,
}

/// Permissions of a file, as a filesystem gives them.
#[derive(Clone, Copy, Debug, PartialEq, Eq, Structural)]
pub struct Permissions {
    /// Whether the file must not be written.
    pub readonly: bool,
    /// The unix mode, on systems that have one.
    pub mode: Option<u32>,
}

/// What a filesystem tells of a file.
#[derive(Clone, Copy, Debug, PartialEq, Eq, Structural)]
pub struct Metadata {
    pub is_dir: bool,
    pub is_symlink: bool,
    /// The size of the file.
    pub len: u64,
    pub permissions: Permissions,
    /// The time of the last modification, on systems that keep it.
    pub modified: Option<SystemTime>,
}

/// The type bits of the unix mode.
pub open spec fn file_type_bits(file_type: BuilderFileType) -> int {
    match file_type {
        BuilderFileType::File => 0o100_000,
        BuilderFileType::Directory => 0o040_000,
        BuilderFileType::Symlink => 0o120_000,
    }
}

/// The permission bits of the unix mode. Directories can be searched by default, and all is
/// permitted on symlinks.
pub open spec fn permission_bits(
    file_type: BuilderFileType,
    permissions: BuilderPermissions,
) -> int {
    match (file_type, permissions) {
        (BuilderFileType::Symlink, _) => 0o777,
        (_, BuilderPermissions::UnixPermissions(permissions)) => permissions as int % 0o1000,
        (BuilderFileType::File, BuilderPermissions::Rw) => 0o644,
        (BuilderFileType::File, BuilderPermissions::Ro) => 0o444,
        (BuilderFileType::Directory, BuilderPermissions::Rw) => 0o755,
        (BuilderFileType::Directory, BuilderPermissions::Ro) => 0o555,
    }
}

/// The external attributes of an entry, which hold the unix mode in the upper half.
pub open spec fn external_attributes(
    file_type: BuilderFileType,
    permissions: BuilderPermissions,
) -> u32 {
    ((file_type_bits(file_type) + permission_bits(file_type, permissions)) * 0x10000) as u32
}

/// Converts filetype and permissions to a value usable as external attributes of zip entry.
/// The file type controls both the top bits of the unix mode and the default permissions.
/// Symlinks have permissions always set to 0o777 and ignore the parameter.
pub fn get_external_attributes(
    file_type: BuilderFileType,
    permissions: BuilderPermissions,
) -> (attributes: u32)
    ensures
        attributes == external_attributes(file_type, permissions),
{
    let file_type_bits: u32 = match file_type {
        BuilderFileType::File => 0o100_000,
        BuilderFileType::Directory => 0o040_000,
        BuilderFileType::Symlink => 0o120_000,
    };
    let perm_bits: u32 = if file_type == BuilderFileType::Symlink {
        0o777
    } else {
        let executable_bits: u32 = match file_type {
            BuilderFileType::Directory => 0o111,
            _ => 0,
        };
        assert(0o644u32 | 0o111u32 == 0o755 && 0o444u32 | 0o111u32 == 0o555 && 0o644u32 | 0u32
            == 0o644 && 0o444u32 | 0u32 == 0o444) by (bit_vector);
        match permissions {
            BuilderPermissions::Rw => 0o644 | executable_bits,
            BuilderPermissions::Ro => 0o444 | executable_bits,
            BuilderPermissions::UnixPermissions(perms) => {
                assert(perms & 0o777 == perms % 0o1000) by (bit_vector);
                perms & 0o777
            },
        }
    };
    assert((file_type_bits | perm_bits) << 16 == (file_type_bits + perm_bits) * 0x10000)
        by (bit_vector)
        requires
            file_type_bits == 0o100_000 || file_type_bits == 0o040_000 || file_type_bits
                == 0o120_000,
            perm_bits <= 0o777,
    ;
    (file_type_bits | perm_bits) << 16
}

/// Metadata of an entry.
pub struct EntryMetadata {
    /// The checksum of the data, where it was given.
    pub crc32: Option<u32>,
    /// The last modification date and time, where it was set to something other than the default.
    pub datetime: Option<DosDatetime>,
    pub file_type: BuilderFileType,
    pub permissions: BuilderPermissions,
    /// What turns points in time into dates.
    pub time_converter: Option<SharedConverter>,
}

impl Clone for EntryMetadata {
    fn clone(&self) -> (copy: EntryMetadata)
        ensures
            copy == *self,
    {
        EntryMetadata {
            crc32: self.crc32,
            datetime: self.datetime,
            file_type: self.file_type,
            permissions: self.permissions,
            time_converter: share(&self.time_converter),
        }
    }
}

impl EntryMetadata {
    /// What entries begin with: a file that the owner can write.
    pub open spec fn spec_new(time_converter: Option<SharedConverter>) -> EntryMetadata {
        EntryMetadata {
            crc32: None,
            datetime: None,
            file_type: BuilderFileType::File,
            permissions: BuilderPermissions::Rw,
            time_converter,
        }
    }

    /// Whether this may be the date and time for a point in time: that of the converter, if there
    /// is one and the date can be stored.
    pub open spec fn dates(&self, time: SystemTime, datetime: Option<DosDatetime>) -> bool {
        match self.time_converter {
            Some(converter) => exists|fields: NaiveDateTime| #[trigger]
                converter.converts(time, fields) && datetime == fields.spec_dos_datetime(),
            None => datetime is None,
        }
    }

    /// Whether the converter, if there is one, can convert a point in time.
    pub open spec fn handles(&self, time: SystemTime) -> bool {
        self.time_converter matches Some(converter) ==> converter.handles(time)
    }

    /// The date and time that is stored.
    pub open spec fn stored_datetime(&self) -> DosDatetime {
        match self.datetime {
            Some(datetime) => datetime,
            None => DosDatetime::spec_new(1980, 1, 1, 0, 0, 0)->0,
        }
    }

    /// The unix mode that is stored.
    pub open spec fn mode(&self) -> u32 {
        stored_mode(self.file_type, self.permissions)
    }

    /// With other permissions, as a filesystem gives them: by the unix mode, where there is one.
    pub open spec fn with_permissions(self, permissions: Permissions) -> EntryMetadata {
        let permissions = match permissions.mode {
            Some(mode) => BuilderPermissions::UnixPermissions(mode % 0o1000),
            None => if permissions.readonly {
                BuilderPermissions::Ro
            } else {
                BuilderPermissions::Rw
            },
        };
        EntryMetadata { permissions, ..self }
    }

    /// With another type and other permissions, as a filesystem tells.
    pub open spec fn with_type_of(self, metadata: Metadata) -> EntryMetadata {
        EntryMetadata {
            file_type: if metadata.is_dir {
                BuilderFileType::Directory
            } else if metadata.is_symlink {
                BuilderFileType::Symlink
            } else {
                BuilderFileType::File
            },
            ..self.with_permissions(metadata.permissions)
        }
    }

    /// This is `before` with what a filesystem tells of a file.
    pub open spec fn described(&self, before: EntryMetadata, metadata: Metadata) -> bool {
        &&& *self == (EntryMetadata {
            datetime: self.datetime,
            ..before.with_type_of(metadata)
        })
        &&& match metadata.modified {
            Some(modified) => before.dates(modified, self.datetime),
            None => self.datetime == before.datetime,
        }
    }
}

/// Represents a ZIP file entry in the metadata building phase.
/// Reference to this struct is returned when adding a new entry and allows modifying its metadata.
pub struct BuilderEntry<D> {
    data: D,
    /// The size that the data reported.
    size: u64,
    meta: EntryMetadata,
}

impl<D: EntryData + Clone> Clone for BuilderEntry<D> {
    fn clone(&self) -> (copy: BuilderEntry<D>)
        ensures
            cloned(self.spec_data(), copy.spec_data()),
            copy.spec_size() == self.spec_size(),
            copy.spec_meta() == self.spec_meta(),
    {
        BuilderEntry { data: self.data.clone(), size: self.size, meta: self.meta.clone() }
    }
}

impl<D: EntryData> BuilderEntry<D> {
    /// The data of the entry.
    pub closed spec fn spec_data(&self) -> D {
        self.data
    }

    /// The size that the data reported.
    pub closed spec fn spec_size(&self) -> u64 {
        self.size
    }

    /// The data is what it will be read as, and of the size that it reported.
    pub open spec fn exact(&self) -> bool {
        &&& self.spec_data().exact()
        &&& self.spec_data().content().len() == self.spec_size()
    }

    /// There are readers unless the data is empty.
    pub open spec fn readable(&self) -> bool {
        self.spec_size() > 0 ==> self.spec_data().openable()
    }

    /// The metadata of the entry.
    pub closed spec fn spec_meta(&self) -> EntryMetadata {
        self.meta
    }

    /// This is `before` with other metadata.
    pub open spec fn changed(&self, before: BuilderEntry<D>, meta: EntryMetadata) -> bool {
        &&& self.spec_data() == before.spec_data()
        &&& self.spec_size() == before.spec_size()
        &&& self.spec_meta() == meta
    }

    /// What the archive will say of this entry, and hold for it.
    pub open spec fn file_view(&self, name: Seq<char>) -> FileView {
        let meta = self.spec_meta();
        FileView {
            name: vstd::utf8::encode_utf8(name),
            size: self.spec_size(),
            content: self.spec_data().content(),
            crc32: match meta.crc32 {
                Some(crc32) => crc32,
                None => crc32_of(self.spec_data().content()),
            },
            datetime: meta.stored_datetime(),
            external_attributes: external_attributes(meta.file_type, meta.permissions),
        }
    }

    /// Creates an entry with default metadata.
    pub fn new(data: D, time_converter: Option<SharedConverter>) -> (entry: BuilderEntry<D>)
        ensures
            entry.spec_data() == data,
            call_ensures(D::size, (&data,), entry.spec_size()),
            data.exact() && data.measured() ==> entry.exact(),
            entry.readable(),
            entry.spec_meta() == EntryMetadata::spec_new(time_converter),
    {
        let size: u64 = data.size();
        BuilderEntry {
            data,
            size,
            meta: EntryMetadata {
                crc32: None,
                datetime: None,
                file_type: BuilderFileType::File,
                permissions: BuilderPermissions::Rw,
                time_converter,
            },
        }
    }

    /// Finishes the entry, which begins at `offset`.
    fn into_reader_entry(self, name: String, offset: u64) -> (entry: ReaderEntry<D>)
        ensures
            entry.file() == self.file_view(name@),
            entry.offset == offset,
            entry.name == name,
            entry.data == self.spec_data(),
            entry.crc32 == self.spec_meta().crc32,
            entry.size == self.spec_size(),
    {
        let datetime: DosDatetime = match self.meta.datetime {
            Some(datetime) => datetime,
            None => DosDatetime::default(),
        };
        let attributes: u32 = get_external_attributes(self.meta.file_type, self.meta.permissions);
        ReaderEntry::new(name, self.data, offset, self.meta.crc32, datetime, attributes, self.size)
    }

    /// The data of the entry.
    pub fn get_data(&self) -> (data: &D)
        ensures
            *data == self.spec_data(),
    {
        &self.data
    }

    /// The metadata of the entry.
    pub fn get_metadata(&self) -> (meta: &EntryMetadata)
        ensures
            *meta == self.spec_meta(),
    {
        &self.meta
    }

    /// Sets the CRC32 of this entry.
    ///
    /// This is helpful, because if the reader seeks over the file content, but still needs
    /// to output the CRC, we can just output this value instead of opening the entry and
    /// calculating it.
    /// Providing a wrong value will in some cases be detected during reading
    /// (as [`crate::error::ZippityError::Crc32Mismatch`]), but generally it will lead to a damaged
    /// zip file.
    pub fn crc32(&mut self, crc32: u32) -> (entry: &mut Self)
        ensures
            entry.changed(
                *old(self),
                (EntryMetadata { crc32: Some(crc32), ..old(self).spec_meta() }),
            ),
            forall|name: Seq<char>| (#[trigger] entry.file_view(name)).crc32 == crc32,
            *final(self) == *final(entry),
    {
        self.meta.crc32 = Some(crc32);
        self
    }

    /// Sets the last modification date and time of the entry using date and time fields.
    ///
    /// Returns `None` if the date is out of the representable range (1980-01-01 to 2107-12-31).
    ///
    /// Note that only even seconds can be stored; the value will be rounded down to the nearest even second.
    pub fn datetime_fields(
        &mut self,
        year: i32,
        month: u32,
        day: u32,
        hour: u32,
        minute: u32,
        second: u32,
    ) -> (result: Option<&mut Self>)
        ensures
            match result {
                Some(entry) => {
                    &&& DosDatetime::spec_new(year, month, day, hour, minute, second) is Some
                    &&& entry.changed(
                        *old(self),
                        EntryMetadata {
                            datetime: DosDatetime::spec_new(
                                year,
                                month,
                                day,
                                hour,
                                minute,
                                second,
                            ),
                            ..old(self).spec_meta()
                        },
                    )
                    &&& entry.spec_meta().datetime is Some
                    &&& stores(
                        entry.spec_meta().datetime,
                        NaiveDateTime { year, month, day, hour, minute, second },
                    )
                    &&& *final(self) == *final(entry)
                },
                None => {
                    &&& DosDatetime::spec_new(year, month, day, hour, minute, second) is None
                    &&& stores(None, NaiveDateTime { year, month, day, hour, minute, second })
                    &&& *final(self) == *old(self)
                },
            },
    {
        proof {
            law_dates_are_stored(year, month, day, hour, minute, second);
        }
        match DosDatetime::new(year, month, day, hour, minute, second) {
            Some(datetime) => {
                self.meta.datetime = Some(datetime);
                Some(self)
            },
            None => None,
        }
    }

    /// Sets the last modification date and time of the entry using date and time fields.
    ///
    /// If the date is out of the representable range (1980-01-01 to 2107-12-31), the datetime
    /// is set to the default value (1980-01-01T00:00:00).
    ///
    /// Note that only even seconds can be stored; the value will be rounded down to the nearest even second.
    ///
    /// This is equivalent to calling [`BuilderEntry::datetime_fields()`], but with a default fallback.
    pub fn datetime_fields_or_default(
        &mut self,
        year: i32,
        month: u32,
        day: u32,
        hour: u32,
        minute: u32,
        second: u32,
    ) -> (entry: &mut Self)
        ensures
            entry.changed(
                *old(self),
                (EntryMetadata {
                    datetime: DosDatetime::spec_new(year, month, day, hour, minute, second),
                    ..old(self).spec_meta()
                }),
            ),
            stores(
                entry.spec_meta().datetime,
                (NaiveDateTime { year, month, day, hour, minute, second }),
            ),
            *final(self) == *final(entry),
    {
        proof {
            law_dates_are_stored(year, month, day, hour, minute, second);
        }
        self.meta.datetime = DosDatetime::new(year, month, day, hour, minute, second);
        self
    }

    /// Sets the last modification date and time of the entry using [`SystemTime`].
    ///
    /// Uses the time converter set by the last call to `Builder::system_time_converter()` or `Builder::system_time_timezone()`.
    ///
    /// Returns `None` if the converter is not set, or the date is out of the representable range (1980-01-01 to 2107-12-31).
    ///
    /// Note that only even seconds can be stored; the value will be rounded down to the nearest even second.
    ///
    /// This is equivalent to calling [`BuilderEntry::datetime_fields()`] with converted [`SystemTime`].
    pub fn datetime_system(&mut self, datetime: SystemTime) -> (result: Option<&mut Self>)
        requires
            old(self).spec_meta().handles(datetime),
        ensures
            match result {
                Some(entry) => {
                    let stored = entry.spec_meta().datetime;
                    &&& stored is Some
                    &&& old(self).spec_meta().dates(datetime, stored)
                    &&& entry.changed(
                        *old(self),
                        EntryMetadata { datetime: stored, ..old(self).spec_meta() },
                    )
                    &&& *final(self) == *final(entry)
                },
                None => {
                    &&& old(self).spec_meta().dates(datetime, None)
                    &&& *final(self) == *old(self)
                },
            },
    {
        let converted = match &self.meta.time_converter {
            Some(converter) => converter.convert(datetime),
            None => {
                return None;
            },
        };
        self.datetime_fields(
            converted.year,
            converted.month,
            converted.day,
            converted.hour,
            converted.minute,
            converted.second,
        )
    }

    /// Sets the last modification date and time of the entry using [`SystemTime`].
    ///
    /// Uses the time converter set by the last call to `Builder::system_time_converter()` or `Builder::system_time_timezone()`.
    ///
    /// If the converter is not set, or the date is out of the representable range (1980-01-01 to 2107-12-31),
    /// the datetime is set to the default value (1980-01-01T00:00:00).
    ///
    /// Note that only even seconds can be stored; the value will be rounded down to the nearest even second.
    ///
    /// This is equivalent to calling [`BuilderEntry::datetime_fields_or_default()`] with converted [`SystemTime`].
    pub fn datetime_system_or_default(&mut self, datetime: SystemTime) -> (entry: &mut Self)
        requires
            old(self).spec_meta().handles(datetime),
        ensures
            old(self).spec_meta().dates(datetime, entry.spec_meta().datetime),
            entry.changed(
                *old(self),
                (EntryMetadata {
                    datetime: entry.spec_meta().datetime,
                    ..old(self).spec_meta()
                }),
            ),
            old(self).spec_meta().time_converter matches Some(converter) ==> exists|
                fields: NaiveDateTime,
            | #[trigger] converter.converts(datetime, fields) && stores(
                entry.spec_meta().datetime,
                fields,
            ),
            old(self).spec_meta().time_converter is None ==> entry.spec_meta().datetime is None,
            *final(self) == *final(entry),
    {
        if self.datetime_system(datetime).is_none() {
            self.meta.datetime = None;
        }
        proof {
            law_converted_times_are_stored(old(self).meta, datetime, self.meta.datetime);
        }
        self
    }

    /// Sets the last modification date and time of the entry using [`NaiveDateTime`].
    ///
    /// Returns `None` if the date is out of the representable range (1980-01-01 to 2107-12-31).
    ///
    /// Note that only even seconds can be stored; the value will be rounded down to the nearest even second.
    ///
    /// This is equivalent to calling [`BuilderEntry::datetime_fields()`] with converted [`NaiveDateTime`].
    pub fn datetime(&mut self, datetime: NaiveDateTime) -> (result: Option<&mut Self>)
        ensures
            match result {
                Some(entry) => {
                    &&& datetime.spec_dos_datetime() is Some
                    &&& entry.changed(
                        *old(self),
                        EntryMetadata {
                            datetime: datetime.spec_dos_datetime(),
                            ..old(self).spec_meta()
                        },
                    )
                    &&& entry.spec_meta().datetime is Some
                    &&& stores(entry.spec_meta().datetime, datetime)
                    &&& *final(self) == *final(entry)
                },
                None => {
                    &&& datetime.spec_dos_datetime() is None
                    &&& stores(None, datetime)
                    &&& *final(self) == *old(self)
                },
            },
    {
        self.datetime_fields(
            datetime.year,
            datetime.month,
            datetime.day,
            datetime.hour,
            datetime.minute,
            datetime.second,
        )
    }

    /// Sets the last modification date and time of the entry using [`NaiveDateTime`].
    ///
    /// If the date is out of the representable range (1980-01-01 to 2107-12-31), the datetime
    /// is set to the default value (1980-01-01T00:00:00).
    ///
    /// Note that only even seconds can be stored; the value will be rounded down to the nearest even second.
    ///
    /// This is equivalent to calling [`BuilderEntry::datetime_fields_or_default()`] with converted [`NaiveDateTime`].
    pub fn datetime_or_default(&mut self, datetime: NaiveDateTime) -> (entry: &mut Self)
        ensures
            entry.changed(
                *old(self),
                (EntryMetadata {
                    datetime: datetime.spec_dos_datetime(),
                    ..old(self).spec_meta()
                }),
            ),
            stores(entry.spec_meta().datetime, datetime),
            *final(self) == *final(entry),
    {
        self.datetime_fields_or_default(
            datetime.year,
            datetime.month,
            datetime.day,
            datetime.hour,
            datetime.minute,
            datetime.second,
        )
    }

    /// Sets the entry to be a file.
    ///
    /// This is the default.
    pub fn file(&mut self) -> (entry: &mut Self)
        ensures
            entry.changed(
                *old(self),
                (EntryMetadata { file_type: BuilderFileType::File, ..old(self).spec_meta() }),
            ),
            entry.spec_meta().mode() & 0o170_000 == 0o100_000,
            *final(self) == *final(entry),
    {
        self.meta.file_type = BuilderFileType::File;
        proof {
            law_attributes_tell_the_type(BuilderFileType::File, self.meta.permissions);
        }
        self
    }

    /// Sets the entry to be a directory.
    ///
    /// This method only modifies the unix permissions, directory entries should contain no data
    /// and the entry names should end with slash, neither of which is enforced or verified.
    pub fn directory(&mut self) -> (entry: &mut Self)
        ensures
            entry.changed(
                *old(self),
                (EntryMetadata { file_type: BuilderFileType::Directory, ..old(self).spec_meta() }),
            ),
            entry.spec_meta().mode() & 0o170_000 == 0o040_000,
            *final(self) == *final(entry),
    {
        self.meta.file_type = BuilderFileType::Directory;
        proof {
            law_attributes_tell_the_type(BuilderFileType::Directory, self.meta.permissions);
        }
        self
    }

    /// Sets the entry to be a symlink.
    ///
    /// Symlinks don't support setting permissions and will ignore any value set.
    pub fn symlink(&mut self) -> (entry: &mut Self)
        ensures
            entry.changed(
                *old(self),
                (EntryMetadata { file_type: BuilderFileType::Symlink, ..old(self).spec_meta() }),
            ),
            entry.spec_meta().mode() == 0o120_777,
            *final(self) == *final(entry),
    {
        self.meta.file_type = BuilderFileType::Symlink;
        proof {
            law_symlinks_permit_everything(self.meta.permissions);
        }
        self
    }

    /// Sets the low 9 bits of unix permissions (with mask `0o777`) of the entry.
    ///
    /// If permissions are not set, default is `0o755` for directories and `0o644` for files.
    ///
    /// Symlinks don't support setting permissions and will ignore any value set.
    pub fn unix_permissions(&mut self, permissions: u32) -> (entry: &mut Self)
        ensures
            entry.changed(
                *old(self),
                (EntryMetadata {
                    permissions: BuilderPermissions::UnixPermissions(permissions % 0o1000),
                    ..old(self).spec_meta()
                }),
            ),
            old(self).spec_meta().file_type != BuilderFileType::Symlink ==> entry.spec_meta().mode()
                & 0o777 == permissions & 0o777,
            *final(self) == *final(entry),
    {
        assert(permissions & 0o777 == permissions % 0o1000) by (bit_vector);
        proof {
            if self.meta.file_type != BuilderFileType::Symlink {
                law_given_permissions_are_stored(self.meta.file_type, permissions & 0o777);
                assert((permissions & 0o777) & 0o777 == permissions & 0o777) by (bit_vector);
            }
        }
        self.meta.permissions = BuilderPermissions::UnixPermissions(permissions & 0o777);
        self
    }

    /// Sets the entry permissions based on those of a file.
    /// On unix this is equivalent to calling [`BuilderEntry::unix_permissions()`],
    /// on non-unix systems this sets the file as RO or RW.
    pub fn permissions(&mut self, permissions: &Permissions) -> (entry: &mut Self)
        ensures
            entry.changed(*old(self), old(self).spec_meta().with_permissions(*permissions)),
            *final(self) == *final(entry),
    {
        match permissions.mode {
            Some(mode) => self.unix_permissions(mode),
            None => self.readonly(permissions.readonly),
        }
    }

    /// Sets the entry permissions to be read only or read-write.
    /// This overrides anything set using [`BuilderEntry::permissions()`] or [`BuilderEntry::unix_permissions()`].
    pub fn readonly(&mut self, ro: bool) -> (entry: &mut Self)
        ensures
            entry.changed(
                *old(self),
                (EntryMetadata {
                    permissions: if ro {
                        BuilderPermissions::Ro
                    } else {
                        BuilderPermissions::Rw
                    },
                    ..old(self).spec_meta()
                }),
            ),
            old(self).spec_meta().file_type != BuilderFileType::Symlink ==> entry.spec_meta().mode()
                & 0o222 == (if ro {
                0u32
            } else {
                0o200
            }),
            *final(self) == *final(entry),
    {
        proof {
            if self.meta.file_type != BuilderFileType::Symlink {
                law_default_permissions(self.meta.file_type);
            }
        }
        self.meta.permissions = if ro {
            BuilderPermissions::Ro
        } else {
            BuilderPermissions::Rw
        };
        self
    }

    /// Sets entry type (directory / symlink / file), unix permissions and modification time from
    /// what a filesystem tells.
    ///
    /// Uses the time converter set by the last call to `Builder::system_time_converter()`
    /// or `Builder::system_time_timezone()`. If the converter is not set, or the date is
    /// out of the representable range (1980-01-01 to 2107-12-31), the modification time
    /// is set to the default value (1980-01-01T00:00:00).
    ///
    /// Note that only even seconds can be stored; the value will be rounded down to the nearest even second.
    pub fn metadata(&mut self, metadata: &Metadata) -> (entry: &mut Self)
        requires
            metadata.modified matches Some(modified) ==> old(self).spec_meta().handles(modified),
        ensures
            entry.changed(*old(self), entry.spec_meta()),
            entry.spec_meta().described(old(self).spec_meta(), *metadata),
            metadata.modified matches Some(modified) ==> (
            old(self).spec_meta().time_converter matches Some(converter) ==> exists|
                fields: NaiveDateTime,
            | #[trigger] converter.converts(modified, fields) && stores(
                entry.spec_meta().datetime,
                fields,
            )),
            entry.spec_meta().mode() & 0o170_000 == (if metadata.is_dir {
                0o040_000u32
            } else if metadata.is_symlink {
                0o120_000
            } else {
                0o100_000
            }),
            metadata.permissions.mode matches Some(mode) ==> (metadata.is_dir
                || !metadata.is_symlink ==> entry.spec_meta().mode() & 0o777 == mode & 0o777),
            *final(self) == *final(entry),
    {
        if metadata.is_dir {
            self.directory();
        } else if metadata.is_symlink {
            self.symlink();
        } else {
            self.file();
        }
        self.permissions(&metadata.permissions);
        if let Some(modified) = metadata.modified {
            self.datetime_system_or_default(modified);
        }
        proof {
            law_attributes_tell_the_type(self.meta.file_type, self.meta.permissions);
            if metadata.is_dir || !metadata.is_symlink {
                law_told_permissions_are_stored(old(self).meta, self.meta, *metadata);
            }
        }
        self
    }
}

/// Size of everything that an entry adds before the central directory, its data left out.
pub fn local_header_size(name: &str) -> (size: u64)
    requires
        vstd::utf8::encode_utf8(name@).len() + 82 <= u64::MAX,
    ensures
        size == 82 + vstd::utf8::encode_utf8(name@).len(),
{
    let local_header: u64 = LocalFileHeader::packed_size();
    let zip64_extra_data: u64 = Zip64ExtraField::packed_size();
    let filename: u64 = name.as_bytes().len() as u64;
    let data_descriptor: u64 = DataDescriptor64::packed_size();
    local_header + zip64_extra_data + filename + data_descriptor
}

/// Size of the header of an entry in the central directory.
pub fn cd_header_size(name: &str) -> (size: u64)
    requires
        vstd::utf8::encode_utf8(name@).len() + 74 <= u64::MAX,
    ensures
        size == 74 + vstd::utf8::encode_utf8(name@).len(),
{
    let filename: u64 = name.as_bytes().len() as u64;
    let cd_entry: u64 = CentralDirectoryHeader::packed_size();
    let zip64_extra_data: u64 = Zip64ExtraField::packed_size();
    cd_entry + zip64_extra_data + filename
}

/// Size of the records that close an archive.
pub fn eocd_size() -> (size: u64)
    ensures
        size == 98,
{
    Zip64EndOfCentralDirectoryRecord::packed_size()
        + Zip64EndOfCentralDirectoryLocator::packed_size() + EndOfCentralDirectory::packed_size()
}

/// An error that can be encountered while adding entries to a [`Builder`].
#[derive(Debug)]
#[non_exhaustive]
pub enum AddEntryError {
    /// Entry name is longer than `u16::MAX`
    TooLongEntryName {
        /// The name of the entry that was too long.
        entry_name: String,
    },
    /// Adding entry would cause the ZIP file to be longer than `u64::MAX`
    TooLongZipFile {
        /// The name of the entry that would make the zip file too long.
        entry_name: String,
    },
    /// Duplicate entry name
    DuplicateEntryName {
        /// The name of the entry that was duplicated.
        entry_name: String,
    },
}

/// Whether an entry can have a name.
#[derive(Clone, Copy, Debug, PartialEq, Eq, Structural)]
enum NameCheck {
    Fine,
    TooLong,
    Duplicate,
}

impl AddEntryError {
    /// What the error says.
    pub open spec fn spec_message(self) -> Seq<char> {
        match self {
            // Not mentioning the name here, because it's too long.
            AddEntryError::TooLongEntryName { .. } => "Entry name too long"@,
            AddEntryError::TooLongZipFile { entry_name } => "Adding entry "@ + entry_name@
                + " would cause the ZIP file to be longer than u64::MAX"@,
            AddEntryError::DuplicateEntryName { entry_name } => "Duplicate entry name "@
                + entry_name@,
        }
    }

    /// What the error says.
    pub fn message(&self) -> (text: String)
        ensures
            text@ == self.spec_message(),
    {
        match self {
            AddEntryError::TooLongEntryName { .. } => String::from_str("Entry name too long"),
            AddEntryError::TooLongZipFile { entry_name } => {
                let mut text = String::from_str("Adding entry ");
                text.append(entry_name.as_str());
                text.append(" would cause the ZIP file to be longer than u64::MAX");
                text
            },
            AddEntryError::DuplicateEntryName { entry_name } => {
                let mut text = String::from_str("Duplicate entry name ");
                text.append(entry_name.as_str());
                text
            },
        }
    }
}

/// Represents entries of the zip file, which can be converted to a [`Reader`].
pub struct Builder<D: EntryData> {
    /// The names of the entries, in the order in which they were added.
    names: IndexMap<String, ()>,
    /// The entries, in the order in which they were added.
    slots: Vec<BuilderEntry<D>>,
    time_converter: Option<SharedConverter>,
    /// Total size of the zip.
    total_size: u64,
}

impl<D: EntryData + Clone> Clone for Builder<D> {
    fn clone(&self) -> (copy: Builder<D>)
        ensures
            copy.indexed() == self.indexed(),
            copy.spec_size() == self.spec_size(),
            copy.spec_time_converter() == self.spec_time_converter(),
            copy.spec_entries().len() == self.spec_entries().len(),
            forall|i: int|
                0 <= i < copy.spec_entries().len() ==> {
                    let (name, entry) = #[trigger] copy.spec_entries()[i];
                    &&& name == self.spec_entries()[i].0
                    &&& entry.spec_size() == self.spec_entries()[i].1.spec_size()
                    &&& entry.spec_meta() == self.spec_entries()[i].1.spec_meta()
                    &&& cloned(self.spec_entries()[i].1.spec_data(), entry.spec_data())
                },
            self.wf() && all_readable(copy.spec_entries()) ==> copy.wf(),
    {
        let copy = Builder {
            names: map_clone(&self.names),
            slots: self.slots.clone(),
            time_converter: share(&self.time_converter),
            total_size: self.total_size,
        };
        proof {
            if self.wf() && all_readable(copy.spec_entries()) {
                lemma_still_fit(self.spec_entries(), copy.spec_entries());
            }
        }
        copy
    }
}

/// What the archive says of each entry, and holds for it.
pub open spec fn builder_files<D: EntryData>(
    entries: Seq<(Seq<char>, BuilderEntry<D>)>,
) -> Seq<FileView> {
    Seq::new(entries.len(), |i: int| entries[i].1.file_view(entries[i].0))
}

/// No two entries have the same name, no name is too long, and all data that is not empty can be
/// read.
pub open spec fn entries_fit<D: EntryData>(entries: Seq<(Seq<char>, BuilderEntry<D>)>) -> bool {
    &&& forall|i: int, j: int|
        0 <= i < j < entries.len() ==> (#[trigger] entries[i]).0 != (#[trigger] entries[j]).0
    &&& forall|i: int|
        0 <= i < entries.len() ==> !too_long((#[trigger] entries[i]).0)
            && entries[i].1.readable()
}

/// Names with their entries.
pub open spec fn named_entries<D: EntryData>(
    names: Seq<Seq<char>>,
    slots: Seq<BuilderEntry<D>>,
) -> Seq<(Seq<char>, BuilderEntry<D>)> {
    Seq::new(slots.len(), |i: int| (names[i], slots[i]))
}

/// The data of all entries is what it will be read as, and of the size that it reports.
pub open spec fn all_data_exact<D: EntryData>(
    entries: Seq<(Seq<char>, BuilderEntry<D>)>,
) -> bool {
    forall|i: int|
        0 <= i < entries.len() ==> {
            (#[trigger] entries[i]).1.exact()
        }
}

/// The data of all entries is at hand.
pub open spec fn all_data_prompt<D: EntryData>(
    entries: Seq<(Seq<char>, BuilderEntry<D>)>,
) -> bool {
    forall|i: int| 0 <= i < entries.len() ==> (#[trigger] entries[i]).1.spec_data().prompt()
}

/// All data that is not empty can be read.
pub open spec fn all_readable<D: EntryData>(
    entries: Seq<(Seq<char>, BuilderEntry<D>)>,
) -> bool {
    forall|i: int| 0 <= i < entries.len() ==> (#[trigger] entries[i]).1.readable()
}

/// Entries that have the names and sizes of others fit as those do.
proof fn lemma_still_fit<D: EntryData>(
    before: Seq<(Seq<char>, BuilderEntry<D>)>,
    after: Seq<(Seq<char>, BuilderEntry<D>)>,
)
    requires
        entries_fit(before),
        all_readable(after),
        after.len() == before.len(),
        forall|i: int|
            0 <= i < after.len() ==> {
                &&& (#[trigger] after[i]).0 == before[i].0
                &&& after[i].1.spec_size() == before[i].1.spec_size()
            },
    ensures
        entries_fit(after),
        archive_size(builder_files(after)) == archive_size(builder_files(before)),
{
    assert forall|i: int, j: int| 0 <= i < j < after.len() implies (#[trigger] after[i]).0 != (
    #[trigger] after[j]).0 by {
        assert(before[i].0 != before[j].0);
    }
    assert forall|i: int| 0 <= i < after.len() implies !too_long((#[trigger] after[i]).0)
        && after[i].1.readable() by {
        assert(!too_long(before[i].0));
    }
    lemma_sizes_same(builder_files(after), builder_files(before), after.len());
}

/// Some entry has this name.
pub open spec fn has_name<D: EntryData>(
    entries: Seq<(Seq<char>, BuilderEntry<D>)>,
    name: Seq<char>,
) -> bool {
    exists|i: int| 0 <= i < entries.len() && (#[trigger] entries[i]).0 == name
}

/// The name takes more bytes than a header can count.
pub open spec fn too_long(name: Seq<char>) -> bool {
    vstd::utf8::encode_utf8(name).len() > u16::MAX
}

/// The entry is what was built of an entry with this name.
pub open spec fn built_from<D: EntryData>(
    entry: ReaderEntry<D>,
    named: (Seq<char>, BuilderEntry<D>),
) -> bool {
    &&& entry.name@ == named.0
    &&& entry.data == named.1.spec_data()
    &&& entry.crc32 == named.1.spec_meta().crc32
    &&& entry.size == named.1.spec_size()
    &&& entry.file() == named.1.file_view(named.0)
}

/// What was built holds what was added.
proof fn lemma_built<D: EntryData>(
    named: Seq<(Seq<char>, BuilderEntry<D>)>,
    fs: Seq<FileView>,
    entries: Seq<ReaderEntry<D>>,
    sizes: Sizes,
)
    requires
        fs == builder_files(named),
        entries_fit(named),
        entries.len() <= usize::MAX,
        sizes.cd_offset == entry_offset(fs, fs.len()),
        sizes.cd_size == cd_length(fs, fs.len()),
        sizes.eocd_offset == sizes.cd_offset + sizes.cd_size,
        sizes.total_size == sizes.eocd_offset + 98,
        entries.len() == named.len(),
        forall|i: int|
            0 <= i < named.len() ==> built_from(#[trigger] entries[i], named[i])
                && entries[i].offset == entry_offset(fs, i as nat),
    ensures
        files(entries) == fs,
        layout_matches(sizes, entries),
        all_data_exact(named) ==> all_exact(entries),
        all_data_prompt(named) ==> all_prompt(entries),
{
    assert(files(entries) =~= fs);
    assert forall|i: int| 0 <= i < entries.len() implies (#[trigger] entries[i]).wf() by {
        assert(!too_long(named[i].0));
        assert(built_from(entries[i], named[i]));
    }
    if all_data_exact(named) {
        assert forall|i: int| 0 <= i < entries.len() implies (#[trigger] entries[i]).exact() by {
            assert(built_from(entries[i], named[i]));
            assert(named[i].1.exact());
        }
    }
    if all_data_prompt(named) {
        assert forall|i: int| 0 <= i < entries.len() implies (
        #[trigger] entries[i]).data.prompt() by {
            assert(built_from(entries[i], named[i]));
            assert(named[i].1.spec_data().prompt());
        }
    }
}

impl<D: EntryData> Builder<D> {
    /// Names and entries, in the order in which they were added.
    pub closed spec fn spec_entries(&self) -> Seq<(Seq<char>, BuilderEntry<D>)> {
        named_entries(map_entries(self.names), self.slots@)
    }

    /// What turns points in time into dates.
    pub closed spec fn spec_time_converter(&self) -> Option<SharedConverter> {
        self.time_converter
    }

    /// The size that is reported.
    pub closed spec fn spec_size(&self) -> u64 {
        self.total_size
    }

    /// What the archive will say of each entry, and hold for it.
    pub open spec fn files(&self) -> Seq<FileView> {
        builder_files(self.spec_entries())
    }

    /// The size of the archive with one entry more: the headers take up 156 bytes and twice the
    /// name.
    pub open spec fn size_with(&self, name: Seq<char>, size: u64) -> int {
        self.spec_size() + 156 + 2 * vstd::utf8::encode_utf8(name).len() + size
    }

    /// Whether this is `before` with one entry more, which is the last.
    pub open spec fn grew(
        &self,
        before: Builder<D>,
        name: Seq<char>,
        entry: BuilderEntry<D>,
    ) -> bool {
        &&& self.spec_entries() == before.spec_entries().push((name, entry))
        &&& self.spec_size() == before.size_with(name, entry.spec_size())
        &&& self.spec_time_converter() == before.spec_time_converter()
    }

    /// Whether this is `before` without the entry that had this name.
    pub open spec fn lost(
        &self,
        before: Builder<D>,
        name: Seq<char>,
        entry: BuilderEntry<D>,
    ) -> bool {
        &&& exists|i: int|
            {
                &&& 0 <= i < before.spec_entries().len()
                &&& #[trigger] before.spec_entries()[i] == (name, entry)
                &&& self.spec_entries() == before.spec_entries().remove(i)
            }
        &&& before.spec_size() == self.size_with(name, entry.spec_size())
        &&& self.spec_time_converter() == before.spec_time_converter()
    }

    /// Whether this is `before` with two entries in each other's place.
    pub open spec fn swapped(&self, before: Builder<D>, a: int, b: int) -> bool {
        &&& self.spec_entries() == before.spec_entries().update(
            a,
            before.spec_entries()[b],
        ).update(b, before.spec_entries()[a])
        &&& self.spec_size() == before.spec_size()
        &&& self.spec_time_converter() == before.spec_time_converter()
    }

    /// Each entry has a name.
    pub closed spec fn indexed(&self) -> bool {
        map_entries(self.names).len() == self.slots@.len()
    }

    /// No two entries have the same name, all names fit, and the size is that of the archive.
    pub open spec fn wf(&self) -> bool {
        &&& self.indexed()
        &&& entries_fit(self.spec_entries())
        &&& self.spec_size() == archive_size(self.files())
    }

    /// Creates a new empty Builder.
    pub fn new() -> (builder: Builder<D>)
        ensures
            builder.wf(),
            builder.spec_entries().len() == 0,
            builder.spec_time_converter() is None,
    {
        let builder = Builder {
            names: map_new(),
            slots: Vec::new(),
            time_converter: None,
            total_size: eocd_size(),
        };
        proof {
            assert(entry_offset(builder.files(), 0) == 0);
            assert(cd_length(builder.files(), 0) == 0);
        }
        builder
    }

    /// Whether an entry can have this name.
    fn check_name(&self, name: &str) -> (check: NameCheck)
        requires
            self.wf(),
        ensures
            check == (if too_long(name@) {
                NameCheck::TooLong
            } else if has_name(self.spec_entries(), name@) {
                NameCheck::Duplicate
            } else {
                NameCheck::Fine
            }),
    {
        if name.as_bytes().len() > u16::MAX as usize {
            return NameCheck::TooLong;
        }
        proof {
            if map_entries(self.names).contains(name@) {
                let i = map_entries(self.names).index_of(name@);
                assert(self.spec_entries()[i].0 == name@);
            }
            if has_name(self.spec_entries(), name@) {
                let i = choose|i: int|
                    0 <= i < self.spec_entries().len() && (#[trigger] self.spec_entries()[i]).0
                        == name@;
                assert(map_entries(self.names)[i] == name@);
            }
        }
        if map_contains_key(&self.names, name) {
            NameCheck::Duplicate
        } else {
            NameCheck::Fine
        }
    }

    /// Adds an entry with a name that it can have.
    fn insert_entry(&mut self, name: String, data: D) -> (result: Result<
        &mut BuilderEntry<D>,
        AddEntryError,
    >)
        requires
            old(self).wf(),
            !too_long(name@),
            !has_name(old(self).spec_entries(), name@),
        ensures
            match result {
                Ok(entry) => {
                    &&& final(self).spec_size() == old(self).size_with(name@, entry.spec_size())
                    &&& entry.spec_data() == data
                    &&& call_ensures(D::size, (&data,), entry.spec_size())
                    &&& data.exact() && data.measured() ==> entry.exact()
                    &&& entry.spec_meta() == EntryMetadata::spec_new(
                        old(self).spec_time_converter(),
                    )
                    &&& final(self).spec_entries() == old(self).spec_entries().push(
                        (name@, *final(entry)),
                    )
                    &&& final(self).spec_time_converter() == old(self).spec_time_converter()
                    &&& final(entry).changed(*entry, final(entry).spec_meta())
                        ==> final(self).wf()
                },
                Err(AddEntryError::TooLongZipFile { entry_name }) => {
                    &&& exists|size: u64| #[trigger]
                        call_ensures(D::size, (&data,), size) && old(self).size_with(name@, size)
                            > u64::MAX
                    &&& entry_name@ == name@
                    &&& *final(self) == *old(self)
                },
                Err(_) => false,
            },
    {
        let headers_size: u64 = local_header_size(name.as_str()) + cd_header_size(name.as_str());
        proof {
            if map_entries(self.names).contains(name@) {
                let i = map_entries(self.names).index_of(name@);
                assert(self.spec_entries()[i].0 == name@);
            }
        }
        let entry = BuilderEntry::new(data, share(&self.time_converter));
        let with_data: Option<u64> = headers_size.checked_add(entry.size);
        let total_size: u64 = match with_data {
            Some(size) => match size.checked_add(self.total_size) {
                Some(size) => size,
                None => {
                    return Err(AddEntryError::TooLongZipFile { entry_name: name });
                },
            },
            None => {
                return Err(AddEntryError::TooLongZipFile { entry_name: name });
            },
        };
        let index: usize = self.slots.len();
        let ghost before = self.spec_entries();
        let ghost key = name@;
        self.total_size = total_size;
        map_insert(&mut self.names, name);
        let ghost added = entry.file_view(key);
        self.slots.push(entry);
        proof {
            let keys = map_entries(self.names);
            let slots = self.slots@;
            lemma_archive_size_push(builder_files(before), added);
            assert(builder_files(before).push(added) =~= builder_files(before.push((key, entry))));
            assert forall|e: BuilderEntry<D>|
                named_entries(keys, #[trigger] slots.update(index as int, e)) == before.push(
                    (key, e),
                ) by {
                assert(named_entries(keys, slots.update(index as int, e)) =~= before.push(
                    (key, e),
                ));
            }
            assert forall|e: BuilderEntry<D>|
                e.spec_size() == entry.spec_size() implies archive_size(
                builder_files(#[trigger] before.push((key, e))),
            ) == total_size by {
                lemma_archive_size_push(builder_files(before), e.file_view(key));
                assert(builder_files(before.push((key, e))) =~= builder_files(before).push(
                    e.file_view(key),
                ));
            }
            assert forall|e: BuilderEntry<D>|
                e.readable() implies entries_fit(#[trigger] before.push((key, e))) by {
                let after = before.push((key, e));
                assert forall|i: int, j: int| 0 <= i < j < after.len() implies (
                #[trigger] after[i]).0 != (#[trigger] after[j]).0 by {
                    assert(before[i].0 != key);
                    if j < before.len() {
                        assert(before[i].0 != before[j].0);
                    }
                }
                assert forall|i: int| 0 <= i < after.len() implies !too_long(
                    (#[trigger] after[i]).0,
                ) && after[i].1.readable() by {
                    if i < before.len() {
                        assert(!too_long(before[i].0));
                    }
                }
            }
        }
        Ok(&mut self.slots[index])
    }

    /// Adds an entry to the zip file.
    /// The returned reference can be used to modify metadata to the entry.
    ///
    /// # Errors
    /// Returns an error if `name` is longer than `u16::MAX` (limitation of Zip format),
    /// or the given entry name is already present in the archive.
    /// Returns an error if the size of the zip file would become larger than `u64::MAX` after the add.
    pub fn add_entry_data(&mut self, name: String, data: D) -> (result: Result<
        &mut BuilderEntry<D>,
        AddEntryError,
    >)
        requires
            old(self).wf(),
        ensures
            match result {
                Ok(entry) => {
                    &&& !too_long(name@)
                    &&& !has_name(old(self).spec_entries(), name@)
                    &&& final(self).spec_size() == old(self).size_with(name@, entry.spec_size())
                    &&& entry.spec_data() == data
                    &&& call_ensures(D::size, (&data,), entry.spec_size())
                    &&& data.exact() && data.measured() ==> entry.exact()
                    &&& entry.spec_meta() == EntryMetadata::spec_new(
                        old(self).spec_time_converter(),
                    )
                    &&& final(self).spec_entries() == old(self).spec_entries().push(
                        (name@, *final(entry)),
                    )
                    &&& final(self).spec_time_converter() == old(self).spec_time_converter()
                    &&& final(entry).changed(*entry, final(entry).spec_meta()) ==> final(self).wf()
                        && final(self).grew(*old(self), name@, *final(entry))
                },
                Err(AddEntryError::TooLongEntryName { entry_name }) => {
                    &&& too_long(name@)
                    &&& entry_name@ == name@
                    &&& *final(self) == *old(self)
                },
                Err(AddEntryError::DuplicateEntryName { entry_name }) => {
                    &&& !too_long(name@)
                    &&& has_name(old(self).spec_entries(), name@)
                    &&& entry_name@ == name@
                    &&& *final(self) == *old(self)
                },
                Err(AddEntryError::TooLongZipFile { entry_name }) => {
                    &&& !too_long(name@)
                    &&& !has_name(old(self).spec_entries(), name@)
                    &&& exists|size: u64| #[trigger]
                        call_ensures(D::size, (&data,), size) && old(self).size_with(name@, size)
                            > u64::MAX
                    &&& entry_name@ == name@
                    &&& *final(self) == *old(self)
                },
            },
    {
        match self.check_name(name.as_str()) {
            NameCheck::TooLong => Err(AddEntryError::TooLongEntryName { entry_name: name }),
            NameCheck::Duplicate => Err(AddEntryError::DuplicateEntryName { entry_name: name }),
            NameCheck::Fine => self.insert_entry(name, data),
        }
    }

    /// Adds an entry to the zip file, with what `data` is converted into.
    /// The returned reference can be used to modify metadata to the entry.
    ///
    /// # Errors
    /// Returns an error if `name` is longer than `u16::MAX` (limitation of Zip format),
    /// or the given entry name is already present in the archive.
    /// Returns an error if the size of the zip file would become larger than `u64::MAX` after the add.
    pub fn add_entry<T: Into<D>>(&mut self, name: String, data: T) -> (result: Result<
        &mut BuilderEntry<D>,
        AddEntryError,
    >)
        requires
            old(self).wf(),
        ensures
            match result {
                Ok(entry) => {
                    &&& !too_long(name@)
                    &&& !has_name(old(self).spec_entries(), name@)
                    &&& final(self).spec_size() == old(self).size_with(name@, entry.spec_size())
                    &&& call_ensures(<T as Into<D>>::into, (data,), entry.spec_data())
                    &&& call_ensures(D::size, (&entry.spec_data(),), entry.spec_size())
                    &&& entry.spec_data().exact() && entry.spec_data().measured() ==> entry.exact()
                    &&& entry.spec_meta() == EntryMetadata::spec_new(
                        old(self).spec_time_converter(),
                    )
                    &&& final(self).spec_entries() == old(self).spec_entries().push(
                        (name@, *final(entry)),
                    )
                    &&& final(self).spec_time_converter() == old(self).spec_time_converter()
                    &&& final(entry).changed(*entry, final(entry).spec_meta()) ==> final(self).wf()
                },
                Err(AddEntryError::TooLongEntryName { entry_name }) => {
                    &&& too_long(name@)
                    &&& entry_name@ == name@
                    &&& *final(self) == *old(self)
                },
                Err(AddEntryError::DuplicateEntryName { entry_name }) => {
                    &&& !too_long(name@)
                    &&& has_name(old(self).spec_entries(), name@)
                    &&& entry_name@ == name@
                    &&& *final(self) == *old(self)
                },
                Err(AddEntryError::TooLongZipFile { entry_name }) => {
                    &&& !too_long(name@)
                    &&& !has_name(old(self).spec_entries(), name@)
                    &&& exists|converted: D, size: u64|
                        {
                            &&& #[trigger] call_ensures(<T as Into<D>>::into, (data,), converted)
                            &&& #[trigger] call_ensures(D::size, (&converted,), size)
                            &&& old(self).size_with(name@, size) > u64::MAX
                        }
                    &&& entry_name@ == name@
                    &&& *final(self) == *old(self)
                },
            },
    {
        match self.check_name(name.as_str()) {
            NameCheck::TooLong => Err(AddEntryError::TooLongEntryName { entry_name: name }),
            NameCheck::Duplicate => Err(AddEntryError::DuplicateEntryName { entry_name: name }),
            NameCheck::Fine => {
                let converted: D = data.into();
                self.insert_entry(name, converted)
            },
        }
    }

    /// Removes the entry with this name, if there is one. The others stay in order.
    pub fn remove_entry(&mut self, name: &str) -> (removed: Option<BuilderEntry<D>>)
        requires
            old(self).wf(),
        ensures
            final(self).wf(),
            final(self).spec_time_converter() == old(self).spec_time_converter(),
            match removed {
                Some(entry) => {
                    &&& exists|i: int|
                        {
                            &&& 0 <= i < old(self).spec_entries().len()
                            &&& #[trigger] old(self).spec_entries()[i] == (name@, entry)
                            &&& final(self).spec_entries() == old(self).spec_entries().remove(i)
                        }
                    &&& old(self).spec_size() == final(self).size_with(name@, entry.spec_size())
                    &&& final(self).lost(*old(self), name@, entry)
                },
                None => {
                    &&& !has_name(old(self).spec_entries(), name@)
                    &&& final(self).spec_entries() == old(self).spec_entries()
                    &&& final(self).spec_size() == old(self).spec_size()
                },
            },
    {
        let ghost before = self.spec_entries();
        let ghost fs = self.files();
        let i: usize = match map_remove(&mut self.names, name) {
            Some(i) => i,
            None => {
                proof {
                    if has_name(before, name@) {
                        let i = choose|i: int|
                            0 <= i < before.len() && (#[trigger] before[i]).0 == name@;
                        assert(map_entries(old(self).names)[i] == name@);
                    }
                    assert(self.spec_entries() =~= before);
                }
                return None;
            },
        };
        assert(before[i as int].0 == name@);
        assert(fs[i as int] == before[i as int].1.file_view(name@));
        let entry = self.slots.remove(i);
        proof {
            lemma_archive_size_remove(fs, i as int);
            assert(self.spec_entries() =~= before.remove(i as int));
            assert(self.files() =~= fs.remove(i as int));
            assert(before[i as int] == (name@, entry));
        }
        let headers_size: u64 = local_header_size(name) + cd_header_size(name);
        self.total_size = self.total_size - headers_size - entry.size;
        proof {
            let after = self.spec_entries();
            assert(after == before.remove(i as int));
            assert forall|a: int, b: int| 0 <= a < b < after.len() implies (
            #[trigger] after[a]).0 != (#[trigger] after[b]).0 by {
                let (c, d) = (if a < i { a } else { a + 1 }, if b < i { b } else { b + 1 });
                assert(after[a] == before[c] && after[b] == before[d]);
            }
            assert forall|a: int| 0 <= a < after.len() implies !too_long((#[trigger] after[a]).0)
                && after[a].1.readable() by {
                let c = if a < i { a } else { a + 1 };
                assert(after[a] == before[c]);
            }
        }
        Some(entry)
    }

    /// Exchanges the places of two entries, which are counted from zero on.
    pub fn swap_entries(&mut self, a: usize, b: usize)
        requires
            old(self).wf(),
            a < old(self).spec_entries().len(),
            b < old(self).spec_entries().len(),
        ensures
            final(self).wf(),
            final(self).spec_time_converter() == old(self).spec_time_converter(),
            final(self).spec_size() == old(self).spec_size(),
            final(self).swapped(*old(self), a as int, b as int),
            final(self).spec_entries() == old(self).spec_entries().update(
                a as int,
                old(self).spec_entries()[b as int],
            ).update(b as int, old(self).spec_entries()[a as int]),
    {
        if a == b {
            assert(self.spec_entries() =~= old(self).spec_entries().update(
                a as int,
                old(self).spec_entries()[b as int],
            ).update(b as int, old(self).spec_entries()[a as int]));
            return;
        }
        let ghost before = self.spec_entries();
        let ghost fs = self.files();
        let (low, high): (usize, usize) = if a < b {
            (a, b)
        } else {
            (b, a)
        };
        map_swap(&mut self.names, low, high);
        let later = self.slots.remove(high);
        let earlier = self.slots.remove(low);
        self.slots.insert(low, later);
        self.slots.insert(high, earlier);
        proof {
            let after = self.spec_entries();
            assert(after =~= before.update(low as int, before[high as int]).update(
                high as int,
                before[low as int],
            ));
            assert(after =~= before.update(a as int, before[b as int]).update(
                b as int,
                before[a as int],
            ));
            assert(self.files() =~= fs.update(low as int, fs[high as int]).update(
                high as int,
                fs[low as int],
            ));
            lemma_archive_size_swap(fs, low as int, high as int);
            assert forall|i: int, j: int| 0 <= i < j < after.len() implies (
            #[trigger] after[i]).0 != (#[trigger] after[j]).0 by {
                let c = if i == low { high as int } else if i == high { low as int } else { i };
                let d = if j == low { high as int } else if j == high { low as int } else { j };
                assert(after[i] == before[c] && after[j] == before[d]);
            }
            assert forall|i: int| 0 <= i < after.len() implies !too_long((#[trigger] after[i]).0)
                && after[i].1.readable() by {
                let c = if i == low { high as int } else if i == high { low as int } else { i };
                assert(after[i] == before[c]);
            }
        }
    }

    /// Returns the size of the zip file if it was built immediately.
    ///
    /// Returns the same value as `self.build().size()`.
    pub fn size(&self) -> (size: u64)
        ensures
            size == self.spec_size(),
    {
        self.total_size
    }

    /// Finishes the build phase of the ZIP file and converts the builder into a [`Reader`].
    #[must_use]
    pub fn build(self) -> (reader: Reader<D>)
        requires
            self.wf(),
        ensures
            reader.wf(),
            reader.spec_tell() == 0,
            reader.pending_error() is None,
            reader.counted(),
            reader.in_order(),
            reader.lists(),
            reader.spec_sizes().total_size == self.spec_size(),
            reader.files() == self.files(),
            reader.spec_entries().len() == self.spec_entries().len(),
            forall|i: int|
                0 <= i < self.spec_entries().len() ==> built_from(
                    #[trigger] reader.spec_entries()[i],
                    self.spec_entries()[i],
                ),
            all_data_exact(self.spec_entries()) ==> reader.on_track(),
            all_data_prompt(self.spec_entries()) ==> reader.prompt(),
    {
        let ghost named = self.spec_entries();
        let ghost fs = self.files();
        let ghost count = named.len();
        let mut names = map_into_keys(self.names);
        let ghost all_names = names@;
        let mut offset: u64 = 0;
        let mut cd_size: u64 = 0;
        let mut entries: Vec<ReaderEntry<D>> = Vec::new();
        for slot in it: self.slots.into_iter()
            invariant
                self.wf(),
                named == self.spec_entries(),
                fs == self.files(),
                count == named.len(),
                it.seq() == self.slots@,
                count == it.seq().len(),
                all_names.len() == count,
                forall|i: int| 0 <= i < count ==> (#[trigger] all_names[i])@ == named[i].0,
                names@ == all_names.skip(it.index()),
                entries@.len() == it.index(),
                offset == entry_offset(fs, it.index() as nat),
                cd_size == cd_length(fs, it.index() as nat),
                forall|i: int|
                    0 <= i < it.index() ==> {
                        &&& built_from(#[trigger] entries@[i], named[i])
                        &&& entries@[i].offset == entry_offset(fs, i as nat)
                    },
        {
            let ghost i = it.index();
            let ghost (key, entry) = named[i];
            proof {
                assert(entry == slot);
                assert(fs[i] == entry.file_view(key));
                assert(!too_long(named[i].0));
                lemma_parts_fit(fs, i as nat);
                assert(entry_offset(fs, (i + 1) as nat) == entry_offset(fs, i as nat)
                    + fs[i].local_size());
                assert(cd_length(fs, (i + 1) as nat) == cd_length(fs, i as nat)
                    + fs[i].cd_header_size());
            }
            if let Some(name) = names.pop_front() {
                assert(name == all_names[i]);
                let header_size: u64 = local_header_size(name.as_str());
                let cd_header_size: u64 = cd_header_size(name.as_str());
                let entry = slot.into_reader_entry(name, offset);
                offset = offset + header_size + entry.size;
                cd_size = cd_size + cd_header_size;
                entries.push(entry);
            }
            assert(names@ =~= all_names.skip(i + 1));
        }
        proof {
            lemma_parts_fit(fs, fs.len());
        }
        let cd_offset: u64 = offset;
        let eocd_offset: u64 = cd_offset + cd_size;
        let total_size: u64 = eocd_offset + eocd_size();
        let sizes = Sizes { cd_offset, cd_size, eocd_offset, total_size };
        proof {
            assert(entries.len() <= usize::MAX);
            lemma_built(named, fs, entries@, sizes);
        }
        Reader::new(sizes, entries)
    }

    /// Sets a converter that will be used for converting system times to field representation.
    ///
    /// The converter is passed to newly created builder entries and used in [`BuilderEntry::datetime_system()`],
    /// [`BuilderEntry::datetime_system_or_default()`] and [`BuilderEntry::metadata()`].
    pub fn system_time_converter<F: TimeConverter + 'static>(&mut self, converter: F) -> (builder:
        &mut Self)
        ensures
            builder.spec_entries() == old(self).spec_entries(),
            builder.spec_size() == old(self).spec_size(),
            builder.wf() == old(self).wf(),
            builder.spec_time_converter() matches Some(shared) && same_conversion(
                shared,
                converter,
            ),
            *final(self) == *final(builder),
    {
        self.time_converter = Some(new_shared(converter));
        self
    }

    /// Wrapper over [`Builder::system_time_converter()`] which sets a converter based on a time zone.
    ///
    /// The converter is passed to newly created builder entries and used in [`BuilderEntry::datetime_system()`],
    /// [`BuilderEntry::datetime_system_or_default()`] and [`BuilderEntry::metadata()`].
    pub fn system_time_timezone<Z: UtcOffset + 'static>(&mut self, tz: Z) -> (builder: &mut Self)
        ensures
            builder.spec_entries() == old(self).spec_entries(),
            builder.spec_size() == old(self).spec_size(),
            builder.wf() == old(self).wf(),
            builder.spec_time_converter() matches Some(shared) && same_conversion(
                shared,
                (ZoneConverter { zone: tz }),
            ),
            *final(self) == *final(builder),
    {
        self.system_time_converter(system_timezone_converter(tz))
    }

    /// Returns all entries currently in the builder with their names, in the order in which they
    /// were added.
    pub fn get_entries(&self) -> (entries: Vec<(&str, &BuilderEntry<D>)>)
        requires
            self.wf(),
        ensures
            entries@.len() == self.spec_entries().len(),
            forall|i: int|
                0 <= i < entries@.len() ==> {
                    &&& (#[trigger] entries@[i]).0@ == self.spec_entries()[i].0
                    &&& *entries@[i].1 == self.spec_entries()[i].1
                },
    {
        let names = map_keys(&self.names);
        let mut entries: Vec<(&str, &BuilderEntry<D>)> = Vec::new();
        let mut i: usize = 0;
        while i < self.slots.len()
            invariant
                self.wf(),
                i <= self.slots@.len(),
                names@.len() == self.slots@.len(),
                forall|j: int|
                    0 <= j < names@.len() ==> (#[trigger] names@[j])@ == map_entries(
                        self.names,
                    )[j],
                entries@.len() == i,
                forall|j: int|
                    0 <= j < i ==> {
                        &&& (#[trigger] entries@[j]).0@ == self.spec_entries()[j].0
                        &&& *entries@[j].1 == self.spec_entries()[j].1
                    },
            decreases self.slots@.len() - i,
        {
            entries.push((names[i].as_str(), &self.slots[i]));
            i = i + 1;
        }
        entries
    }

    /// Returns a mutable reference to all entries currently in the builder, in the order in which
    /// they were added.
    pub fn get_entries_mut(&mut self) -> (entries: &mut [BuilderEntry<D>])
        ensures
            entries@.len() == old(self).spec_entries().len(),
            forall|i: int|
                0 <= i < entries@.len() ==> (#[trigger] entries@[i]) == old(
                    self,
                ).spec_entries()[i].1,
            final(self).spec_size() == old(self).spec_size(),
            final(self).spec_time_converter() == old(self).spec_time_converter(),
            final(entries)@.len() == entries@.len() ==> {
                &&& final(self).indexed() == old(self).indexed()
                &&& final(self).spec_entries().len() == old(self).spec_entries().len()
                &&& forall|i: int|
                    0 <= i < final(self).spec_entries().len() ==> {
                        &&& (#[trigger] final(self).spec_entries()[i]).0 == old(
                            self,
                        ).spec_entries()[i].0
                        &&& final(self).spec_entries()[i].1 == final(entries)@[i]
                    }
            },
            old(self).wf() && final(entries)@.len() == entries@.len() && (forall|i: int|
                0 <= i < entries@.len() ==> (#[trigger] final(entries)@[i]).changed(
                    entries@[i],
                    final(entries)@[i].spec_meta(),
                )) ==> final(self).wf(),
    {
        proof {
            let names = map_entries(self.names);
            let before = self.slots@;
            if self.wf() {
                assert forall|after: Seq<BuilderEntry<D>>|
                    after.len() == before.len() && (forall|i: int|
                        0 <= i < before.len() ==> (#[trigger] after[i]).changed(
                            before[i],
                            after[i].spec_meta(),
                        )) implies entries_fit(#[trigger] named_entries(names, after))
                    && archive_size(builder_files(named_entries(names, after))) == archive_size(
                    self.files(),
                ) by {
                    assert forall|i: int| 0 <= i < after.len() implies (#[trigger] named_entries(
                        names,
                        after,
                    )[i]).1.readable() by {
                        assert(named_entries(names, before)[i].1.readable());
                        assert(after[i].changed(before[i], after[i].spec_meta()));
                    }
                    lemma_still_fit(named_entries(names, before), named_entries(names, after));
                }
            }
        }
        self.slots.as_mut_slice()
    }
}

impl<D: EntryData> Default for Builder<D> {
    fn default() -> (builder: Builder<D>)
        ensures
            builder.wf(),
            builder.spec_entries().len() == 0,
            builder.spec_time_converter() is None,
    {
        Builder::new()
    }
}

} // verus!
