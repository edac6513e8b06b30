//! How the records of an archive are read back.

use crate::encode::{le_bytes, lemma_le_bytes_len};
use crate::laws::{law_le_bytes_round_trip, le_limit, le_value};
use crate::structs::{
    CentralDirectoryHeader, DataDescriptor64, EndOfCentralDirectory, GpBitFlag, LocalFileHeader,
    PackedStructZippityExt, Zip64EndOfCentralDirectoryLocator, Zip64EndOfCentralDirectoryRecord,
    Zip64ExtraField,
};
use vstd::prelude::*;

verus! {

/// Numbers of the sizes that records hold fit.
proof fn lemma_le_limits()
    ensures
        le_limit(1) == 0x100,
        le_limit(2) == 0x1_0000,
        le_limit(4) == 0x1_0000_0000,
        le_limit(8) == 0x1_0000_0000_0000_0000,
{
    reveal_with_fuel(le_limit, 9);
}

/// The number that stands at a position, and takes `len` bytes.
#[verifier::opaque]
pub open spec fn number_at(bytes: Seq<u8>, position: int, len: int) -> nat {
    le_value(bytes.subrange(position, position + len))
}

/// A number is read back from where it stands.
proof fn lemma_number_at(bytes: Seq<u8>, position: int, len: nat, value: nat)
    requires
        bytes.subrange(position, position + len) == le_bytes(value, len),
        value < le_limit(len),
    ensures
        number_at(bytes, position, len as int) == value,
{
    reveal(number_at);
    law_le_bytes_round_trip(value, len);
}

/// The same bytes hold the same numbers.
pub proof fn lemma_number_within(
    bytes: Seq<u8>,
    from: int,
    part: Seq<u8>,
    position: int,
    len: int,
)
    requires
        0 <= from,
        0 <= position,
        0 <= len,
        position + len <= part.len(),
        from + part.len() <= bytes.len(),
        bytes.subrange(from, from + part.len()) == part,
    ensures
        number_at(bytes, from + position, len) == number_at(part, position, len),
{
    reveal(number_at);
    assert(bytes.subrange(from + position, from + position + len) =~= part.subrange(
        position,
        position + len,
    ));
}

/// Bit 3 stands for the data descriptor and bit 11 for names in UTF-8.
pub open spec fn flag_bits(flags: GpBitFlag) -> nat {
    match (flags.use_data_descriptor, flags.language_encoding) {
        (false, false) => 0x0000,
        (true, false) => 0x0008,
        (false, true) => 0x0800,
        (true, true) => 0x0808,
    }
}

/// Everything that a local header says is read back from its 30 bytes.
pub proof fn law_local_file_header_reads_back(header: LocalFileHeader)
    ensures
        ({
            let bytes = header.spec_packed();
            &&& bytes.len() == 30
            &&& number_at(bytes, 0, 4) == header.signature
            &&& number_at(bytes, 4, 2) == header.version_to_extract
            &&& number_at(bytes, 6, 2) == flag_bits(header.flags)
            &&& number_at(bytes, 8, 2) == 0nat
            &&& number_at(bytes, 10, 2) == header.last_mod_datetime.time
            &&& number_at(bytes, 12, 2) == header.last_mod_datetime.date
            &&& number_at(bytes, 14, 4) == header.crc32
            &&& number_at(bytes, 18, 4) == header.compressed_size
            &&& number_at(bytes, 22, 4) == header.uncompressed_size
            &&& number_at(bytes, 26, 2) == header.file_name_len
            &&& number_at(bytes, 28, 2) == header.extra_field_len
        }),
{
    broadcast use lemma_le_bytes_len;

    lemma_le_limits();
    let bytes = header.spec_packed();
    header.lemma_packed_len();
    assert(bytes.subrange(0, 4) =~= le_bytes(header.signature as nat, 4));
    lemma_number_at(bytes, 0, 4, header.signature as nat);
    assert(bytes.subrange(4, 6) =~= le_bytes(header.version_to_extract as nat, 2));
    lemma_number_at(bytes, 4, 2, header.version_to_extract as nat);
    assert(bytes.subrange(6, 8) =~= le_bytes(header.flags.spec_value() as nat, 2));
    lemma_number_at(bytes, 6, 2, header.flags.spec_value() as nat);
    assert(bytes.subrange(8, 10) =~= le_bytes(header.compression.spec_value() as nat, 2));
    lemma_number_at(bytes, 8, 2, header.compression.spec_value() as nat);
    assert(bytes.subrange(10, 12) =~= le_bytes(header.last_mod_datetime.time as nat, 2));
    lemma_number_at(bytes, 10, 2, header.last_mod_datetime.time as nat);
    assert(bytes.subrange(12, 14) =~= le_bytes(header.last_mod_datetime.date as nat, 2));
    lemma_number_at(bytes, 12, 2, header.last_mod_datetime.date as nat);
    assert(bytes.subrange(14, 18) =~= le_bytes(header.crc32 as nat, 4));
    lemma_number_at(bytes, 14, 4, header.crc32 as nat);
    assert(bytes.subrange(18, 22) =~= le_bytes(header.compressed_size as nat, 4));
    lemma_number_at(bytes, 18, 4, header.compressed_size as nat);
    assert(bytes.subrange(22, 26) =~= le_bytes(header.uncompressed_size as nat, 4));
    lemma_number_at(bytes, 22, 4, header.uncompressed_size as nat);
    assert(bytes.subrange(26, 28) =~= le_bytes(header.file_name_len as nat, 2));
    lemma_number_at(bytes, 26, 2, header.file_name_len as nat);
    assert(bytes.subrange(28, 30) =~= le_bytes(header.extra_field_len as nat, 2));
    lemma_number_at(bytes, 28, 2, header.extra_field_len as nat);
}

/// Everything that a Zip64 field says is read back from its 28 bytes.
pub proof fn law_zip64_extra_field_reads_back(field: Zip64ExtraField)
    ensures
        ({
            let bytes = field.spec_packed();
            &&& bytes.len() == 28
            &&& number_at(bytes, 0, 2) == field.tag
            &&& number_at(bytes, 2, 2) == field.size
            &&& number_at(bytes, 4, 8) == field.uncompressed_size
            &&& number_at(bytes, 12, 8) == field.compressed_size
            &&& number_at(bytes, 20, 8) == field.offset
        }),
{
    broadcast use lemma_le_bytes_len;

    lemma_le_limits();
    let bytes = field.spec_packed();
    field.lemma_packed_len();
    assert(bytes.subrange(0, 2) =~= le_bytes(field.tag as nat, 2));
    lemma_number_at(bytes, 0, 2, field.tag as nat);
    assert(bytes.subrange(2, 4) =~= le_bytes(field.size as nat, 2));
    lemma_number_at(bytes, 2, 2, field.size as nat);
    assert(bytes.subrange(4, 12) =~= le_bytes(field.uncompressed_size as nat, 8));
    lemma_number_at(bytes, 4, 8, field.uncompressed_size as nat);
    assert(bytes.subrange(12, 20) =~= le_bytes(field.compressed_size as nat, 8));
    lemma_number_at(bytes, 12, 8, field.compressed_size as nat);
    assert(bytes.subrange(20, 28) =~= le_bytes(field.offset as nat, 8));
    lemma_number_at(bytes, 20, 8, field.offset as nat);
}

/// Everything that a data descriptor says is read back from its 24 bytes.
pub proof fn law_data_descriptor_reads_back(descriptor: DataDescriptor64)
    ensures
        ({
            let bytes = descriptor.spec_packed();
            &&& bytes.len() == 24
            &&& number_at(bytes, 0, 4) == descriptor.signature
            &&& number_at(bytes, 4, 4) == descriptor.crc32
            &&& number_at(bytes, 8, 8) == descriptor.compressed_size
            &&& number_at(bytes, 16, 8) == descriptor.uncompressed_size
        }),
{
    broadcast use lemma_le_bytes_len;

    lemma_le_limits();
    let bytes = descriptor.spec_packed();
    descriptor.lemma_packed_len();
    assert(bytes.subrange(0, 4) =~= le_bytes(descriptor.signature as nat, 4));
    lemma_number_at(bytes, 0, 4, descriptor.signature as nat);
    assert(bytes.subrange(4, 8) =~= le_bytes(descriptor.crc32 as nat, 4));
    lemma_number_at(bytes, 4, 4, descriptor.crc32 as nat);
    assert(bytes.subrange(8, 16) =~= le_bytes(descriptor.compressed_size as nat, 8));
    lemma_number_at(bytes, 8, 8, descriptor.compressed_size as nat);
    assert(bytes.subrange(16, 24) =~= le_bytes(descriptor.uncompressed_size as nat, 8));
    lemma_number_at(bytes, 16, 8, descriptor.uncompressed_size as nat);
}

/// Everything that a header of the central directory says is read back from its 46 bytes.
pub proof fn law_central_directory_header_reads_back(header: CentralDirectoryHeader)
    ensures
        ({
            let bytes = header.spec_packed();
            &&& bytes.len() == 46
            &&& number_at(bytes, 0, 4) == header.signature
            &&& number_at(bytes, 4, 1) == header.version_made_by.spec_version
            &&& number_at(bytes, 5, 1) == 3nat
            &&& number_at(bytes, 6, 2) == header.version_to_extract
            &&& number_at(bytes, 8, 2) == flag_bits(header.flags)
            &&& number_at(bytes, 10, 2) == 0nat
            &&& number_at(bytes, 12, 2) == header.last_mod_datetime.time
            &&& number_at(bytes, 14, 2) == header.last_mod_datetime.date
            &&& number_at(bytes, 16, 4) == header.crc32
            &&& number_at(bytes, 20, 4) == header.compressed_size
            &&& number_at(bytes, 24, 4) == header.uncompressed_size
            &&& number_at(bytes, 28, 2) == header.file_name_len
            &&& number_at(bytes, 30, 2) == header.extra_field_len
            &&& number_at(bytes, 32, 2) == header.file_comment_length
            &&& number_at(bytes, 34, 2) == header.disk_number_start
            &&& number_at(bytes, 36, 2) == header.internal_attributes
            &&& number_at(bytes, 38, 4) == header.external_attributes
            &&& number_at(bytes, 42, 4) == header.local_header_offset
        }),
{
    broadcast use lemma_le_bytes_len;

    lemma_le_limits();
    let bytes = header.spec_packed();
    header.lemma_packed_len();
    assert(bytes.subrange(0, 4) =~= le_bytes(header.signature as nat, 4));
    lemma_number_at(bytes, 0, 4, header.signature as nat);
    assert(bytes.subrange(4, 5) =~= le_bytes(header.version_made_by.spec_version as nat, 1));
    lemma_number_at(bytes, 4, 1, header.version_made_by.spec_version as nat);
    assert(bytes.subrange(5, 6) =~= le_bytes(header.version_made_by.os.spec_value() as nat, 1));
    lemma_number_at(bytes, 5, 1, header.version_made_by.os.spec_value() as nat);
    assert(bytes.subrange(6, 8) =~= le_bytes(header.version_to_extract as nat, 2));
    lemma_number_at(bytes, 6, 2, header.version_to_extract as nat);
    assert(bytes.subrange(8, 10) =~= le_bytes(header.flags.spec_value() as nat, 2));
    lemma_number_at(bytes, 8, 2, header.flags.spec_value() as nat);
    assert(bytes.subrange(10, 12) =~= le_bytes(header.compression.spec_value() as nat, 2));
    lemma_number_at(bytes, 10, 2, header.compression.spec_value() as nat);
    assert(bytes.subrange(12, 14) =~= le_bytes(header.last_mod_datetime.time as nat, 2));
    lemma_number_at(bytes, 12, 2, header.last_mod_datetime.time as nat);
    assert(bytes.subrange(14, 16) =~= le_bytes(header.last_mod_datetime.date as nat, 2));
    lemma_number_at(bytes, 14, 2, header.last_mod_datetime.date as nat);
    assert(bytes.subrange(16, 20) =~= le_bytes(header.crc32 as nat, 4));
    lemma_number_at(bytes, 16, 4, header.crc32 as nat);
    assert(bytes.subrange(20, 24) =~= le_bytes(header.compressed_size as nat, 4));
    lemma_number_at(bytes, 20, 4, header.compressed_size as nat);
    assert(bytes.subrange(24, 28) =~= le_bytes(header.uncompressed_size as nat, 4));
    lemma_number_at(bytes, 24, 4, header.uncompressed_size as nat);
    assert(bytes.subrange(28, 30) =~= le_bytes(header.file_name_len as nat, 2));
    lemma_number_at(bytes, 28, 2, header.file_name_len as nat);
    assert(bytes.subrange(30, 32) =~= le_bytes(header.extra_field_len as nat, 2));
    lemma_number_at(bytes, 30, 2, header.extra_field_len as nat);
    assert(bytes.subrange(32, 34) =~= le_bytes(header.file_comment_length as nat, 2));
    lemma_number_at(bytes, 32, 2, header.file_comment_length as nat);
    assert(bytes.subrange(34, 36) =~= le_bytes(header.disk_number_start as nat, 2));
    lemma_number_at(bytes, 34, 2, header.disk_number_start as nat);
    assert(bytes.subrange(36, 38) =~= le_bytes(header.internal_attributes as nat, 2));
    lemma_number_at(bytes, 36, 2, header.internal_attributes as nat);
    assert(bytes.subrange(38, 42) =~= le_bytes(header.external_attributes as nat, 4));
    lemma_number_at(bytes, 38, 4, header.external_attributes as nat);
    assert(bytes.subrange(42, 46) =~= le_bytes(header.local_header_offset as nat, 4));
    lemma_number_at(bytes, 42, 4, header.local_header_offset as nat);
}

/// Everything that a Zip64 end of central directory record says is read back from its 56 bytes.
pub proof fn law_zip64_end_record_reads_back(record: Zip64EndOfCentralDirectoryRecord)
    ensures
        ({
            let bytes = record.spec_packed();
            &&& bytes.len() == 56
            &&& number_at(bytes, 0, 4) == record.signature
            &&& number_at(bytes, 4, 8) == record.size_of_zip64_eocd
            &&& number_at(bytes, 12, 1) == record.version_made_by.spec_version
            &&& number_at(bytes, 13, 1) == 3nat
            &&& number_at(bytes, 14, 2) == record.version_to_extract
            &&& number_at(bytes, 16, 4) == record.this_disk_number
            &&& number_at(bytes, 20, 4) == record.start_of_cd_disk_number
            &&& number_at(bytes, 24, 8) == record.this_cd_entry_count
            &&& number_at(bytes, 32, 8) == record.total_cd_entry_count
            &&& number_at(bytes, 40, 8) == record.size_of_cd
            &&& number_at(bytes, 48, 8) == record.cd_offset
        }),
{
    broadcast use lemma_le_bytes_len;

    lemma_le_limits();
    let bytes = record.spec_packed();
    record.lemma_packed_len();
    assert(bytes.subrange(0, 4) =~= le_bytes(record.signature as nat, 4));
    lemma_number_at(bytes, 0, 4, record.signature as nat);
    assert(bytes.subrange(4, 12) =~= le_bytes(record.size_of_zip64_eocd as nat, 8));
    lemma_number_at(bytes, 4, 8, record.size_of_zip64_eocd as nat);
    assert(bytes.subrange(12, 13) =~= le_bytes(record.version_made_by.spec_version as nat, 1));
    lemma_number_at(bytes, 12, 1, record.version_made_by.spec_version as nat);
    assert(bytes.subrange(13, 14) =~= le_bytes(record.version_made_by.os.spec_value() as nat, 1));
    lemma_number_at(bytes, 13, 1, record.version_made_by.os.spec_value() as nat);
    assert(bytes.subrange(14, 16) =~= le_bytes(record.version_to_extract as nat, 2));
    lemma_number_at(bytes, 14, 2, record.version_to_extract as nat);
    assert(bytes.subrange(16, 20) =~= le_bytes(record.this_disk_number as nat, 4));
    lemma_number_at(bytes, 16, 4, record.this_disk_number as nat);
    assert(bytes.subrange(20, 24) =~= le_bytes(record.start_of_cd_disk_number as nat, 4));
    lemma_number_at(bytes, 20, 4, record.start_of_cd_disk_number as nat);
    assert(bytes.subrange(24, 32) =~= le_bytes(record.this_cd_entry_count as nat, 8));
    lemma_number_at(bytes, 24, 8, record.this_cd_entry_count as nat);
    assert(bytes.subrange(32, 40) =~= le_bytes(record.total_cd_entry_count as nat, 8));
    lemma_number_at(bytes, 32, 8, record.total_cd_entry_count as nat);
    assert(bytes.subrange(40, 48) =~= le_bytes(record.size_of_cd as nat, 8));
    lemma_number_at(bytes, 40, 8, record.size_of_cd as nat);
    assert(bytes.subrange(48, 56) =~= le_bytes(record.cd_offset as nat, 8));
    lemma_number_at(bytes, 48, 8, record.cd_offset as nat);
}

/// Everything that a Zip64 end of central directory locator says is read back from its 20 bytes.
pub proof fn law_zip64_locator_reads_back(locator: Zip64EndOfCentralDirectoryLocator)
    ensures
        ({
            let bytes = locator.spec_packed();
            &&& bytes.len() == 20
            &&& number_at(bytes, 0, 4) == locator.signature
            &&& number_at(bytes, 4, 4) == locator.start_of_cd_disk_number
            &&& number_at(bytes, 8, 8) == locator.zip64_eocd_offset
            &&& number_at(bytes, 16, 4) == locator.number_of_disks
        }),
{
    broadcast use lemma_le_bytes_len;

    lemma_le_limits();
    let bytes = locator.spec_packed();
    locator.lemma_packed_len();
    assert(bytes.subrange(0, 4) =~= le_bytes(locator.signature as nat, 4));
    lemma_number_at(bytes, 0, 4, locator.signature as nat);
    assert(bytes.subrange(4, 8) =~= le_bytes(locator.start_of_cd_disk_number as nat, 4));
    lemma_number_at(bytes, 4, 4, locator.start_of_cd_disk_number as nat);
    assert(bytes.subrange(8, 16) =~= le_bytes(locator.zip64_eocd_offset as nat, 8));
    lemma_number_at(bytes, 8, 8, locator.zip64_eocd_offset as nat);
    assert(bytes.subrange(16, 20) =~= le_bytes(locator.number_of_disks as nat, 4));
    lemma_number_at(bytes, 16, 4, locator.number_of_disks as nat);
}

/// Everything that an end of central directory record says is read back from its 22 bytes.
pub proof fn law_end_record_reads_back(record: EndOfCentralDirectory)
    ensures
        ({
            let bytes = record.spec_packed();
            &&& bytes.len() == 22
            &&& number_at(bytes, 0, 4) == record.signature
            &&& number_at(bytes, 4, 2) == record.this_disk_number
            &&& number_at(bytes, 6, 2) == record.start_of_cd_disk_number
            &&& number_at(bytes, 8, 2) == record.this_cd_entry_count
            &&& number_at(bytes, 10, 2) == record.total_cd_entry_count
            &&& number_at(bytes, 12, 4) == record.size_of_cd
            &&& number_at(bytes, 16, 4) == record.cd_offset
            &&& number_at(bytes, 20, 2) == record.file_comment_length
        }),
{
    broadcast use lemma_le_bytes_len;

    lemma_le_limits();
    let bytes = record.spec_packed();
    record.lemma_packed_len();
    assert(bytes.subrange(0, 4) =~= le_bytes(record.signature as nat, 4));
    lemma_number_at(bytes, 0, 4, record.signature as nat);
    assert(bytes.subrange(4, 6) =~= le_bytes(record.this_disk_number as nat, 2));
    lemma_number_at(bytes, 4, 2, record.this_disk_number as nat);
    assert(bytes.subrange(6, 8) =~= le_bytes(record.start_of_cd_disk_number as nat, 2));
    lemma_number_at(bytes, 6, 2, record.start_of_cd_disk_number as nat);
    assert(bytes.subrange(8, 10) =~= le_bytes(record.this_cd_entry_count as nat, 2));
    lemma_number_at(bytes, 8, 2, record.this_cd_entry_count as nat);
    assert(bytes.subrange(10, 12) =~= le_bytes(record.total_cd_entry_count as nat, 2));
    lemma_number_at(bytes, 10, 2, record.total_cd_entry_count as nat);
    assert(bytes.subrange(12, 16) =~= le_bytes(record.size_of_cd as nat, 4));
    lemma_number_at(bytes, 12, 4, record.size_of_cd as nat);
    assert(bytes.subrange(16, 20) =~= le_bytes(record.cd_offset as nat, 4));
    lemma_number_at(bytes, 16, 4, record.cd_offset as nat);
    assert(bytes.subrange(20, 22) =~= le_bytes(record.file_comment_length as nat, 2));
    lemma_number_at(bytes, 20, 2, record.file_comment_length as nat);
}

} // verus!
