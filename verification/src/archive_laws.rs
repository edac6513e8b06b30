//! How an archive is unpacked.

use crate::builder::{all_data_exact, Builder, BuilderEntry};
use crate::chunk::Chunk;
use crate::crc32::crc32_of;
use crate::entry_data::{bytes_contents, EntryData};
use crate::layout::{
    all_complete, archive, archive_eocd, archive_size, cd_length, cd_start, entry_offset, eocd,
    eocd_start, lemma_archive_len, lemma_archive_size_push, lemma_entry_offset_monotonic,
    plain_eocd, zip64_eocd_locator, zip64_eocd_record, FileView,
};
use crate::proptest::test_files;
use crate::reader::Reader;
use crate::record_laws::{
    law_central_directory_header_reads_back, law_data_descriptor_reads_back,
    law_end_record_reads_back, law_local_file_header_reads_back, law_zip64_end_record_reads_back,
    law_zip64_extra_field_reads_back, law_zip64_locator_reads_back, lemma_number_within, number_at,
};
use crate::structs::PackedStructZippityExt;
use bytes::Bytes;
use vstd::prelude::*;

verus! {

/// A local header says that the entry is stored without compression and that a data descriptor
/// follows, and gives name, date and time, and where it stands itself.
pub proof fn law_local_header_says(file: FileView, offset: u64)
    requires
        file.name.len() <= 65535,
    ensures
        ({
            let bytes = file.local_header(offset as nat);
            let name_len = file.name.len() as int;
            let field = 30 + name_len;
            &&& bytes.len() == field + 28
            &&& number_at(bytes, 0, 4) == 0x04034b50
            &&& number_at(bytes, 4, 2) == 45
            &&& number_at(bytes, 6, 2) == 8
            &&& number_at(bytes, 8, 2) == 0
            &&& number_at(bytes, 10, 2) == file.datetime.time
            &&& number_at(bytes, 12, 2) == file.datetime.date
            &&& number_at(bytes, 14, 4) == 0
            &&& number_at(bytes, 18, 4) == 0xffff_ffff
            &&& number_at(bytes, 22, 4) == 0xffff_ffff
            &&& number_at(bytes, 26, 2) == name_len
            &&& number_at(bytes, 28, 2) == 28
            &&& bytes.subrange(30, field) == file.name
            &&& number_at(bytes, field, 2) == 1
            &&& number_at(bytes, field + 2, 2) == 24
            &&& number_at(bytes, field + 4, 8) == 0
            &&& number_at(bytes, field + 12, 8) == 0
            &&& number_at(bytes, field + 20, 8) == offset
        }),
{
    reveal(FileView::local_header);
    let bytes = file.local_header(offset as nat);
    let name_len = file.name.len() as int;
    let field = 30 + name_len;
    let fixed = file.local_file_header();
    let extra = file.zip64_extra_field(0, offset);
    law_local_file_header_reads_back(fixed);
    law_zip64_extra_field_reads_back(extra);
    let head = fixed.spec_packed();
    let tail = extra.spec_packed();
    assert(bytes.subrange(0, 30) =~= head);
    assert(bytes.subrange(field, field + 28) =~= tail);
    assert(bytes.subrange(30, field) =~= file.name);
    lemma_number_within(bytes, 0, head, 0, 4);
    lemma_number_within(bytes, 0, head, 4, 2);
    lemma_number_within(bytes, 0, head, 6, 2);
    lemma_number_within(bytes, 0, head, 8, 2);
    lemma_number_within(bytes, 0, head, 10, 2);
    lemma_number_within(bytes, 0, head, 12, 2);
    lemma_number_within(bytes, 0, head, 14, 4);
    lemma_number_within(bytes, 0, head, 18, 4);
    lemma_number_within(bytes, 0, head, 22, 4);
    lemma_number_within(bytes, 0, head, 26, 2);
    lemma_number_within(bytes, 0, head, 28, 2);
    lemma_number_within(bytes, field, tail, 0, 2);
    lemma_number_within(bytes, field, tail, 2, 2);
    lemma_number_within(bytes, field, tail, 4, 8);
    lemma_number_within(bytes, field, tail, 12, 8);
    lemma_number_within(bytes, field, tail, 20, 8);
}

/// A data descriptor gives the checksum and twice the size: data is only stored.
pub proof fn law_descriptor_says(file: FileView)
    ensures
        ({
            let bytes = file.descriptor();
            &&& bytes.len() == 24
            &&& number_at(bytes, 0, 4) == 0x08074b50
            &&& number_at(bytes, 4, 4) == file.crc32
            &&& number_at(bytes, 8, 8) == file.size
            &&& number_at(bytes, 16, 8) == file.size
        }),
{
    reveal(FileView::descriptor);
    law_data_descriptor_reads_back(file.data_descriptor());
}

/// A header of the central directory gives everything that is known of an entry. Sizes and offset
/// stand in its Zip64 field, and both sizes are the same: data is only stored.
pub proof fn law_directory_header_says(file: FileView, offset: u64)
    requires
        file.name.len() <= 65535,
    ensures
        ({
            let bytes = file.cd_header(offset as nat);
            let name_len = file.name.len() as int;
            let field = 46 + name_len;
            &&& bytes.len() == field + 28
            &&& number_at(bytes, 0, 4) == 0x02014b50
            &&& number_at(bytes, 4, 1) == 45
            &&& number_at(bytes, 5, 1) == 3
            &&& number_at(bytes, 6, 2) == 45
            &&& number_at(bytes, 8, 2) == 0
            &&& number_at(bytes, 10, 2) == 0
            &&& number_at(bytes, 12, 2) == file.datetime.time
            &&& number_at(bytes, 14, 2) == file.datetime.date
            &&& number_at(bytes, 16, 4) == file.crc32
            &&& number_at(bytes, 20, 4) == 0xffff_ffff
            &&& number_at(bytes, 24, 4) == 0xffff_ffff
            &&& number_at(bytes, 28, 2) == name_len
            &&& number_at(bytes, 30, 2) == 28
            &&& number_at(bytes, 32, 2) == 0
            &&& number_at(bytes, 34, 2) == 0xffff
            &&& number_at(bytes, 36, 2) == 0
            &&& number_at(bytes, 38, 4) == file.external_attributes
            &&& number_at(bytes, 42, 4) == 0xffff_ffff
            &&& bytes.subrange(46, field) == file.name
            &&& number_at(bytes, field, 2) == 1
            &&& number_at(bytes, field + 2, 2) == 24
            &&& number_at(bytes, field + 4, 8) == file.size
            &&& number_at(bytes, field + 12, 8) == file.size
            &&& number_at(bytes, field + 20, 8) == offset
        }),
{
    reveal(FileView::cd_header);
    let bytes = file.cd_header(offset as nat);
    let name_len = file.name.len() as int;
    let field = 46 + name_len;
    let fixed = file.central_directory_header();
    let extra = file.zip64_extra_field(file.size, offset);
    law_central_directory_header_reads_back(fixed);
    law_zip64_extra_field_reads_back(extra);
    let head = fixed.spec_packed();
    let tail = extra.spec_packed();
    assert(bytes.subrange(0, 46) =~= head);
    assert(bytes.subrange(field, field + 28) =~= tail);
    assert(bytes.subrange(46, field) =~= file.name);
    lemma_number_within(bytes, 0, head, 0, 4);
    lemma_number_within(bytes, 0, head, 4, 1);
    lemma_number_within(bytes, 0, head, 5, 1);
    lemma_number_within(bytes, 0, head, 6, 2);
    lemma_number_within(bytes, 0, head, 8, 2);
    lemma_number_within(bytes, 0, head, 10, 2);
    lemma_number_within(bytes, 0, head, 12, 2);
    lemma_number_within(bytes, 0, head, 14, 2);
    lemma_number_within(bytes, 0, head, 16, 4);
    lemma_number_within(bytes, 0, head, 20, 4);
    lemma_number_within(bytes, 0, head, 24, 4);
    lemma_number_within(bytes, 0, head, 28, 2);
    lemma_number_within(bytes, 0, head, 30, 2);
    lemma_number_within(bytes, 0, head, 32, 2);
    lemma_number_within(bytes, 0, head, 34, 2);
    lemma_number_within(bytes, 0, head, 36, 2);
    lemma_number_within(bytes, 0, head, 38, 4);
    lemma_number_within(bytes, 0, head, 42, 4);
    lemma_number_within(bytes, field, tail, 0, 2);
    lemma_number_within(bytes, field, tail, 2, 2);
    lemma_number_within(bytes, field, tail, 4, 8);
    lemma_number_within(bytes, field, tail, 12, 8);
    lemma_number_within(bytes, field, tail, 20, 8);
}

/// The closing records say how many entries there are, and where the central directory and the
/// Zip64 record stand. The archive is on one disk, and has no comment.
pub proof fn law_closing_records_say(count: u64, cd_offset: u64, cd_size: u64, eocd_offset: u64)
    ensures
        ({
            let bytes = eocd(count as nat, cd_offset as nat, cd_size as nat, eocd_offset as nat);
            &&& bytes.len() == 98
            &&& number_at(bytes, 0, 4) == 0x06064b50
            &&& number_at(bytes, 4, 8) == 44
            &&& number_at(bytes, 12, 1) == 45
            &&& number_at(bytes, 13, 1) == 3
            &&& number_at(bytes, 14, 2) == 45
            &&& number_at(bytes, 16, 4) == 0
            &&& number_at(bytes, 20, 4) == 0
            &&& number_at(bytes, 24, 8) == count
            &&& number_at(bytes, 32, 8) == count
            &&& number_at(bytes, 40, 8) == cd_size
            &&& number_at(bytes, 48, 8) == cd_offset
            &&& number_at(bytes, 56, 4) == 0x07064b50
            &&& number_at(bytes, 60, 4) == 0
            &&& number_at(bytes, 64, 8) == eocd_offset
            &&& number_at(bytes, 72, 4) == 1
            &&& number_at(bytes, 76, 4) == 0x06054b50
            &&& number_at(bytes, 80, 2) == 0
            &&& number_at(bytes, 82, 2) == 0
            &&& number_at(bytes, 84, 2) == 0xffff
            &&& number_at(bytes, 86, 2) == 0xffff
            &&& number_at(bytes, 88, 4) == 0xffff_ffff
            &&& number_at(bytes, 92, 4) == 0xffff_ffff
            &&& number_at(bytes, 96, 2) == 0
        }),
{
    reveal(eocd);
    let bytes = eocd(count as nat, cd_offset as nat, cd_size as nat, eocd_offset as nat);
    let record = zip64_eocd_record(count, cd_offset, cd_size);
    let locator = zip64_eocd_locator(eocd_offset);
    let end = plain_eocd();
    law_zip64_end_record_reads_back(record);
    law_zip64_locator_reads_back(locator);
    law_end_record_reads_back(end);
    let (first, second, third) = (record.spec_packed(), locator.spec_packed(), end.spec_packed());
    assert(bytes.subrange(0, 56) =~= first);
    assert(bytes.subrange(56, 76) =~= second);
    assert(bytes.subrange(76, 98) =~= third);
    lemma_number_within(bytes, 0, first, 0, 4);
    lemma_number_within(bytes, 0, first, 4, 8);
    lemma_number_within(bytes, 0, first, 12, 1);
    lemma_number_within(bytes, 0, first, 13, 1);
    lemma_number_within(bytes, 0, first, 14, 2);
    lemma_number_within(bytes, 0, first, 16, 4);
    lemma_number_within(bytes, 0, first, 20, 4);
    lemma_number_within(bytes, 0, first, 24, 8);
    lemma_number_within(bytes, 0, first, 32, 8);
    lemma_number_within(bytes, 0, first, 40, 8);
    lemma_number_within(bytes, 0, first, 48, 8);
    lemma_number_within(bytes, 56, second, 0, 4);
    lemma_number_within(bytes, 56, second, 4, 4);
    lemma_number_within(bytes, 56, second, 8, 8);
    lemma_number_within(bytes, 56, second, 16, 4);
    lemma_number_within(bytes, 76, third, 0, 4);
    lemma_number_within(bytes, 76, third, 4, 2);
    lemma_number_within(bytes, 76, third, 6, 2);
    lemma_number_within(bytes, 76, third, 8, 2);
    lemma_number_within(bytes, 76, third, 10, 2);
    lemma_number_within(bytes, 76, third, 12, 4);
    lemma_number_within(bytes, 76, third, 16, 4);
    lemma_number_within(bytes, 76, third, 20, 2);
}

/// Where the Zip64 end of central directory record of an archive stands, by its locator.
pub open spec fn end_place(bytes: Seq<u8>) -> int {
    number_at(bytes, bytes.len() - 34, 8) as int
}

/// How many entries an archive says it has.
pub open spec fn unpacked_count(bytes: Seq<u8>) -> nat {
    number_at(bytes, end_place(bytes) + 32, 8)
}

/// Where a header of the central directory stands: the first one where the closing records say, and
/// each of the others behind the one before it, with its name, its extra fields and its comment.
pub open spec fn header_place(bytes: Seq<u8>, i: nat) -> int
    decreases i,
{
    if i == 0 {
        number_at(bytes, end_place(bytes) + 48, 8) as int
    } else {
        let before = header_place(bytes, (i - 1) as nat);
        before + 46 + number_at(bytes, before + 28, 2) + number_at(bytes, before + 30, 2)
            + number_at(bytes, before + 32, 2)
    }
}

/// An entry as it comes out of an archive.
pub ghost struct Unpacked {
    pub name: Seq<u8>,
    pub content: Seq<u8>,
    pub crc32: nat,
    pub time: nat,
    pub date: nat,
    pub external_attributes: nat,
}

/// Where the Zip64 field of the header of an entry stands.
pub open spec fn field_place(bytes: Seq<u8>, i: nat) -> int {
    let header = header_place(bytes, i);
    header + 46 + number_at(bytes, header + 28, 2)
}

/// Where the local header of an entry stands, by the central directory.
pub open spec fn local_place(bytes: Seq<u8>, i: nat) -> int {
    number_at(bytes, field_place(bytes, i) + 20, 8) as int
}

/// Where the content of an entry stands: behind its local header, with its name and extra fields.
pub open spec fn content_place(bytes: Seq<u8>, i: nat) -> int {
    let local = local_place(bytes, i);
    local + 30 + number_at(bytes, local + 26, 2) + number_at(bytes, local + 28, 2)
}

/// How long the stored content of an entry is, by the central directory.
pub open spec fn stored_size(bytes: Seq<u8>, i: nat) -> int {
    number_at(bytes, field_place(bytes, i) + 12, 8) as int
}

/// What comes out of an archive as its entry `i`, by the central directory.
pub open spec fn unpacked(bytes: Seq<u8>, i: nat) -> Unpacked {
    let header = header_place(bytes, i);
    let content = content_place(bytes, i);
    Unpacked {
        name: bytes.subrange(header + 46, field_place(bytes, i)),
        content: bytes.subrange(content, content + stored_size(bytes, i)),
        crc32: number_at(bytes, header + 16, 4),
        time: number_at(bytes, header + 12, 2),
        date: number_at(bytes, header + 14, 2),
        external_attributes: number_at(bytes, header + 38, 4),
    }
}

/// The closing records stand at the end, and say what they should.
proof fn lemma_end_says(files: Seq<FileView>)
    requires
        all_complete(files),
        files.len() <= usize::MAX,
        archive(files).len() <= u64::MAX,
    ensures
        ({
            let bytes = archive(files);
            let end = end_place(bytes);
            &&& bytes.len() == archive_size(files)
            &&& end == eocd_start(files)
            &&& end == bytes.len() - 98
            &&& number_at(bytes, end, 4) == 0x06064b50
            &&& number_at(bytes, end + 24, 8) == files.len()
            &&& number_at(bytes, end + 32, 8) == files.len()
            &&& number_at(bytes, end + 40, 8) == cd_length(files, files.len())
            &&& number_at(bytes, end + 48, 8) == cd_start(files)
            &&& number_at(bytes, bytes.len() - 42, 4) == 0x07064b50
            &&& number_at(bytes, bytes.len() - 22, 4) == 0x06054b50
        }),
{
    let bytes = archive(files);
    let part = archive_eocd(files);
    lemma_archive_len(files);
    Chunk::Eocd.lemma_bytes(files);
    let start = eocd_start(files) as int;
    law_closing_records_say(
        files.len() as u64,
        cd_start(files) as u64,
        cd_length(files, files.len()) as u64,
        start as u64,
    );
    assert(bytes.subrange(start, start + part.len()) == part);
    lemma_number_within(bytes, start, part, 0, 4);
    lemma_number_within(bytes, start, part, 24, 8);
    lemma_number_within(bytes, start, part, 32, 8);
    lemma_number_within(bytes, start, part, 40, 8);
    lemma_number_within(bytes, start, part, 48, 8);
    lemma_number_within(bytes, start, part, 56, 4);
    lemma_number_within(bytes, start, part, 64, 8);
    lemma_number_within(bytes, start, part, 76, 4);
}

/// A header of the central directory stands in the archive.
proof fn lemma_header_stands(files: Seq<FileView>, i: usize)
    requires
        all_complete(files),
        i < files.len() <= usize::MAX,
        archive(files).len() <= u64::MAX,
    ensures
        ({
            let bytes = archive(files);
            let offset = entry_offset(files, i as nat);
            let header = files[i as int].cd_header(offset);
            let start = (cd_start(files) + cd_length(files, i as nat)) as int;
            &&& 0 <= start
            &&& start + header.len() <= bytes.len()
            &&& bytes.subrange(start, start + header.len()) == header
            &&& header.len() == 74 + files[i as int].name.len()
            &&& offset <= u64::MAX
        }),
{
    lemma_archive_len(files);
    lemma_entry_offset_monotonic(files, i as nat, files.len());
    assert(files[i as int].complete());
    law_directory_header_says(files[i as int], entry_offset(files, i as nat) as u64);
    Chunk::CDFileHeader { entry_index: i }.lemma_bytes(files);
    Chunk::CDFileHeader { entry_index: i }.lemma_within(files);
}

/// The headers of the central directory are found where they stand.
proof fn lemma_header_place(files: Seq<FileView>, i: nat)
    requires
        all_complete(files),
        i <= files.len() <= usize::MAX,
        archive(files).len() <= u64::MAX,
    ensures
        header_place(archive(files), i) == cd_start(files) + cd_length(files, i),
    decreases i,
{
    let bytes = archive(files);
    lemma_end_says(files);
    if i > 0 {
        let before = (i - 1) as nat;
        lemma_header_place(files, before);
        lemma_header_stands(files, before as usize);
        let file = files[before as int];
        let offset = entry_offset(files, before);
        let header = file.cd_header(offset);
        let start = header_place(bytes, before);
        assert(file.complete());
        law_directory_header_says(file, offset as u64);
        lemma_number_within(bytes, start, header, 28, 2);
        lemma_number_within(bytes, start, header, 30, 2);
        lemma_number_within(bytes, start, header, 32, 2);
        assert(cd_length(files, i) == cd_length(files, before) + file.cd_header_size());
    } else {
        assert(cd_length(files, 0) == 0);
    }
}

/// An archive is closed by its records: the last bytes lead to the Zip64 record, and that says where
/// the central directory begins and how long it is. It ends where that record begins, and has as
/// many headers as there are entries.
pub proof fn law_archive_is_closed(files: Seq<FileView>)
    requires
        all_complete(files),
        files.len() <= usize::MAX,
        archive(files).len() <= u64::MAX,
    ensures
        ({
            let bytes = archive(files);
            let end = end_place(bytes);
            &&& number_at(bytes, bytes.len() - 22, 4) == 0x06054b50
            &&& number_at(bytes, bytes.len() - 42, 4) == 0x07064b50
            &&& number_at(bytes, end, 4) == 0x06064b50
            &&& end + 56 + 20 + 22 == bytes.len()
            &&& unpacked_count(bytes) == files.len()
            &&& number_at(bytes, end + 24, 8) == files.len()
            &&& header_place(bytes, unpacked_count(bytes)) == end
            &&& header_place(bytes, 0) + number_at(bytes, end + 40, 8) == end
        }),
{
    lemma_end_says(files);
    lemma_header_place(files, files.len());
    lemma_header_place(files, 0);
    assert(cd_length(files, 0) == 0);
}

/// An archive can be unpacked: what comes out as an entry has the name, content, checksum, date,
/// time and attributes that went in. Everything that the archive says of the sizes of an entry, in
/// the central directory and behind the content, is the length of its content.
#[verifier::spinoff_prover]
#[verifier::rlimit(30)]
pub proof fn law_archive_unpacks(files: Seq<FileView>, i: usize)
    requires
        all_complete(files),
        i < files.len() <= usize::MAX,
        archive(files).len() <= u64::MAX,
    ensures
        ({
            let bytes = archive(files);
            let file = files[i as int];
            let entry = unpacked(bytes, i as nat);
            let header = header_place(bytes, i as nat);
            let field = field_place(bytes, i as nat);
            let local = local_place(bytes, i as nat);
            let content = content_place(bytes, i as nat);
            let descriptor = content + entry.content.len();
            &&& entry.name == file.name
            &&& entry.content == file.content
            &&& entry.crc32 == file.crc32
            &&& entry.time == file.datetime.time
            &&& entry.date == file.datetime.date
            &&& entry.external_attributes == file.external_attributes
            &&& number_at(bytes, header, 4) == 0x02014b50
            &&& number_at(bytes, header + 10, 2) == 0
            &&& number_at(bytes, field, 2) == 1
            &&& number_at(bytes, field + 2, 2) == 24
            &&& number_at(bytes, field + 4, 8) == file.content.len()
            &&& number_at(bytes, field + 12, 8) == file.content.len()
            &&& number_at(bytes, local, 4) == 0x04034b50
            &&& number_at(bytes, local + 6, 2) == 8
            &&& number_at(bytes, local + 8, 2) == 0
            &&& number_at(bytes, local + 10, 2) == entry.time
            &&& number_at(bytes, local + 12, 2) == entry.date
            &&& bytes.subrange(local + 30, local + 30 + number_at(bytes, local + 26, 2))
                == file.name
            &&& number_at(bytes, descriptor, 4) == 0x08074b50
            &&& number_at(bytes, descriptor + 4, 4) == file.crc32
            &&& number_at(bytes, descriptor + 8, 8) == file.content.len()
            &&& number_at(bytes, descriptor + 16, 8) == file.content.len()
        }),
{
    let bytes = archive(files);
    let file = files[i as int];
    let offset = entry_offset(files, i as nat);
    let name_len = file.name.len() as int;
    assert(file.complete());
    lemma_archive_len(files);
    lemma_header_place(files, i as nat);
    lemma_header_stands(files, i);
    law_directory_header_says(file, offset as u64);
    law_local_header_says(file, offset as u64);
    law_descriptor_says(file);
    Chunk::LocalHeader { entry_index: i }.lemma_bytes(files);
    Chunk::LocalHeader { entry_index: i }.lemma_within(files);
    Chunk::FileData { entry_index: i }.lemma_bytes(files);
    Chunk::FileData { entry_index: i }.lemma_within(files);
    Chunk::DataDescriptor { entry_index: i }.lemma_bytes(files);
    Chunk::DataDescriptor { entry_index: i }.lemma_within(files);
    let header = header_place(bytes, i as nat);
    let head = file.cd_header(offset);
    lemma_number_within(bytes, header, head, 0, 4);
    lemma_number_within(bytes, header, head, 10, 2);
    lemma_number_within(bytes, header, head, 12, 2);
    lemma_number_within(bytes, header, head, 14, 2);
    lemma_number_within(bytes, header, head, 16, 4);
    lemma_number_within(bytes, header, head, 28, 2);
    lemma_number_within(bytes, header, head, 38, 4);
    lemma_number_within(bytes, header, head, 46 + name_len, 2);
    lemma_number_within(bytes, header, head, 46 + name_len + 2, 2);
    lemma_number_within(bytes, header, head, 46 + name_len + 4, 8);
    lemma_number_within(bytes, header, head, 46 + name_len + 12, 8);
    lemma_number_within(bytes, header, head, 46 + name_len + 20, 8);
    let field = field_place(bytes, i as nat);
    assert(field == header + 46 + name_len);
    assert(bytes.subrange(header + 46, field) =~= head.subrange(46, 46 + name_len));
    let local = local_place(bytes, i as nat);
    assert(local == offset);
    let local_head = file.local_header(offset);
    assert(bytes.subrange(local, local + local_head.len()) == local_head);
    lemma_number_within(bytes, local, local_head, 0, 4);
    lemma_number_within(bytes, local, local_head, 6, 2);
    lemma_number_within(bytes, local, local_head, 8, 2);
    lemma_number_within(bytes, local, local_head, 10, 2);
    lemma_number_within(bytes, local, local_head, 12, 2);
    lemma_number_within(bytes, local, local_head, 26, 2);
    lemma_number_within(bytes, local, local_head, 28, 2);
    assert(bytes.subrange(local + 30, local + 30 + name_len) =~= local_head.subrange(
        30,
        30 + name_len,
    ));
    let content = content_place(bytes, i as nat);
    assert(content == offset + 58 + name_len);
    assert(stored_size(bytes, i as nat) == file.size);
    let descriptor = content + file.size;
    let tail = file.descriptor();
    assert(bytes.subrange(descriptor, descriptor + tail.len()) == tail);
    lemma_number_within(bytes, descriptor, tail, 0, 4);
    lemma_number_within(bytes, descriptor, tail, 4, 4);
    lemma_number_within(bytes, descriptor, tail, 8, 8);
    lemma_number_within(bytes, descriptor, tail, 16, 8);
}

/// Entries stand one behind the other without gaps: the first at the start of the archive, each of
/// the others behind the data descriptor of the one before it, and the central directory behind the
/// last.
pub proof fn law_entries_leave_no_gaps(files: Seq<FileView>, i: usize)
    requires
        all_complete(files),
        i < files.len() <= usize::MAX,
        archive(files).len() <= u64::MAX,
    ensures
        ({
            let bytes = archive(files);
            let behind = content_place(bytes, i as nat) + files[i as int].content.len() + 24;
            &&& local_place(bytes, 0) == 0
            &&& behind == (if i + 1 < files.len() {
                local_place(bytes, (i + 1) as nat)
            } else {
                header_place(bytes, 0)
            })
        }),
{
    lemma_places(files, 0);
    lemma_places(files, i);
    lemma_header_place(files, 0);
    assert(cd_length(files, 0) == 0);
    assert(files[i as int].complete());
    assert(entry_offset(files, 0) == 0);
    assert(entry_offset(files, (i + 1) as nat) == entry_offset(files, i as nat)
        + files[i as int].local_size());
    if i + 1 < files.len() {
        lemma_places(files, (i + 1) as usize);
    }
}

/// Where an entry is found.
proof fn lemma_places(files: Seq<FileView>, i: usize)
    requires
        all_complete(files),
        i < files.len() <= usize::MAX,
        archive(files).len() <= u64::MAX,
    ensures
        local_place(archive(files), i as nat) == entry_offset(files, i as nat),
        content_place(archive(files), i as nat) == entry_offset(files, i as nat) + 58
            + files[i as int].name.len(),
{
    let bytes = archive(files);
    let file = files[i as int];
    let offset = entry_offset(files, i as nat);
    let name_len = file.name.len() as int;
    assert(file.complete());
    lemma_archive_len(files);
    lemma_header_place(files, i as nat);
    lemma_header_stands(files, i);
    law_directory_header_says(file, offset as u64);
    law_local_header_says(file, offset as u64);
    Chunk::LocalHeader { entry_index: i }.lemma_bytes(files);
    Chunk::LocalHeader { entry_index: i }.lemma_within(files);
    let header = header_place(bytes, i as nat);
    let head = file.cd_header(offset);
    lemma_number_within(bytes, header, head, 28, 2);
    lemma_number_within(bytes, header, head, 46 + name_len + 20, 8);
    let local = local_place(bytes, i as nat);
    assert(local == offset);
    let local_head = file.local_header(offset);
    assert(bytes.subrange(local, local + local_head.len()) == local_head);
    lemma_number_within(bytes, local, local_head, 26, 2);
    lemma_number_within(bytes, local, local_head, 28, 2);
}

/// What goes into a builder comes out of the archive that is built: names in UTF-8, contents,
/// checksums as they were given or else those of the contents, and dates as they were set or else
/// 1980-01-01T00:00:00.
pub proof fn law_built_archive_unpacks<D: EntryData>(
    builder: Builder<D>,
    reader: Reader<D>,
    i: usize,
)
    requires
        builder.wf(),
        reader.wf(),
        reader.files() == builder.files(),
        all_data_exact(builder.spec_entries()),
        i < builder.spec_entries().len(),
    ensures
        ({
            let bytes = reader.bytes();
            let (name, added) = builder.spec_entries()[i as int];
            let meta = added.spec_meta();
            let entry = unpacked(bytes, i as nat);
            &&& bytes.len() == builder.spec_size()
            &&& unpacked_count(bytes) == builder.spec_entries().len()
            &&& entry.name == vstd::utf8::encode_utf8(name)
            &&& entry.content == added.spec_data().content()
            &&& meta.crc32 matches Some(crc32) ==> entry.crc32 == crc32
            &&& meta.crc32 is None ==> entry.crc32 == crc32_of(added.spec_data().content())
            &&& meta.datetime matches Some(datetime) ==> entry.time == datetime.time && entry.date
                == datetime.date
            &&& meta.datetime is None ==> entry.time == 0 && entry.date == 32 + 1
            &&& entry.external_attributes == crate::builder::external_attributes(
                meta.file_type,
                meta.permissions,
            )
        }),
{
    let files = builder.files();
    let entries = builder.spec_entries();
    assert forall|j: int| 0 <= j < files.len() implies (#[trigger] files[j]).complete() by {
        assert(entries[j].1.exact());
        assert(!crate::builder::too_long(entries[j].0));
    }
    lemma_archive_len(files);
    assert(reader.spec_entries().len() == files.len());
    law_archive_is_closed(files);
    law_archive_unpacks(files, i);
    assert(files[i as int] == entries[i as int].1.file_view(entries[i as int].0));
}

/// What entries are tried on comes out of their archive: names, contents and their checksums, as
/// files that the owner can write, of 1980-01-01T00:00:00.
pub proof fn law_test_archive_unpacks(entries: Seq<(String, Bytes)>, i: usize)
    requires
        i < entries.len() <= usize::MAX,
        all_complete(test_files(entries)),
        archive(test_files(entries)).len() <= u64::MAX,
    ensures
        ({
            let bytes = archive(test_files(entries));
            let content = bytes_contents(entries[i as int].1);
            let entry = unpacked(bytes, i as nat);
            &&& unpacked_count(bytes) == entries.len()
            &&& entry.name == vstd::utf8::encode_utf8(entries[i as int].0@)
            &&& entry.content == content
            &&& entry.crc32 == crc32_of(content)
            &&& entry.time == 0
            &&& entry.date == 32 + 1
            &&& entry.external_attributes == 0o100_644 * 0x1_0000
        }),
{
    let files = test_files(entries);
    law_archive_is_closed(files);
    law_archive_unpacks(files, i);
}

/// The size of an archive without entries is that of the closing records. Each entry adds its
/// content, its name twice, and 156 bytes, whatever comes before it.
pub proof fn law_sizes_add_up(files: Seq<FileView>, file: FileView)
    ensures
        archive_size(Seq::<FileView>::empty()) == 98,
        archive_size(files.push(file)) == archive_size(files) + file.size + 2 * file.name.len()
            + 156,
{
    assert(entry_offset(Seq::<FileView>::empty(), 0) == 0);
    assert(cd_length(Seq::<FileView>::empty(), 0) == 0);
    lemma_archive_size_push(files, file);
}

/// The size that an archive would have with one entry more is the size it has then.
pub proof fn law_size_with_is_size<D: EntryData>(
    builder: Builder<D>,
    name: Seq<char>,
    entry: BuilderEntry<D>,
)
    requires
        builder.wf(),
    ensures
        builder.size_with(name, entry.spec_size()) == archive_size(
            builder.files().push(entry.file_view(name)),
        ),
        builder.size_with(name, entry.spec_size()) - builder.spec_size() == entry.spec_size() + 2
            * vstd::utf8::encode_utf8(name).len() + 156,
{
    law_sizes_add_up(builder.files(), entry.file_view(name));
}

} // verus!
