//! What an archive consists of, byte for byte.
//!
//! An archive begins with the entries, one after the other: for each a local header, the data
//! and a data descriptor. The central directory repeats the headers of all entries. The end of
//! central directory records close the archive.

use crate::structs::{
    CentralDirectoryHeader, Compression, DataDescriptor64, DosDatetime, EndOfCentralDirectory,
    GpBitFlag, LocalFileHeader, PackedStructZippityExt, VersionMadeBy, VersionMadeByOs,
    Zip64EndOfCentralDirectoryLocator, Zip64EndOfCentralDirectoryRecord, Zip64ExtraField,
};
use vstd::prelude::*;

verus! {

/// Minimum version needed to extract the zip64 extensions that every archive uses.
pub const ZIP64_VERSION_TO_EXTRACT: u8 = 45;

/// What an archive says of one entry, and holds for it.
#[verifier::ext_equal]
pub ghost struct FileView {
    pub name: Seq<u8>,
    /// The size that the headers give.
    pub size: u64,
    pub content: Seq<u8>,
    pub crc32: u32,
    pub datetime: DosDatetime,
    pub external_attributes: u32,
}

impl FileView {
    /// The name fits into a header.
    pub open spec fn name_fits(self) -> bool {
        self.name.len() <= u16::MAX
    }

    /// The name fits into a header, and the content has the size that the headers give.
    pub open spec fn complete(self) -> bool {
        &&& self.name_fits()
        &&& self.content.len() == self.size
    }

    /// Size of the local header.
    pub open spec fn local_header_size(self) -> nat {
        30 + self.name.len() + 28
    }

    /// Size of everything that precedes the central directory: local header, content and data
    /// descriptor.
    pub open spec fn local_size(self) -> nat {
        self.local_header_size() + self.size as nat + 24
    }

    /// Size of the header in the central directory.
    pub open spec fn cd_header_size(self) -> nat {
        46 + self.name.len() + 28
    }

    /// The fixed part of the local header. Sizes and checksum follow the data.
    pub open spec fn local_file_header(self) -> LocalFileHeader {
        LocalFileHeader {
            signature: LocalFileHeader::SIGNATURE,
            version_to_extract: ZIP64_VERSION_TO_EXTRACT as u16,
            flags: GpBitFlag { use_data_descriptor: true, language_encoding: false },
            compression: Compression::Store,
            last_mod_datetime: self.datetime,
            crc32: 0,
            compressed_size: u32::MAX,
            uncompressed_size: u32::MAX,
            file_name_len: self.name.len() as u16,
            extra_field_len: 28,
        }
    }

    /// The Zip64 field of a header, 4 bytes of which are not part of the size it gives.
    pub open spec fn zip64_extra_field(self, size: u64, offset: u64) -> Zip64ExtraField {
        Zip64ExtraField {
            tag: Zip64ExtraField::TAG,
            size: 24,
            uncompressed_size: size,
            compressed_size: size,
            offset,
        }
    }

    /// What follows the content.
    pub open spec fn data_descriptor(self) -> DataDescriptor64 {
        DataDescriptor64 {
            signature: DataDescriptor64::SIGNATURE,
            crc32: self.crc32,
            compressed_size: self.size,
            uncompressed_size: self.size,
        }
    }

    /// The fixed part of the header in the central directory. Sizes and offset are in the Zip64
    /// field.
    pub open spec fn central_directory_header(self) -> CentralDirectoryHeader {
        CentralDirectoryHeader {
            signature: CentralDirectoryHeader::SIGNATURE,
            version_made_by: VersionMadeBy {
                os: VersionMadeByOs::Unix,
                spec_version: ZIP64_VERSION_TO_EXTRACT,
            },
            version_to_extract: ZIP64_VERSION_TO_EXTRACT as u16,
            flags: GpBitFlag { use_data_descriptor: false, language_encoding: false },
            compression: Compression::Store,
            last_mod_datetime: self.datetime,
            crc32: self.crc32,
            compressed_size: u32::MAX,
            uncompressed_size: u32::MAX,
            file_name_len: self.name.len() as u16,
            extra_field_len: 28,
            file_comment_length: 0,
            disk_number_start: u16::MAX,
            internal_attributes: 0,
            external_attributes: self.external_attributes,
            local_header_offset: u32::MAX,
        }
    }

    /// The local header of an entry at `offset`.
    #[verifier::opaque]
    pub open spec fn local_header(self, offset: nat) -> Seq<u8> {
        self.local_file_header().spec_packed() + self.name + self.zip64_extra_field(
            0,
            offset as u64,
        ).spec_packed()
    }

    /// The data descriptor.
    #[verifier::opaque]
    pub open spec fn descriptor(self) -> Seq<u8> {
        self.data_descriptor().spec_packed()
    }

    /// The header in the central directory of an entry at `offset`.
    #[verifier::opaque]
    pub open spec fn cd_header(self, offset: nat) -> Seq<u8> {
        self.central_directory_header().spec_packed() + self.name + self.zip64_extra_field(
            self.size,
            offset as u64,
        ).spec_packed()
    }

    /// Everything of an entry at `offset` that precedes the central directory.
    pub open spec fn local_entry(self, offset: nat) -> Seq<u8> {
        self.local_header(offset) + self.content + self.descriptor()
    }

    /// The headers have the sizes that are reckoned with.
    pub proof fn lemma_header_lens(self, offset: nat)
        ensures
            self.local_header(offset).len() == self.local_header_size(),
            self.descriptor().len() == 24,
            self.cd_header(offset).len() == self.cd_header_size(),
    {
        reveal(FileView::local_header);
        reveal(FileView::descriptor);
        reveal(FileView::cd_header);
        self.local_file_header().lemma_packed_len();
        self.zip64_extra_field(0, offset as u64).lemma_packed_len();
        self.zip64_extra_field(self.size, offset as u64).lemma_packed_len();
        self.data_descriptor().lemma_packed_len();
        self.central_directory_header().lemma_packed_len();
    }
}

/// Where the entry `i` begins, and where the `i` entries before it end.
pub open spec fn entry_offset(files: Seq<FileView>, i: nat) -> nat
    decreases i,
{
    if i == 0 {
        0
    } else {
        entry_offset(files, (i - 1) as nat) + files[i - 1].local_size()
    }
}

/// The combined size of the first `i` headers of the central directory.
pub open spec fn cd_length(files: Seq<FileView>, i: nat) -> nat
    decreases i,
{
    if i == 0 {
        0
    } else {
        cd_length(files, (i - 1) as nat) + files[i - 1].cd_header_size()
    }
}

/// Where the central directory begins.
pub open spec fn cd_start(files: Seq<FileView>) -> nat {
    entry_offset(files, files.len())
}

/// Where the central directory ends.
pub open spec fn eocd_start(files: Seq<FileView>) -> nat {
    cd_start(files) + cd_length(files, files.len())
}

/// The size of the archive.
pub open spec fn archive_size(files: Seq<FileView>) -> nat {
    eocd_start(files) + 98
}

/// The first `n` entries.
pub open spec fn local_part(files: Seq<FileView>, n: nat) -> Seq<u8>
    decreases n,
{
    if n == 0 {
        Seq::empty()
    } else {
        local_part(files, (n - 1) as nat) + files[n - 1].local_entry(
            entry_offset(files, (n - 1) as nat),
        )
    }
}

/// The first `n` headers of the central directory.
pub open spec fn cd_part(files: Seq<FileView>, n: nat) -> Seq<u8>
    decreases n,
{
    if n == 0 {
        Seq::empty()
    } else {
        cd_part(files, (n - 1) as nat) + files[n - 1].cd_header(
            entry_offset(files, (n - 1) as nat),
        )
    }
}

/// The Zip64 end of central directory record. Its size field leaves out the first 12 bytes.
pub open spec fn zip64_eocd_record(
    count: u64,
    cd_offset: u64,
    cd_size: u64,
) -> Zip64EndOfCentralDirectoryRecord {
    Zip64EndOfCentralDirectoryRecord {
        signature: Zip64EndOfCentralDirectoryRecord::SIGNATURE,
        size_of_zip64_eocd: 44,
        version_made_by: VersionMadeBy {
            os: VersionMadeByOs::Unix,
            spec_version: ZIP64_VERSION_TO_EXTRACT,
        },
        version_to_extract: ZIP64_VERSION_TO_EXTRACT as u16,
        this_disk_number: 0,
        start_of_cd_disk_number: 0,
        this_cd_entry_count: count,
        total_cd_entry_count: count,
        size_of_cd: cd_size,
        cd_offset,
    }
}

/// The locator of the Zip64 end of central directory record.
pub open spec fn zip64_eocd_locator(eocd_offset: u64) -> Zip64EndOfCentralDirectoryLocator {
    Zip64EndOfCentralDirectoryLocator {
        signature: Zip64EndOfCentralDirectoryLocator::SIGNATURE,
        start_of_cd_disk_number: 0,
        zip64_eocd_offset: eocd_offset,
        number_of_disks: 1,
    }
}

/// The end of central directory record, which leaves all numbers to the Zip64 one.
pub open spec fn plain_eocd() -> EndOfCentralDirectory {
    EndOfCentralDirectory {
        signature: EndOfCentralDirectory::SIGNATURE,
        this_disk_number: 0,
        start_of_cd_disk_number: 0,
        this_cd_entry_count: u16::MAX,
        total_cd_entry_count: u16::MAX,
        size_of_cd: u32::MAX,
        cd_offset: u32::MAX,
        file_comment_length: 0,
    }
}

/// The records that close an archive.
#[verifier::opaque]
pub open spec fn eocd(count: nat, cd_offset: nat, cd_size: nat, eocd_offset: nat) -> Seq<u8> {
    zip64_eocd_record(count as u64, cd_offset as u64, cd_size as u64).spec_packed()
        + zip64_eocd_locator(eocd_offset as u64).spec_packed() + plain_eocd().spec_packed()
}

/// The closing records have the size that is reckoned with.
pub proof fn lemma_eocd_len(count: nat, cd_offset: nat, cd_size: nat, eocd_offset: nat)
    ensures
        eocd(count, cd_offset, cd_size, eocd_offset).len() == 98,
{
    reveal(eocd);
    zip64_eocd_record(count as u64, cd_offset as u64, cd_size as u64).lemma_packed_len();
    zip64_eocd_locator(eocd_offset as u64).lemma_packed_len();
    plain_eocd().lemma_packed_len();
}

/// The closing records of the archive of `files`.
pub open spec fn archive_eocd(files: Seq<FileView>) -> Seq<u8> {
    eocd(files.len(), cd_start(files), cd_length(files, files.len()), eocd_start(files))
}

/// All bytes of the archive of `files`.
pub open spec fn archive(files: Seq<FileView>) -> Seq<u8> {
    local_part(files, files.len()) + cd_part(files, files.len()) + archive_eocd(files)
}

/// All entries are complete.
pub open spec fn all_complete(files: Seq<FileView>) -> bool {
    forall|i: int| 0 <= i < files.len() ==> (#[trigger] files[i]).complete()
}

/// Later entries begin later.
pub proof fn lemma_entry_offset_monotonic(files: Seq<FileView>, i: nat, j: nat)
    requires
        i <= j <= files.len(),
    ensures
        entry_offset(files, i) <= entry_offset(files, j),
        i < j ==> entry_offset(files, i) + files[i as int].local_size() <= entry_offset(files, j),
    decreases j - i,
{
    if i < j {
        lemma_entry_offset_monotonic(files, i, (j - 1) as nat);
    }
}

/// Later headers begin later.
pub proof fn lemma_cd_length_monotonic(files: Seq<FileView>, i: nat, j: nat)
    requires
        i <= j <= files.len(),
    ensures
        cd_length(files, i) <= cd_length(files, j),
        i < j ==> cd_length(files, i) + files[i as int].cd_header_size() <= cd_length(files, j),
    decreases j - i,
{
    if i < j {
        lemma_cd_length_monotonic(files, i, (j - 1) as nat);
    }
}

/// The first `n` entries end where the next one begins.
pub proof fn lemma_local_part_len(files: Seq<FileView>, n: nat)
    requires
        all_complete(files),
        n <= files.len(),
    ensures
        local_part(files, n).len() == entry_offset(files, n),
    decreases n,
{
    if n > 0 {
        lemma_local_part_len(files, (n - 1) as nat);
        assert(files[n - 1].complete());
        files[n - 1].lemma_header_lens(entry_offset(files, (n - 1) as nat));
    }
}

/// The first `n` headers of the central directory have the size that is reckoned with.
pub proof fn lemma_cd_part_len(files: Seq<FileView>, n: nat)
    requires
        n <= files.len(),
    ensures
        cd_part(files, n).len() == cd_length(files, n),
    decreases n,
{
    if n > 0 {
        lemma_cd_part_len(files, (n - 1) as nat);
        files[n - 1].lemma_header_lens(entry_offset(files, (n - 1) as nat));
    }
}

/// Each entry stands at its offset.
pub proof fn lemma_local_part_at(files: Seq<FileView>, n: nat, i: nat)
    requires
        all_complete(files),
        i < n <= files.len(),
    ensures
        entry_offset(files, i + 1) <= local_part(files, n).len(),
        local_part(files, n).subrange(
            entry_offset(files, i) as int,
            entry_offset(files, i + 1) as int,
        ) == files[i as int].local_entry(entry_offset(files, i)),
    decreases n,
{
    lemma_local_part_len(files, n);
    lemma_local_part_len(files, (n - 1) as nat);
    lemma_entry_offset_monotonic(files, i + 1, n);
    lemma_local_part_len(files, i + 1);
    if i + 1 == n {
        assert(local_part(files, n).subrange(
            entry_offset(files, i) as int,
            entry_offset(files, n) as int,
        ) =~= files[i as int].local_entry(entry_offset(files, i)));
    } else {
        lemma_local_part_at(files, (n - 1) as nat, i);
        lemma_entry_offset_monotonic(files, i + 1, (n - 1) as nat);
        assert(local_part(files, n).subrange(
            entry_offset(files, i) as int,
            entry_offset(files, i + 1) as int,
        ) =~= local_part(files, (n - 1) as nat).subrange(
            entry_offset(files, i) as int,
            entry_offset(files, i + 1) as int,
        ));
    }
}

/// Each header of the central directory stands behind those before it.
pub proof fn lemma_cd_part_at(files: Seq<FileView>, n: nat, i: nat)
    requires
        i < n <= files.len(),
    ensures
        cd_length(files, i + 1) <= cd_part(files, n).len(),
        cd_part(files, n).subrange(cd_length(files, i) as int, cd_length(files, i + 1) as int)
            == files[i as int].cd_header(entry_offset(files, i)),
    decreases n,
{
    lemma_cd_part_len(files, n);
    lemma_cd_part_len(files, (n - 1) as nat);
    lemma_cd_length_monotonic(files, i + 1, n);
    lemma_cd_part_len(files, i + 1);
    if i + 1 == n {
        assert(cd_part(files, n).subrange(
            cd_length(files, i) as int,
            cd_length(files, n) as int,
        ) =~= files[i as int].cd_header(entry_offset(files, i)));
    } else {
        lemma_cd_part_at(files, (n - 1) as nat, i);
        lemma_cd_length_monotonic(files, i + 1, (n - 1) as nat);
        assert(cd_part(files, n).subrange(
            cd_length(files, i) as int,
            cd_length(files, i + 1) as int,
        ) =~= cd_part(files, (n - 1) as nat).subrange(
            cd_length(files, i) as int,
            cd_length(files, i + 1) as int,
        ));
    }
}

/// The size of an archive is known from the names and sizes of its entries alone.
pub proof fn lemma_archive_len(files: Seq<FileView>)
    requires
        all_complete(files),
    ensures
        archive(files).len() == archive_size(files),
{
    lemma_local_part_len(files, files.len());
    lemma_cd_part_len(files, files.len());
    lemma_eocd_len(
        files.len(),
        cd_start(files),
        cd_length(files, files.len()),
        eocd_start(files),
    );
}

/// The names and sizes of entries are the same.
pub open spec fn same_sizes(first: Seq<FileView>, second: Seq<FileView>) -> bool {
    &&& first.len() == second.len()
    &&& forall|i: int|
        0 <= i < first.len() ==> {
            &&& (#[trigger] first[i]).name == second[i].name
            &&& first[i].size == second[i].size
        }
}

/// Where the entries are depends only on the names and sizes of those before.
pub proof fn lemma_sizes_same(first: Seq<FileView>, second: Seq<FileView>, n: nat)
    requires
        n <= first.len(),
        n <= second.len(),
        forall|i: int|
            0 <= i < n ==> {
                &&& (#[trigger] first[i]).name == second[i].name
                &&& first[i].size == second[i].size
            },
    ensures
        entry_offset(first, n) == entry_offset(second, n),
        cd_length(first, n) == cd_length(second, n),
    decreases n,
{
    if n > 0 {
        lemma_sizes_same(first, second, (n - 1) as nat);
        assert(first[n - 1].name == second[n - 1].name);
    }
}

/// One entry more makes the archive longer by its headers and its data.
pub proof fn lemma_archive_size_push(files: Seq<FileView>, file: FileView)
    ensures
        archive_size(files.push(file)) == archive_size(files) + file.local_size()
            + file.cd_header_size(),
{
    let more = files.push(file);
    let n = files.len();
    lemma_sizes_same(more, files, n);
    assert(entry_offset(more, n + 1) == entry_offset(more, n) + more[n as int].local_size());
    assert(cd_length(more, n + 1) == cd_length(more, n) + more[n as int].cd_header_size());
}

/// One entry less makes what follows begin earlier by as much as that entry took.
proof fn lemma_sizes_remove(files: Seq<FileView>, i: int, n: nat)
    requires
        0 <= i < n <= files.len(),
    ensures
        entry_offset(files.remove(i), (n - 1) as nat) + files[i].local_size() == entry_offset(
            files,
            n,
        ),
        cd_length(files.remove(i), (n - 1) as nat) + files[i].cd_header_size() == cd_length(
            files,
            n,
        ),
    decreases n,
{
    let less = files.remove(i);
    if n == i + 1 {
        lemma_sizes_same(less, files, i as nat);
    } else {
        lemma_sizes_remove(files, i, (n - 1) as nat);
        assert(less[n - 2] == files[n - 1]);
    }
}

/// One entry less makes the archive shorter by its headers and its data.
pub proof fn lemma_archive_size_remove(files: Seq<FileView>, i: int)
    requires
        0 <= i < files.len(),
    ensures
        archive_size(files.remove(i)) + files[i].local_size() + files[i].cd_header_size()
            == archive_size(files),
{
    lemma_sizes_remove(files, i, files.len());
}

/// The size of the archive does not depend on the order of the entries.
pub proof fn lemma_archive_size_swap(files: Seq<FileView>, a: int, b: int)
    requires
        0 <= a < b < files.len(),
    ensures
        archive_size(files.update(a, files[b]).update(b, files[a])) == archive_size(files),
{
    let swapped = files.update(a, files[b]).update(b, files[a]);
    lemma_archive_size_remove(files, b);
    lemma_archive_size_remove(files.remove(b), a);
    lemma_archive_size_remove(swapped, b);
    lemma_archive_size_remove(swapped.remove(b), a);
    assert(swapped.remove(b).remove(a) =~= files.remove(b).remove(a));
}

/// No part of the archive is longer than all of it.
pub proof fn lemma_parts_fit(files: Seq<FileView>, n: nat)
    requires
        n <= files.len(),
    ensures
        entry_offset(files, n) + cd_length(files, n) + 98 <= archive_size(files),
        n < files.len() ==> entry_offset(files, n) + cd_length(files, n)
            + files[n as int].local_size() + files[n as int].cd_header_size() + 98
            <= archive_size(files),
{
    lemma_entry_offset_monotonic(files, n, files.len());
    lemma_cd_length_monotonic(files, n, files.len());
}

} // verus!
