//! What holds of archives, and of everything that makes them.

use crate::builder::{
    built_from, external_attributes, Builder, BuilderEntry, BuilderFileType,
    BuilderPermissions, EntryMetadata,
};
use crate::chunk::Chunk;
use crate::collect::crc32s_right;
use crate::crc32::crc32_of;
use crate::encode::{le_bytes, lemma_le_bytes_len};
use crate::entry_data::EntryData;
use crate::error::ZippityError;
use crate::filesystem_entry::{trailing_slash, trim_end, trim_start};
use crate::layout::{
    all_complete, archive, archive_eocd, archive_size, cd_length, cd_start, entry_offset,
    eocd_start, lemma_archive_len, lemma_entry_offset_monotonic, lemma_eocd_len, FileView,
};
use crate::read_state::ReadState;
use crate::reader::{known_crc32s, Reader};
use crate::reader_entry::ReaderEntry;
use crate::reading::{appended, same_but_crc32s};
use crate::responder::{RequestedRange, ResponseHead};
use crate::structs::{CentralDirectoryHeader, PackedStructZippityExt, Zip64ExtraField};
use vstd::prelude::*;

verus! {

/// The size of an archive is known before any data is read: it depends on the names of the
/// entries and the sizes that they report alone.
pub proof fn law_size_is_known_in_advance(files: Seq<FileView>, other: Seq<FileView>)
    requires
        all_complete(files),
        crate::layout::same_sizes(files, other),
    ensures
        archive(files).len() == archive_size(files),
        archive_size(files) == archive_size(other),
{
    lemma_archive_len(files);
    crate::layout::lemma_sizes_same(files, other, files.len());
}

/// The chunks that stand for an entry before the central directory have the size that is reckoned
/// with for it.
pub proof fn law_local_size_matches_chunks(files: Seq<FileView>, i: usize)
    requires
        i < files.len(),
    ensures
        ({
            let header = Chunk::LocalHeader { entry_index: i };
            let data = Chunk::FileData { entry_index: i };
            let descriptor = Chunk::DataDescriptor { entry_index: i };
            files[i as int].local_size() == header.spec_size(files) + data.spec_size(files)
                + descriptor.spec_size(files)
        }),
{
}

/// Reading in steps is reading at once: what two reads append, one after the other, is what the
/// archive holds from where the first one began.
pub proof fn law_reads_join(
    files: Seq<FileView>,
    position: int,
    first: Seq<u8>,
    second: Seq<u8>,
    third: Seq<u8>,
)
    requires
        0 <= position,
        appended(files, position, first, second),
        appended(files, position + second.len() - first.len(), second, third),
    ensures
        appended(files, position, first, third),
{
    crate::reading::lemma_appended_more(files, position, first, second, third);
}

/// Reading from any position up to the end gives the end of the archive from that position on.
pub proof fn law_read_to_end(files: Seq<FileView>, position: int, output: Seq<u8>)
    requires
        0 <= position <= archive(files).len(),
        appended(files, position, Seq::empty(), output),
        position + output.len() == archive(files).len(),
    ensures
        output == archive(files).skip(position),
{
    reveal(appended);
    assert(output =~= archive(files).skip(position));
}

/// At the end of the archive and past it there is nothing to read.
pub proof fn law_nothing_past_the_end(
    files: Seq<FileView>,
    position: int,
    before: Seq<u8>,
    after: Seq<u8>,
)
    requires
        position >= archive(files).len(),
        appended(files, position, before, after),
    ensures
        after == before,
{
    reveal(appended);
    assert(after =~= before);
}

/// The content of each entry stands unchanged in the archive, between its local header, which
/// stands at the offset of the entry, and its data descriptor.
pub proof fn law_content_stands_in_archive(files: Seq<FileView>, i: usize)
    requires
        all_complete(files),
        i < files.len(),
        files.len() <= usize::MAX,
    ensures
        ({
            let file = files[i as int];
            let offset = entry_offset(files, i as nat) as int;
            let data = offset + file.local_header_size();
            &&& data + file.size <= archive(files).len()
            &&& archive(files).subrange(offset, data) == file.local_header(offset as nat)
            &&& archive(files).subrange(data, data + file.size) == file.content
            &&& archive(files).subrange(data + file.size, data + file.size + 24)
                == file.descriptor()
        }),
{
    Chunk::LocalHeader { entry_index: i }.lemma_bytes(files);
    Chunk::FileData { entry_index: i }.lemma_bytes(files);
    Chunk::DataDescriptor { entry_index: i }.lemma_bytes(files);
}

/// The headers of the central directory stand one after the other, in the order of the entries,
/// and the closing records end the archive.
pub proof fn law_directory_stands_in_archive(files: Seq<FileView>, i: usize)
    requires
        all_complete(files),
        i < files.len(),
    ensures
        ({
            let start = cd_start(files) + cd_length(files, i as nat);
            let end = cd_start(files) + cd_length(files, (i + 1) as nat);
            &&& end <= archive(files).len()
            &&& archive(files).subrange(start as int, end as int) == files[i as int].cd_header(
                entry_offset(files, i as nat),
            )
            &&& archive(files).skip(archive(files).len() - 98) == archive_eocd(files)
        }),
{
    Chunk::CDFileHeader { entry_index: i }.lemma_bytes(files);
    Chunk::Eocd.lemma_bytes(files);
    lemma_archive_len(files);
    assert(cd_length(files, (i + 1) as nat) == cd_length(files, i as nat)
        + files[i as int].cd_header_size());
    assert(archive(files).skip(archive(files).len() - 98) =~= archive(files).subrange(
        eocd_start(files) as int,
        (eocd_start(files) + 98) as int,
    ));
}

/// The number that an encoding stands for.
pub open spec fn le_value(bytes: Seq<u8>) -> nat
    decreases bytes.len(),
{
    if bytes.len() == 0 {
        0
    } else {
        bytes[0] as nat + 256 * le_value(bytes.skip(1))
    }
}

/// How many numbers can be encoded in so many bytes.
pub open spec fn le_limit(len: nat) -> nat
    decreases len,
{
    if len == 0 {
        1
    } else {
        256 * le_limit((len - 1) as nat)
    }
}

/// A number that fits is read back from its encoding.
pub proof fn law_le_bytes_round_trip(value: nat, len: nat)
    requires
        value < le_limit(len),
    ensures
        le_value(le_bytes(value, len)) == value,
    decreases len,
{
    if len > 0 {
        law_le_bytes_round_trip(value / 256, (len - 1) as nat);
        let rest = le_bytes(value / 256, (len - 1) as nat);
        assert(le_bytes(value, len).skip(1) =~= rest);
    }
}

/// Numbers of the sizes that records hold fit.
proof fn lemma_le_limits()
    ensures
        le_limit(2) == 0x1_0000,
        le_limit(4) == 0x1_0000_0000,
        le_limit(8) == 0x1_0000_0000_0000_0000,
{
    reveal_with_fuel(le_limit, 9);
}

/// What the central directory says of an entry can be read back: the name, the checksum, the
/// sizes, and where its local header stands.
pub proof fn law_directory_header_is_readable(file: FileView, offset: u64)
    requires
        file.name_fits(),
    ensures
        ({
            let header = file.cd_header(offset as nat);
            let name_len = file.name.len() as int;
            &&& le_value(header.subrange(0, 4)) == 0x02014b50
            &&& le_value(header.subrange(12, 14)) == file.datetime.time
            &&& le_value(header.subrange(14, 16)) == file.datetime.date
            &&& le_value(header.subrange(16, 20)) == file.crc32
            &&& le_value(header.subrange(28, 30)) == name_len
            &&& le_value(header.subrange(38, 42)) == file.external_attributes
            &&& header.subrange(46, 46 + name_len) == file.name
            &&& le_value(header.subrange(50 + name_len, 58 + name_len)) == file.size
            &&& le_value(header.subrange(66 + name_len, 74 + name_len)) == offset
        }),
{
    broadcast use lemma_le_bytes_len;

    reveal(FileView::cd_header);
    lemma_le_limits();
    let fixed = file.central_directory_header();
    let extra = file.zip64_extra_field(file.size, offset);
    let header = file.cd_header(offset as nat);
    let name_len = file.name.len() as int;
    fixed.lemma_packed_len();
    extra.lemma_packed_len();
    lemma_fixed_part(fixed);
    lemma_extra_part(extra);
    assert(header.subrange(0, 4) =~= fixed.spec_packed().subrange(0, 4));
    assert(header.subrange(12, 14) =~= fixed.spec_packed().subrange(12, 14));
    assert(header.subrange(14, 16) =~= fixed.spec_packed().subrange(14, 16));
    assert(header.subrange(16, 20) =~= fixed.spec_packed().subrange(16, 20));
    assert(header.subrange(28, 30) =~= fixed.spec_packed().subrange(28, 30));
    assert(header.subrange(38, 42) =~= fixed.spec_packed().subrange(38, 42));
    assert(header.subrange(46, 46 + name_len) =~= file.name);
    assert(header.subrange(50 + name_len, 58 + name_len) =~= extra.spec_packed().subrange(4, 12));
    assert(header.subrange(66 + name_len, 74 + name_len) =~= extra.spec_packed().subrange(20, 28));
    law_le_bytes_round_trip(0x02014b50, 4);
    law_le_bytes_round_trip(file.datetime.time as nat, 2);
    law_le_bytes_round_trip(file.datetime.date as nat, 2);
    law_le_bytes_round_trip(file.crc32 as nat, 4);
    law_le_bytes_round_trip(name_len as nat, 2);
    law_le_bytes_round_trip(file.external_attributes as nat, 4);
    law_le_bytes_round_trip(file.size as nat, 8);
    law_le_bytes_round_trip(offset as nat, 8);
}

/// Where the fields stand in the fixed part of a header of the central directory.
proof fn lemma_fixed_part(header: CentralDirectoryHeader)
    ensures
        ({
            let bytes = header.spec_packed();
            &&& bytes.len() == 46
            &&& bytes.subrange(0, 4) == le_bytes(header.signature as nat, 4)
            &&& bytes.subrange(12, 14) == le_bytes(header.last_mod_datetime.time as nat, 2)
            &&& bytes.subrange(14, 16) == le_bytes(header.last_mod_datetime.date as nat, 2)
            &&& bytes.subrange(16, 20) == le_bytes(header.crc32 as nat, 4)
            &&& bytes.subrange(28, 30) == le_bytes(header.file_name_len as nat, 2)
            &&& bytes.subrange(38, 42) == le_bytes(header.external_attributes as nat, 4)
        }),
{
    broadcast use lemma_le_bytes_len;

    let bytes = header.spec_packed();
    header.lemma_packed_len();
    assert(bytes.subrange(0, 4) =~= le_bytes(header.signature as nat, 4));
    assert(bytes.subrange(12, 14) =~= le_bytes(header.last_mod_datetime.time as nat, 2));
    assert(bytes.subrange(14, 16) =~= le_bytes(header.last_mod_datetime.date as nat, 2));
    assert(bytes.subrange(16, 20) =~= le_bytes(header.crc32 as nat, 4));
    assert(bytes.subrange(28, 30) =~= le_bytes(header.file_name_len as nat, 2));
    assert(bytes.subrange(38, 42) =~= le_bytes(header.external_attributes as nat, 4));
}

/// Where the fields stand in a Zip64 field.
proof fn lemma_extra_part(extra: Zip64ExtraField)
    ensures
        ({
            let bytes = extra.spec_packed();
            &&& bytes.len() == 28
            &&& bytes.subrange(4, 12) == le_bytes(extra.uncompressed_size as nat, 8)
            &&& bytes.subrange(20, 28) == le_bytes(extra.offset as nat, 8)
        }),
{
    broadcast use lemma_le_bytes_len;

    let bytes = extra.spec_packed();
    extra.lemma_packed_len();
    assert(bytes.subrange(4, 12) =~= le_bytes(extra.uncompressed_size as nat, 8));
    assert(bytes.subrange(20, 28) =~= le_bytes(extra.offset as nat, 8));
}

/// What the closing records say can be read back: how many entries there are, and where the
/// central directory and the Zip64 record stand.
pub proof fn law_closing_records_are_readable(
    count: u64,
    cd_offset: u64,
    cd_size: u64,
    eocd_offset: u64,
)
    ensures
        ({
            let bytes = crate::layout::eocd(
                count as nat,
                cd_offset as nat,
                cd_size as nat,
                eocd_offset as nat,
            );
            &&& le_value(bytes.subrange(0, 4)) == 0x06064b50
            &&& le_value(bytes.subrange(32, 40)) == count
            &&& le_value(bytes.subrange(40, 48)) == cd_size
            &&& le_value(bytes.subrange(48, 56)) == cd_offset
            &&& le_value(bytes.subrange(56, 60)) == 0x07064b50
            &&& le_value(bytes.subrange(64, 72)) == eocd_offset
            &&& le_value(bytes.subrange(76, 80)) == 0x06054b50
        }),
{
    broadcast use lemma_le_bytes_len;

    reveal(crate::layout::eocd);
    lemma_le_limits();
    lemma_eocd_len(count as nat, cd_offset as nat, cd_size as nat, eocd_offset as nat);
    let bytes = crate::layout::eocd(
        count as nat,
        cd_offset as nat,
        cd_size as nat,
        eocd_offset as nat,
    );
    let record = crate::layout::zip64_eocd_record(count, cd_offset, cd_size);
    let locator = crate::layout::zip64_eocd_locator(eocd_offset);
    let end = crate::layout::plain_eocd();
    record.lemma_packed_len();
    locator.lemma_packed_len();
    end.lemma_packed_len();
    assert(bytes.subrange(0, 4) =~= le_bytes(record.signature as nat, 4));
    assert(bytes.subrange(32, 40) =~= le_bytes(count as nat, 8));
    assert(bytes.subrange(40, 48) =~= le_bytes(cd_size as nat, 8));
    assert(bytes.subrange(48, 56) =~= le_bytes(cd_offset as nat, 8));
    assert(bytes.subrange(56, 60) =~= le_bytes(locator.signature as nat, 4));
    assert(bytes.subrange(64, 72) =~= le_bytes(eocd_offset as nat, 8));
    assert(bytes.subrange(76, 80) =~= le_bytes(end.signature as nat, 4));
    law_le_bytes_round_trip(0x06064b50, 4);
    law_le_bytes_round_trip(count as nat, 8);
    law_le_bytes_round_trip(cd_size as nat, 8);
    law_le_bytes_round_trip(cd_offset as nat, 8);
    law_le_bytes_round_trip(0x07064b50, 4);
    law_le_bytes_round_trip(eocd_offset as nat, 8);
    law_le_bytes_round_trip(0x06054b50, 4);
}

/// An archive can be unpacked: its end tells how many entries there are and where the central
/// directory stands, the headers there follow each other, and each of them tells the name of an
/// entry, its checksum, and where to find its content.
pub proof fn law_archive_can_be_unpacked(files: Seq<FileView>, i: usize)
    requires
        all_complete(files),
        i < files.len() <= usize::MAX,
        archive_size(files) <= u64::MAX,
    ensures
        ({
            let bytes = archive(files);
            let end = bytes.skip(bytes.len() - 98);
            let start = cd_start(files) + cd_length(files, i as nat);
            let header = bytes.skip(start as int);
            let name_len = le_value(header.subrange(28, 30)) as int;
            let size = le_value(header.subrange(50 + name_len, 58 + name_len)) as int;
            let offset = le_value(header.subrange(66 + name_len, 74 + name_len)) as int;
            let data = offset + 58 + name_len;
            &&& le_value(end.subrange(32, 40)) == files.len()
            &&& le_value(end.subrange(48, 56)) == cd_start(files)
            &&& cd_length(files, 0) == 0
            &&& cd_length(files, (i + 1) as nat) == cd_length(files, i as nat) + 74 + name_len
            &&& header.subrange(46, 46 + name_len) == files[i as int].name
            &&& le_value(header.subrange(16, 20)) == files[i as int].crc32
            &&& bytes.subrange(data, data + size) == files[i as int].content
        }),
{
    let bytes = archive(files);
    let file = files[i as int];
    let offset = entry_offset(files, i as nat);
    let start = (cd_start(files) + cd_length(files, i as nat)) as int;
    let header = file.cd_header(offset);
    let name_len = file.name.len() as int;
    lemma_archive_len(files);
    lemma_entry_offset_monotonic(files, i as nat, files.len());
    law_content_stands_in_archive(files, i);
    law_directory_stands_in_archive(files, i);
    law_directory_header_is_readable(file, offset as u64);
    law_closing_records_are_readable(
        files.len() as u64,
        cd_start(files) as u64,
        cd_length(files, files.len()) as u64,
        eocd_start(files) as u64,
    );
    file.lemma_header_lens(offset);
    let found = bytes.skip(start);
    assert(found.take(header.len() as int) =~= header);
    assert(found.subrange(28, 30) =~= header.subrange(28, 30));
    assert(found.subrange(16, 20) =~= header.subrange(16, 20));
    assert(found.subrange(46, 46 + name_len) =~= header.subrange(46, 46 + name_len));
    assert(found.subrange(50 + name_len, 58 + name_len) =~= header.subrange(
        50 + name_len,
        58 + name_len,
    ));
    assert(found.subrange(66 + name_len, 74 + name_len) =~= header.subrange(
        66 + name_len,
        74 + name_len,
    ));
}

/// Checksums that are not given are those of the data.
pub proof fn law_computed_crc32s_are_right<D: EntryData>(builder: Builder<D>, reader: Reader<D>)
    requires
        reader.spec_entries().len() == builder.spec_entries().len(),
        forall|i: int|
            0 <= i < builder.spec_entries().len() ==> {
                &&& built_from(#[trigger] reader.spec_entries()[i], builder.spec_entries()[i])
                &&& builder.spec_entries()[i].1.spec_meta().crc32 is None
            },
    ensures
        crc32s_right(reader.spec_entries()),
{
}

/// Names and checksums of all entries.
pub open spec fn all_crc32s<D: EntryData>(entries: Seq<ReaderEntry<D>>) -> Seq<(Seq<char>, u32)> {
    Seq::new(entries.len(), |i: int| (entries[i].name@, entries[i].stored_crc32()))
}

/// Where all checksums are known, all are listed.
proof fn lemma_all_known<D: EntryData>(entries: Seq<ReaderEntry<D>>, n: nat)
    requires
        n <= entries.len(),
        forall|i: int| 0 <= i < n ==> (#[trigger] entries[i]).crc32 is Some,
    ensures
        known_crc32s(entries, n) == all_crc32s(entries).take(n as int),
    decreases n,
{
    if n > 0 {
        lemma_all_known(entries, (n - 1) as nat);
        assert(entries[n - 1].crc32 is Some);
        assert(all_crc32s(entries).take(n as int) =~= all_crc32s(entries).take(n - 1).push(
            all_crc32s(entries)[n - 1],
        ));
    } else {
        assert(all_crc32s(entries).take(0) =~= Seq::<(Seq<char>, u32)>::empty());
    }
}

/// When an archive was read through from the start, and nothing was found wrong, as many bytes came
/// as its size says.
pub proof fn law_reading_through_gives_the_size<D: EntryData>(reader: Reader<D>)
    requires
        reader.wf(),
        reader.counted(),
        reader.in_order(),
        reader.at_end(),
    ensures
        reader.spec_tell() == reader.spec_sizes().total_size,
{
    reveal(ReadState::stands_at);
    reveal(ReadState::in_order);
}

/// When an archive was read through from anywhere before the central directory, and nothing was
/// found wrong, the checksums of all entries are known and listed.
pub proof fn law_reading_through_makes_known<D: EntryData>(reader: Reader<D>)
    requires
        reader.wf(),
        reader.lists(),
        reader.at_end(),
    ensures
        known_crc32s(reader.spec_entries(), reader.spec_entries().len()) == all_crc32s(
            reader.spec_entries(),
        ),
{
    reveal(ReadState::lists);
    let entries = reader.spec_entries();
    lemma_all_known(entries, entries.len());
    assert(all_crc32s(entries).take(entries.len() as int) =~= all_crc32s(entries));
}

/// An archive cannot be read through from the start without an error if the data of some entry has
/// not the size that was reported.
pub proof fn law_wrong_sizes_are_found<D: EntryData>(reader: Reader<D>, i: int)
    requires
        reader.wf(),
        reader.in_order(),
        0 <= i < reader.spec_entries().len(),
        reader.spec_entries()[i].size > 0,
        reader.spec_entries()[i].data.exact(),
        reader.spec_entries()[i].data.content().len() <= u64::MAX,
        reader.spec_entries()[i].data.content().len() != reader.spec_entries()[i].size,
    ensures
        !reader.at_end(),
{
    reveal(ReadState::in_order);
    assert(!reader.spec_entries()[i].right_size());
}

/// When all data of an entry was read, and it has not the size that was reported, the next read
/// will find that.
pub proof fn law_wrong_size_is_reported<D: EntryData>(reader: Reader<D>)
    requires
        reader.wf(),
        reader.in_order(),
        reader.state().staging_buffer@.len() == 0,
        reader.state().current_chunk matches Chunk::FileData { entry_index } && {
            let entry = reader.spec_entries()[entry_index as int];
            &&& entry.size > 0
            &&& entry.data.exact()
            &&& entry.data.content().len() <= u64::MAX
            &&& entry.data.content().len() != entry.size
            &&& reader.state().chunk_processed_size == entry.data.content().len()
        },
    ensures
        reader.state().current_chunk matches Chunk::FileData { entry_index } ==> {
            let entry = reader.spec_entries()[entry_index as int];
            reader.pending_error() == Some(
                ZippityError::LengthMismatch {
                    entry_name: entry.name,
                    expected_size: entry.size,
                    actual_size: entry.data.content().len() as u64,
                },
            )
        },
{
    reveal(ReadState::in_order);
}

/// Checksums that are known stay known, and stay the same if they are right.
pub proof fn law_crc32s_stay_known<D: EntryData>(
    entries: Seq<ReaderEntry<D>>,
    before: Seq<ReaderEntry<D>>,
    i: int,
)
    requires
        same_but_crc32s(entries, before),
        0 <= i < before.len(),
        before[i].crc32 is Some,
    ensures
        entries[i].crc32 is Some,
        crc32s_right(entries) && crc32s_right(before) ==> entries[i].crc32 == before[i].crc32,
{
    assert(entries[i].same_but_crc32(before[i]));
    if crc32s_right(entries) && crc32s_right(before) {
        assert(entries[i].stored_crc32() == crc32_of(entries[i].data.content()));
        assert(before[i].stored_crc32() == crc32_of(before[i].data.content()));
    }
}

/// No two entries of a builder have the same name.
pub proof fn law_names_are_distinct<D: EntryData>(builder: Builder<D>, i: int, j: int)
    requires
        builder.wf(),
        0 <= i < builder.spec_entries().len(),
        0 <= j < builder.spec_entries().len(),
        i != j,
    ensures
        builder.spec_entries()[i].0 != builder.spec_entries()[j].0,
{
    if i < j {
        assert(builder.spec_entries()[i].0 != builder.spec_entries()[j].0);
    } else {
        assert(builder.spec_entries()[j].0 != builder.spec_entries()[i].0);
    }
}

/// Symlinks ignore any permissions that are set.
pub proof fn law_symlinks_ignore_permissions(first: BuilderPermissions, second: BuilderPermissions)
    ensures
        external_attributes(BuilderFileType::Symlink, first) == external_attributes(
            BuilderFileType::Symlink,
            second,
        ),
{
}

/// Giving the right checksum in advance changes nothing of the archive.
pub proof fn law_right_crc32_changes_nothing<D: EntryData>(
    given: BuilderEntry<D>,
    computed: BuilderEntry<D>,
    name: Seq<char>,
)
    requires
        given.spec_data() == computed.spec_data(),
        given.spec_size() == computed.spec_size(),
        computed.spec_meta().crc32 is None,
        given.spec_meta() == (EntryMetadata {
            crc32: Some(crc32_of(computed.spec_data().content())),
            ..computed.spec_meta()
        }),
    ensures
        given.file_view(name) == computed.file_view(name),
{
}

/// What kind of data the content comes from makes no difference to the archive.
pub proof fn law_only_content_matters<D: EntryData, F: EntryData>(
    first: BuilderEntry<D>,
    second: BuilderEntry<F>,
    name: Seq<char>,
)
    requires
        first.spec_data().content() == second.spec_data().content(),
        first.spec_size() == second.spec_size(),
        first.spec_meta() == second.spec_meta(),
    ensures
        first.file_view(name) == second.file_view(name),
{
}

/// The part of an archive that answers a request for ranges lies within the archive, and is not
/// empty.
pub proof fn law_part_lies_within_archive(
    head: ResponseHead,
    ranges: Seq<RequestedRange>,
    size: u64,
)
    requires
        size > 0,
        ranges.len() > 0,
        head.answers(Some(Some(ranges)), size),
    ensures
        head.part matches Some((offset, length)) ==> length > 0 && offset + length <= size,
{
    if head.part is Some {
        assert(ranges[0].satisfiable(size));
    }
}

/// Nothing is left to trim of what was trimmed.
proof fn lemma_trim_end(text: Seq<char>, c: char)
    ensures
        trim_end(text, c).len() == 0 || trim_end(text, c).last() != c,
    decreases text.len(),
{
    if text.len() > 0 && text.last() == c {
        lemma_trim_end(text.drop_last(), c);
    }
}

/// The name of a directory ends with exactly one slash, and that of a file with none.
pub proof fn law_names_end_as_they_should(name: Seq<char>)
    ensures
        ({
            let file = trim_end(name, '/') + trailing_slash(false);
            file.len() == 0 || file.last() != '/'
        }),
        ({
            let directory = trim_end(name, '/') + trailing_slash(true);
            &&& directory.last() == '/'
            &&& directory.len() == 1 || directory[directory.len() - 2] != '/'
        }),
{
    lemma_trim_end(name, '/');
    let trimmed = trim_end(name, '/');
    assert(trimmed + trailing_slash(false) =~= trimmed);
}

/// Cleaning up a name that is clean changes nothing.
pub proof fn law_clean_names_stay(name: Seq<char>, is_directory: bool)
    ensures
        ({
            let clean = trim_end(name, '/') + trailing_slash(is_directory);
            trim_end(clean, '/') + trailing_slash(is_directory) == clean
        }),
{
    lemma_trim_end(name, '/');
    let trimmed = trim_end(name, '/');
    assert(trimmed + trailing_slash(false) =~= trimmed);
    assert(trim_end(trimmed, '/') == trimmed);
    let directory = trimmed + trailing_slash(true);
    assert(directory.drop_last() =~= trimmed);
}

/// Trimming removes what a text ends with, and nothing else: what is left begins the text, and all
/// that follows it in the text is what was to be removed.
pub proof fn law_trimming_keeps_the_rest(text: Seq<char>, c: char)
    ensures
        ({
            let kept = trim_end(text, c);
            &&& kept.len() <= text.len()
            &&& kept == text.take(kept.len() as int)
            &&& forall|i: int| kept.len() <= i < text.len() ==> #[trigger] text[i] == c
            &&& kept.len() > 0 ==> kept.last() != c
        }),
        ({
            let kept = trim_start(text, c);
            let removed = text.len() - kept.len();
            &&& kept.len() <= text.len()
            &&& kept == text.skip(removed)
            &&& forall|i: int| 0 <= i < removed ==> #[trigger] text[i] == c
            &&& kept.len() > 0 ==> kept[0] != c
        }),
{
    lemma_trim_end_keeps(text, c);
    lemma_trim_start_keeps(text, c);
}

/// What trimming at the end keeps.
proof fn lemma_trim_end_keeps(text: Seq<char>, c: char)
    ensures
        ({
            let kept = trim_end(text, c);
            &&& kept.len() <= text.len()
            &&& kept == text.take(kept.len() as int)
            &&& forall|i: int| kept.len() <= i < text.len() ==> #[trigger] text[i] == c
            &&& kept.len() > 0 ==> kept.last() != c
        }),
    decreases text.len(),
{
    let kept = trim_end(text, c);
    if text.len() > 0 && text.last() == c {
        let shorter = text.drop_last();
        lemma_trim_end_keeps(shorter, c);
        assert(shorter.take(kept.len() as int) =~= text.take(kept.len() as int));
        assert forall|i: int| kept.len() <= i < text.len() implies #[trigger] text[i] == c by {
            if i < shorter.len() {
                assert(shorter[i] == c);
            }
        }
    } else {
        assert(text.take(text.len() as int) =~= text);
    }
}

/// What trimming at the start keeps.
proof fn lemma_trim_start_keeps(text: Seq<char>, c: char)
    ensures
        ({
            let kept = trim_start(text, c);
            let removed = text.len() - kept.len();
            &&& kept.len() <= text.len()
            &&& kept == text.skip(removed)
            &&& forall|i: int| 0 <= i < removed ==> #[trigger] text[i] == c
            &&& kept.len() > 0 ==> kept[0] != c
        }),
    decreases text.len(),
{
    let kept = trim_start(text, c);
    if text.len() > 0 && text[0] == c {
        let shorter = text.skip(1);
        lemma_trim_start_keeps(shorter, c);
        let removed = text.len() - kept.len();
        assert(shorter.skip(removed - 1) =~= text.skip(removed));
        assert forall|i: int| 0 <= i < removed implies #[trigger] text[i] == c by {
            if i > 0 {
                assert(shorter[i - 1] == c);
            }
        }
    } else {
        assert(text.skip(0) =~= text);
    }
}

/// The name of an entry from a filesystem is the one that was given, up to the slashes at its end,
/// and a slash behind it exactly if it is a directory.
pub proof fn law_names_are_kept(name: Seq<char>, is_directory: bool)
    ensures
        ({
            let stored = trim_end(name, '/') + trailing_slash(is_directory);
            let kept = if is_directory {
                stored.len() - 1
            } else {
                stored.len() as int
            };
            &&& 0 <= kept <= name.len()
            &&& stored.take(kept) == name.take(kept)
            &&& forall|i: int| kept <= i < name.len() ==> #[trigger] name[i] == '/'
            &&& is_directory ==> stored.last() == '/'
            &&& kept > 0 ==> stored[kept - 1] != '/'
        }),
{
    law_trimming_keeps_the_rest(name, '/');
    let trimmed = trim_end(name, '/');
    let stored = trimmed + trailing_slash(is_directory);
    assert(stored.take(trimmed.len() as int) =~= trimmed);
}

} // verus!
