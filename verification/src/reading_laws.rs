//! What reading gives, and what is found wrong.

use crate::answer_laws::{
    hexadecimal_limit, law_decimal_reads_back, law_hexadecimal_reads_back, text_value,
};
use crate::builder::AddEntryError;
use crate::chunk::Chunk;
use crate::collect::{crc32s_right, rest};
use crate::crc32::crc32_of;
use crate::crc_reader::CrcReader;
use crate::entry_data::{bytes_contents, EntryData, EntryReader, ReaderFuture};
use crate::error::{ReadError, ZippityError};
use crate::io::SeekFrom;
use crate::layout::{archive, archive_size, FileView};
use crate::read_state::{file_data_error, saturating_sum, ReadState};
use crate::reader::{known_crc32s, Reader};
use crate::reader_entry::{ReaderEntry, ReaderPinned};
use crate::reading::appended;
use crate::text::{decimal, hexadecimal};
use crate::vec_buffer::smaller;
use std::sync::Arc;
use vstd::prelude::*;

verus! {

/// Whether `places` are the entries whose checksums are known, in order.
pub open spec fn are_known<D: EntryData>(
    entries: Seq<ReaderEntry<D>>,
    places: Seq<int>,
) -> bool {
    &&& forall|k: int|
        0 <= k < places.len() ==> 0 <= #[trigger] places[k] < entries.len()
            && entries[places[k]].crc32 is Some
    &&& forall|j: int, k: int|
        0 <= j < k < places.len() ==> #[trigger] places[j] < #[trigger] places[k]
    &&& forall|i: int|
        0 <= i < entries.len() && (#[trigger] entries[i]).crc32 is Some ==> places.contains(i)
}

/// The entries among the first `n` whose checksums are known are those that are listed.
proof fn lemma_known_places<D: EntryData>(entries: Seq<ReaderEntry<D>>, n: nat) -> (places: Seq<int>)
    requires
        n <= entries.len(),
    ensures
        are_known(entries.take(n as int), places),
        places.len() == known_crc32s(entries, n).len(),
        forall|k: int|
            0 <= k < places.len() ==> {
                &&& (#[trigger] known_crc32s(entries, n)[k]).0 == entries[places[k]].name@
                &&& Some(known_crc32s(entries, n)[k].1) == entries[places[k]].crc32
            },
    decreases n,
{
    if n == 0 {
        Seq::empty()
    } else {
        let before = lemma_known_places(entries, (n - 1) as nat);
        let earlier = entries.take(n - 1);
        let now = entries.take(n as int);
        let places = if entries[n - 1].crc32 is Some {
            before.push(n - 1)
        } else {
            before
        };
        assert forall|k: int| 0 <= k < places.len() implies 0 <= #[trigger] places[k] < now.len()
            && now[places[k]].crc32 is Some by {
            if k < before.len() {
                assert(0 <= before[k] < earlier.len());
                assert(now[before[k]] == earlier[before[k]]);
            }
        }
        assert forall|j: int, k: int| 0 <= j < k < places.len() implies #[trigger] places[j]
            < #[trigger] places[k] by {
            if k == before.len() {
                assert(before[j] < earlier.len());
            } else {
                assert(before[j] < before[k]);
            }
        }
        assert forall|i: int|
            0 <= i < now.len() && (#[trigger] now[i]).crc32 is Some implies places.contains(i) by {
            if i < n - 1 {
                assert(now[i] == earlier[i]);
                assert(before.contains(i));
                let k = choose|k: int| 0 <= k < before.len() && before[k] == i;
                assert(places[k] == i);
            } else {
                assert(places[before.len() as int] == i);
            }
        }
        let listed = known_crc32s(entries, n);
        let listed_before = known_crc32s(entries, (n - 1) as nat);
        assert forall|k: int| 0 <= k < places.len() implies {
            &&& (#[trigger] listed[k]).0 == entries[places[k]].name@
            &&& Some(listed[k].1) == entries[places[k]].crc32
        } by {
            if k < before.len() {
                assert(listed[k] == listed_before[k]);
            }
        }
        places
    }
}

/// All checksums that are known are listed, and nothing else, each with the name of its entry and in
/// the order of the entries, whether or not the checksums of other entries are known.
pub proof fn law_known_crc32s_are_listed<D: EntryData>(entries: Seq<ReaderEntry<D>>)
    ensures
        ({
            let listed = known_crc32s(entries, entries.len());
            exists|places: Seq<int>|
                {
                    &&& #[trigger] are_known(entries, places)
                    &&& places.len() == listed.len()
                    &&& forall|k: int|
                        0 <= k < places.len() ==> {
                            &&& (#[trigger] listed[k]).0 == entries[places[k]].name@
                            &&& Some(listed[k].1) == entries[places[k]].crc32
                        }
                }
        }),
        forall|i: int|
            0 <= i < entries.len() && (#[trigger] entries[i]).crc32 is Some ==> known_crc32s(
                entries,
                entries.len(),
            ).contains((entries[i].name@, entries[i].crc32->0)),
{
    let listed = known_crc32s(entries, entries.len());
    let places = lemma_known_places(entries, entries.len());
    assert(entries.take(entries.len() as int) =~= entries);
    assert(are_known(entries, places));
    assert forall|i: int|
        0 <= i < entries.len() && (#[trigger] entries[i]).crc32 is Some implies listed.contains(
        (entries[i].name@, entries[i].crc32->0),
    ) by {
        assert(places.contains(i));
        let k = choose|k: int| 0 <= k < places.len() && places[k] == i;
        assert(listed[k] == (entries[i].name@, entries[i].crc32->0));
    }
}

/// What a read appends is, byte for byte, what the archive holds from the position on.
pub proof fn law_reads_give_the_archive(
    files: Seq<FileView>,
    position: int,
    before: Seq<u8>,
    after: Seq<u8>,
    i: int,
)
    requires
        appended(files, position, before, after),
        0 <= position,
        0 <= i < after.len(),
    ensures
        before.len() <= after.len(),
        i < before.len() ==> after[i] == before[i],
        i >= before.len() ==> position + i - before.len() < archive(files).len() && after[i]
            == archive(files)[position + i - before.len()],
{
    reveal(appended);
    assert(before.is_prefix_of(after));
}

/// What is left to read is, byte for byte, what the archive holds from the position on, and nothing
/// past the end.
pub proof fn law_rest_is_the_end_of_the_archive(files: Seq<FileView>, position: int, i: int)
    requires
        0 <= position,
    ensures
        position + rest(files, position).len() == archive(files).len() || position >= archive(
            files,
        ).len() && rest(files, position).len() == 0,
        0 <= i < rest(files, position).len() ==> rest(files, position)[i] == archive(
            files,
        )[position + i],
{
}

/// Data is found wrong exactly if it has not the size that was announced, or it has, but not the
/// checksum, where both are known. The error gives the entry, and what was announced and found.
pub proof fn law_wrong_data_is_found(
    entry_name: String,
    announced: u64,
    size: u64,
    announced_crc32: Option<u32>,
    crc32: Option<u32>,
)
    ensures
        ({
            let found = file_data_error(entry_name, announced, size, announced_crc32, crc32);
            &&& found is None <==> size == announced && (announced_crc32 is Some && crc32 is Some
                ==> announced_crc32 == crc32)
            &&& found matches Some(error) ==> match error {
                ZippityError::LengthMismatch { entry_name: name, expected_size, actual_size } => {
                    &&& name == entry_name
                    &&& expected_size == announced
                    &&& actual_size == size
                    &&& expected_size != actual_size
                },
                ZippityError::Crc32Mismatch { entry_name: name, expected_crc, actual_crc } => {
                    &&& name == entry_name
                    &&& Some(expected_crc) == announced_crc32
                    &&& Some(actual_crc) == crc32
                    &&& size == announced
                    &&& expected_crc != actual_crc
                },
                _ => false,
            }
        }),
{
}

/// Positions are counted from the start, from the end, or from where reading stands: seeking by
/// nothing from there leads there, and seeking by more leads as much further.
pub proof fn law_seeks_are_relative(position: int, end: int, offset: u64, by: i64)
    ensures
        SeekFrom::Start(offset).target(position, end) == offset,
        SeekFrom::End(0).target(position, end) == end,
        SeekFrom::Current(0).target(position, end) == position,
        SeekFrom::End(by).target(position, end) - SeekFrom::End(0).target(position, end) == by,
        SeekFrom::Current(by).target(position, end) - SeekFrom::Current(0).target(position, end)
            == by,
{
}

/// Numbers that are added up stop growing at the largest one that fits.
pub proof fn law_sums_stop_at_the_limit(a: int, b: int)
    ensures
        a + b <= u64::MAX ==> saturating_sum(a, b) == a + b,
        a + b >= u64::MAX ==> saturating_sum(a, b) == u64::MAX,
        smaller(a, b) <= a,
        smaller(a, b) <= b,
        smaller(a, b) == a || smaller(a, b) == b,
{
}

/// Slices, vectors, arrays and byte strings in memory are, as the data of entries, just the bytes
/// that they hold.
pub proof fn law_memory_is_its_bytes<const N: usize>(
    slice: &[u8],
    vec: Vec<u8>,
    array: [u8; N],
    boxed: Box<[u8]>,
    shared: Arc<[u8]>,
    bytes: bytes::Bytes,
)
    ensures
        slice.exact() && slice.measured() && slice.prompt() && slice.content() == slice@,
        vec.exact() && vec.measured() && vec.prompt() && vec.content() == vec@,
        array.exact() && array.measured() && array.prompt() && array.content() == array@,
        boxed.exact() && boxed.measured() && boxed.prompt() && boxed.content() == (*boxed)@,
        shared.exact() && shared.measured() && shared.prompt() && shared.content() == (*shared)@,
        bytes.exact() && bytes.measured() && bytes.prompt() && bytes.content() == bytes_contents(
            bytes,
        ),
{
}

/// Text in memory is, as the data of entries, its encoding in UTF-8, and `()` is nothing.
pub proof fn law_text_is_its_encoding(text: &str, string: String)
    ensures
        text.exact() && text.measured() && text.prompt() && text.content()
            == vstd::utf8::encode_utf8(text@),
        string.exact() && string.measured() && string.prompt() && string.content()
            == vstd::utf8::encode_utf8(string@),
        ().exact() && ().measured() && ().prompt() && ().content().len() == 0,
{
}

/// When all data of an entry was read, from its beginning on, and it has not the checksum that was
/// given, the next read will find that.
pub proof fn law_wrong_crc32_is_reported<D: EntryData>(reader: Reader<D>)
    requires
        reader.wf(),
        reader.in_order(),
        reader.state().staging_buffer@.len() == 0,
        reader.state().current_chunk matches Chunk::FileData { entry_index } && {
            let entry = reader.spec_entries()[entry_index as int];
            &&& entry.size > 0
            &&& entry.data.exact()
            &&& entry.data.content().len() == entry.size
            &&& reader.state().chunk_processed_size == entry.size
            &&& entry.crc32 is Some
            &&& entry.crc32 != Some(crc32_of(entry.data.content()))
            &&& reader.spec_pinned() matches ReaderPinned::FileReader(opened) ==> !opened.sought()
        },
    ensures
        reader.state().current_chunk matches Chunk::FileData { entry_index } ==> {
            let entry = reader.spec_entries()[entry_index as int];
            reader.pending_error() == Some(
                ZippityError::Crc32Mismatch {
                    entry_name: entry.name,
                    expected_crc: entry.crc32->0,
                    actual_crc: crc32_of(entry.data.content()),
                },
            )
        },
{
    reveal(ReadState::in_order);
}

/// Nothing is found wrong with data that has the size and the checksum that were announced.
pub proof fn law_right_data_is_not_refused<D: EntryData>(reader: Reader<D>)
    requires
        reader.wf(),
        forall|i: int|
            0 <= i < reader.spec_entries().len() ==> {
                let entry = #[trigger] reader.spec_entries()[i];
                &&& entry.data.exact() ==> entry.data.content().len() == entry.size
                &&& entry.crc32 matches Some(crc32) ==> crc32 == crc32_of(entry.data.content())
            },
        reader.on_track(),
    ensures
        reader.pending_error() is None,
{
    reveal(ReadState::synced);
    if let Chunk::FileData { entry_index } = reader.state().current_chunk {
        let entry = reader.spec_entries()[entry_index as int];
        assert(entry.exact());
    }
}

/// Data is needed only within it, or for a checksum that is not known. Local headers and the closing
/// records never need any, nor does anything that says something of empty data.
pub proof fn law_data_is_needed_only_where_it_must<D: EntryData>(reader: Reader<D>)
    requires
        reader.wf(),
        reader.asks_for_data(),
        !(reader.state().current_chunk is FileData),
    ensures
        exists|i: int|
            0 <= i < reader.spec_entries().len() && (#[trigger] reader.spec_entries()[i]).crc32
                is None && reader.spec_entries()[i].size > 0,
        !(reader.state().current_chunk is LocalHeader),
        !(reader.state().current_chunk is Eocd),
        !reader.at_end(),
{
    match reader.state().current_chunk {
        Chunk::DataDescriptor { entry_index } | Chunk::CDFileHeader { entry_index } => {
            assert(reader.spec_entries()[entry_index as int].crc32 is None);
        },
        _ => {},
    }
}

/// Errors about sizes and checksums name the entry that they are about.
pub proof fn law_errors_name_their_entry<E>(
    error: ReadError<E>,
    named: ZippityError,
    entry_name: String,
    size: u64,
)
    requires
        error == ReadError::<E>::Zippity(named),
        error.concerns(entry_name, size),
    ensures
        match named {
            ZippityError::LengthMismatch { entry_name: name, expected_size, .. } => name
                == entry_name && expected_size == size,
            ZippityError::Crc32Mismatch { entry_name: name, expected_crc, actual_crc } => name
                == entry_name && expected_crc != actual_crc,
            _ => false,
        },
{
}

/// Whether `part` stands somewhere in `text`.
pub open spec fn mentions(text: Seq<char>, part: Seq<char>) -> bool {
    exists|before: Seq<char>, after: Seq<char>| text == #[trigger] (before + part + after)
}

/// What stands between two texts is mentioned.
proof fn lemma_mentions(before: Seq<char>, part: Seq<char>, after: Seq<char>, text: Seq<char>)
    requires
        text =~= before + part + after,
    ensures
        mentions(text, part),
{
    assert(text == before + part + after);
}

/// Whether three parts stand one behind the other somewhere in `text`.
pub open spec fn mentions_in_order(
    text: Seq<char>,
    first: Seq<char>,
    second: Seq<char>,
    third: Seq<char>,
) -> bool {
    exists|a: Seq<char>, b: Seq<char>, c: Seq<char>, d: Seq<char>|
        text == #[trigger] (a + first + b + second + c + third + d)
}

/// Messages on sizes and checksums mention the name of the entry, what was announced and what was
/// found, in this order and in digits that read back.
#[verifier::spinoff_prover]
pub proof fn law_messages_tell_what_is_wrong(
    entry_name: String,
    expected_size: u64,
    actual_size: u64,
    expected_crc: u32,
    actual_crc: u32,
)
    ensures
        ({
            let error = ZippityError::LengthMismatch { entry_name, expected_size, actual_size };
            &&& mentions_in_order(
                error.spec_message(),
                entry_name@,
                decimal(expected_size as nat),
                decimal(actual_size as nat),
            )
            &&& text_value(decimal(expected_size as nat), 10) == expected_size
            &&& text_value(decimal(actual_size as nat), 10) == actual_size
        }),
        ({
            let error = ZippityError::Crc32Mismatch { entry_name, expected_crc, actual_crc };
            &&& mentions_in_order(
                error.spec_message(),
                entry_name@,
                hexadecimal(expected_crc as nat, 8),
                hexadecimal(actual_crc as nat, 8),
            )
            &&& text_value(hexadecimal(expected_crc as nat, 8), 16) == expected_crc
            &&& text_value(hexadecimal(actual_crc as nat, 8), 16) == actual_crc
        }),
        mentions(ZippityError::DuplicateEntryName { entry_name }.spec_message(), entry_name@),
        mentions(AddEntryError::DuplicateEntryName { entry_name }.spec_message(), entry_name@),
        mentions(AddEntryError::TooLongZipFile { entry_name }.spec_message(), entry_name@),
{
    let name = entry_name@;
    let none = Seq::<char>::empty();
    law_decimal_reads_back(expected_size as nat);
    law_decimal_reads_back(actual_size as nat);
    assert(hexadecimal_limit(8) == 0x1_0000_0000) by {
        reveal_with_fuel(hexadecimal_limit, 9);
    }
    law_hexadecimal_reads_back(expected_crc as nat, 8);
    law_hexadecimal_reads_back(actual_crc as nat, 8);
    let sizes = ZippityError::LengthMismatch { entry_name, expected_size, actual_size }.spec_message();
    let (e, a) = (decimal(expected_size as nat), decimal(actual_size as nat));
    let (s1, s2, s3, s4) = ("Entry "@, " reports length "@, " B, but was "@, " B"@);
    assert(sizes == s1 + name + s2 + e + s3 + a + s4);
    let sums = ZippityError::Crc32Mismatch { entry_name, expected_crc, actual_crc }.spec_message();
    let (c, d) = (hexadecimal(expected_crc as nat, 8), hexadecimal(actual_crc as nat, 8));
    let (t2, t3) = (" was given a CRC value "@, " that does not match the computed "@);
    assert(sums =~= s1 + name + t2 + c + t3 + d + none);
    let doubled = ZippityError::DuplicateEntryName { entry_name }.spec_message();
    lemma_mentions("Duplicate entry name "@, name, none, doubled);
    let added = AddEntryError::DuplicateEntryName { entry_name }.spec_message();
    lemma_mentions("Duplicate entry name "@, name, none, added);
    let too_large = AddEntryError::TooLongZipFile { entry_name }.spec_message();
    lemma_mentions(
        "Adding entry "@,
        name,
        " would cause the ZIP file to be longer than u64::MAX"@,
        too_large,
    );
}

/// Seeks add up: going to a position and on from there leads as far as going there at once, and
/// going back by as much leads back. Nothing but the position changes.
pub proof fn law_seeks_add_up<D: EntryData>(
    first: Reader<D>,
    offset: u64,
    second: Reader<D>,
    by: i64,
    third: Reader<D>,
)
    requires
        second.went(first, SeekFrom::Start(offset)),
        third.went(second, SeekFrom::Current(by)),
    ensures
        second.spec_tell() == offset,
        third.spec_tell() == offset + by,
        third.went(first, SeekFrom::Start((offset + by) as u64)),
        third.files() == first.files(),
        third.bytes() == first.bytes(),
        by == 0 ==> third.spec_tell() == second.spec_tell(),
{
}

/// Positions that are counted from the end are those that are counted from the start, less the size.
pub proof fn law_seeks_from_the_end<D: EntryData>(first: Reader<D>, by: i64, second: Reader<D>)
    requires
        first.wf(),
        second.went(first, SeekFrom::End(by)),
    ensures
        second.spec_tell() == archive_size(first.files()) + by,
{
}

/// What is open is kept while data is waited for, however often: data that was opened stays open,
/// and data that is being opened is not opened anew.
pub proof fn law_waiting_keeps_what_is_open<D: EntryData>(
    first: ReaderPinned<D>,
    second: ReaderPinned<D>,
    third: ReaderPinned<D>,
    reader: D::Reader,
)
    requires
        second.continues(first),
        third.continues(second),
    ensures
        first !is Nothing ==> second !is Nothing,
        first is FileReader ==> second is FileReader && third is FileReader,
        first matches ReaderPinned::ReaderFuture(future) ==> (second matches
            ReaderPinned::ReaderFuture(left) ==> (left.yields(reader) ==> future.yields(reader))),
        first is FileReader || first is Nothing || second is ReaderFuture ==> third.continues(
            first,
        ),
{
}

/// What was read of data is not read again while data is waited for.
pub proof fn law_waiting_does_not_go_back<D: EntryData>(
    first: CrcReader<D::Reader>,
    second: CrcReader<D::Reader>,
    third: ReaderPinned<D>,
    data: &D,
)
    requires
        ReaderPinned::<D>::FileReader(second).not_behind(ReaderPinned::FileReader(first), data),
        third.not_behind(ReaderPinned::FileReader(second), data),
    ensures
        first.inner().position(data) <= second.inner().position(data),
        third matches ReaderPinned::FileReader(reader) && second.inner().position(data)
            <= reader.inner().position(data),
        third.not_behind(ReaderPinned::FileReader(first), data),
{
}

/// Checksums are right exactly if those that are known are those of the data.
pub proof fn law_right_crc32s<D: EntryData>(entries: Seq<ReaderEntry<D>>)
    ensures
        crc32s_right(entries) <==> forall|i: int|
            0 <= i < entries.len() && (#[trigger] entries[i]).crc32 is Some ==> entries[i].crc32
                == Some(crc32_of(entries[i].data.content())),
{
    if forall|i: int|
        0 <= i < entries.len() && (#[trigger] entries[i]).crc32 is Some ==> entries[i].crc32
            == Some(crc32_of(entries[i].data.content())) {
        assert forall|i: int| 0 <= i < entries.len() implies (
        #[trigger] entries[i]).stored_crc32() == crc32_of(entries[i].data.content()) by {
            if entries[i].crc32 is Some {
                assert(entries[i].crc32 == Some(crc32_of(entries[i].data.content())));
            }
        }
    }
    if crc32s_right(entries) {
        assert forall|i: int|
            0 <= i < entries.len() && (
            #[trigger] entries[i]).crc32 is Some implies entries[i].crc32 == Some(
            crc32_of(entries[i].data.content()),
        ) by {
            assert(entries[i].stored_crc32() == crc32_of(entries[i].data.content()));
        }
    }
}

} // verus!
