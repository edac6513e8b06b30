//! Reading up to the end.

use crate::chunk::{files, Chunk};
use crate::crc32::crc32_of;
use crate::entry_data::EntryData;
use crate::error::ReadError;
use crate::io::{Poll, ReadBuf};
use crate::layout::{archive, FileView};
use crate::read_state::saturating_sum;
use crate::reader::Reader;
use crate::reader_entry::ReaderEntry;
use crate::reading::{
    all_exact, appended, lemma_appended_more, lemma_prompt_same, lemma_same_transitive, same_but_crc32s,
};
use std::task::Context;
use vstd::prelude::*;

verus! {

/// The checksums that are known are those of the data.
pub open spec fn crc32s_right<D: EntryData>(entries: Seq<ReaderEntry<D>>) -> bool {
    forall|i: int|
        0 <= i < entries.len() ==> (#[trigger] entries[i]).stored_crc32() == crc32_of(
            entries[i].data.content(),
        )
}

/// What the archive holds from `position` on.
pub open spec fn rest(files: Seq<FileView>, position: int) -> Seq<u8> {
    if position <= archive(files).len() {
        archive(files).skip(position)
    } else {
        Seq::empty()
    }
}

/// Nothing is found wrong where sizes and checksums are right.
proof fn lemma_no_error<D: EntryData>(reader: Reader<D>)
    requires
        reader.wf(),
        all_exact(reader.spec_entries()),
        crc32s_right(reader.spec_entries()),
    ensures
        reader.pending_error() is None,
{
    if let Chunk::FileData { entry_index } = reader.state().current_chunk {
        assert(reader.spec_entries()[entry_index as int].exact());
    }
}

/// Only checksums can be wrong where the sizes are right.
proof fn lemma_error_is_crc32<D: EntryData>(reader: Reader<D>)
    requires
        reader.wf(),
        all_exact(reader.spec_entries()),
    ensures
        reader.pending_error() matches Some(error) ==> error is Crc32Mismatch,
{
    if let Chunk::FileData { entry_index } = reader.state().current_chunk {
        assert(reader.spec_entries()[entry_index as int].exact());
    }
}

/// Checksums that were right stay right while an archive stays the same.
proof fn lemma_still_right<D: EntryData>(
    entries: Seq<ReaderEntry<D>>,
    before: Seq<ReaderEntry<D>>,
)
    requires
        crc32s_right(before),
        same_but_crc32s(entries, before),
        files(entries) == files(before),
    ensures
        crc32s_right(entries),
{
    assert forall|i: int| 0 <= i < entries.len() implies (#[trigger] entries[i]).stored_crc32()
        == crc32_of(entries[i].data.content()) by {
        assert(entries[i].same_but_crc32(before[i]));
        assert(entries[i].file() == files(entries)[i]);
        assert(before[i].file() == files(before)[i]);
        assert(before[i].stored_crc32() == crc32_of(before[i].data.content()));
    }
}

/// What was read behind `output` is appended to it.
proof fn lemma_collected(
    fs: Seq<FileView>,
    position: int,
    first: Seq<u8>,
    output: Seq<u8>,
    read: Seq<u8>,
)
    requires
        0 <= position,
        appended(fs, position, first, output),
        appended(fs, position + output.len() - first.len(), Seq::empty(), read),
    ensures
        appended(fs, position, first, output + read),
{
    reveal(appended);
    assert(Seq::<u8>::empty() + read =~= read);
    lemma_appended_more(fs, position, first, output, output + read);
}

/// Everything up to the end was read.
proof fn lemma_all_collected(fs: Seq<FileView>, position: int, first: Seq<u8>, output: Seq<u8>)
    requires
        0 <= position,
        appended(fs, position, first, output),
        position + output.len() - first.len() >= archive(fs).len(),
    ensures
        output == first + rest(fs, position),
{
    reveal(appended);
    if output.len() > first.len() {
        assert(archive(fs).subrange(position, archive(fs).len() as int) =~= archive(fs).skip(
            position,
        ));
    } else {
        assert(output =~= first);
        assert(rest(fs, position) =~= Seq::<u8>::empty());
        assert(first + Seq::<u8>::empty() =~= first);
    }
}

/// Collects all data to `output`, from the current position on.
/// Size of each read can be specified.
///
/// Where data has to be waited for, this goes on when it is called again with the same `output`.
pub fn read_to_vec<D: EntryData>(
    reader: &mut Reader<D>,
    ctx: &mut Context<'_>,
    read_size: usize,
    output: &mut Vec<u8>,
) -> (result: Poll<Result<(), ReadError<D::Error>>>)
    requires
        old(reader).wf(),
        read_size > 0,
    ensures
        final(reader).wf(),
        final(reader).spec_sizes() == old(reader).spec_sizes(),
        same_but_crc32s(final(reader).spec_entries(), old(reader).spec_entries()),
        old(output)@.is_prefix_of(final(output)@),
        !(result matches Poll::Ready(Err(_))) ==> final(reader).spec_tell() == saturating_sum(
            old(reader).spec_tell() as int,
            final(output)@.len() - old(output)@.len(),
        ),
        match result {
            Poll::Ready(Ok(_)) => final(reader).at_end(),
            Poll::Ready(Err(error)) => {
                &&& final(reader).asks_for_data()
                &&& final(reader).fails_by(error)
            },
            Poll::Pending => {
                &&& final(reader).asks_for_data()
                &&& final(reader).spec_pinned() !is Nothing
                &&& final(output)@.len() == old(output)@.len() ==> final(reader).keeps_open(
                    *old(reader),
                )
            },
        },
        old(reader).counted() && !(result matches Poll::Ready(Err(_))) ==> final(reader).counted(),
        old(reader).in_order() && !(result matches Poll::Ready(Err(_)))
            ==> final(reader).in_order(),
        old(reader).lists() && !(result matches Poll::Ready(Err(_))) ==> final(reader).lists(),
        old(reader).on_track() ==> match result {
            Poll::Ready(Err(ReadError::Zippity(error))) => {
                &&& error is Crc32Mismatch
                &&& !crc32s_right(old(reader).spec_entries())
            },
            Poll::Ready(Err(failed)) => !old(reader).prompt() && failed is Source,
            _ => {
                &&& result matches Poll::Ready(Ok(_)) ==> final(output)@ == old(output)@ + rest(
                    old(reader).files(),
                    old(reader).spec_tell() as int,
                )
                &&& result is Pending ==> {
                    &&& !old(reader).prompt()
                    &&& final(output)@.len() == old(output)@.len() ==> final(reader).not_behind(
                        *old(reader),
                    )
                }
                &&& appended(
                    old(reader).files(),
                    old(reader).spec_tell() as int,
                    old(output)@,
                    final(output)@,
                )
                &&& final(reader).spec_tell() == old(reader).spec_tell() + final(output)@.len()
                    - old(output)@.len()
                &&& final(reader).on_track()
                &&& final(reader).files() == old(reader).files()
            },
        },
{
    let ghost fs = reader.files();
    let ghost position = reader.spec_tell() as int;
    let ghost on_track = reader.on_track();
    let ghost right = on_track && crc32s_right(reader.spec_entries());
    let mut at_end: bool = false;
    proof {
        assert(appended(fs, position, output@, output@)) by {
            reveal(appended);
        }
        assert(same_but_crc32s(reader.spec_entries(), reader.spec_entries()));
    }
    while !at_end
        invariant
            read_size > 0,
            reader.wf(),
            reader.spec_sizes() == old(reader).spec_sizes(),
            same_but_crc32s(reader.spec_entries(), old(reader).spec_entries()),
            old(output)@.is_prefix_of(output@),
            reader.spec_tell() == saturating_sum(
                old(reader).spec_tell() as int,
                output@.len() - old(output)@.len(),
            ),
            at_end ==> reader.at_end(),
            !at_end && output@.len() == old(output)@.len() ==> *reader == *old(reader),
            old(reader).counted() ==> reader.counted(),
            old(reader).in_order() ==> reader.in_order(),
            old(reader).lists() ==> reader.lists(),
            fs == old(reader).files(),
            position == old(reader).spec_tell(),
            on_track == old(reader).on_track(),
            right == (on_track && crc32s_right(old(reader).spec_entries())),
            on_track ==> {
                &&& reader.on_track()
                &&& reader.files() == fs
                &&& reader.spec_tell() == position + output@.len() - old(output)@.len()
                &&& appended(fs, position, old(output)@, output@)
                &&& at_end ==> reader.spec_tell() >= archive(fs).len()
            },
            right ==> crc32s_right(reader.spec_entries()),
        decreases usize::MAX - output@.len() + (if at_end { 0int } else { 1int }),
    {
        let mut buf = ReadBuf::new(read_size);
        let ghost before = *reader;
        let ghost output_before = output@;
        proof {
            if on_track {
                lemma_error_is_crc32(*reader);
            }
            if right {
                lemma_no_error(*reader);
            }
        }
        let result = reader.poll_read(ctx, &mut buf);
        proof {
            lemma_same_transitive(
                reader.spec_entries(),
                before.spec_entries(),
                old(reader).spec_entries(),
            );
            lemma_prompt_same(before.spec_entries(), old(reader).spec_entries());
        }
        match result {
            Poll::Ready(Ok(_)) => {},
            Poll::Ready(Err(error)) => {
                return Poll::Ready(Err(error));
            },
            Poll::Pending => {
                return Poll::Pending;
            },
        }
        if buf.filled().len() == 0 {
            at_end = true;
        } else {
            output.extend_from_slice(buf.filled());
        }
        proof {
            assert(output.len() <= usize::MAX);
            assert(output@ =~= output_before + buf@);
            if on_track {
                lemma_collected(fs, position, old(output)@, output_before, buf@);
            }
            if right {
                lemma_still_right(reader.spec_entries(), before.spec_entries());
            }
        }
    }
    proof {
        if on_track {
            lemma_all_collected(fs, position, old(output)@, output@);
        }
    }
    Poll::Ready(Ok(()))
}

} // verus!
