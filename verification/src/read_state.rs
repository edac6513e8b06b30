//! The state of reading an archive, and its steps.

use crate::chunk::Chunk;
use crate::crc32::{crc32_of, law_crc32_continues, law_crc32_of_nothing};
use crate::entry_data::EntryData;
use crate::error::{ReadError, ZippityError};
use crate::io::{Poll, ReadBuf, SeekFrom};
use crate::layout::{
    eocd, plain_eocd, zip64_eocd_locator, zip64_eocd_record, FileView, ZIP64_VERSION_TO_EXTRACT,
};
use crate::reader_entry::{opens, reads_from, seeks_to, ReaderEntry, ReaderPinned};
use crate::structs::{
    CentralDirectoryHeader, Compression, DataDescriptor64, EndOfCentralDirectory, GpBitFlag,
    LocalFileHeader, PackedStructZippityExt, VersionMadeBy, VersionMadeByOs,
    Zip64EndOfCentralDirectoryLocator, Zip64EndOfCentralDirectoryRecord, Zip64ExtraField,
};
use std::task::Context;
use vstd::prelude::*;
use vstd::slice::slice_subrange;

verus! {

/// Sizes of central directory and whole archive.
#[derive(Clone, Copy, Debug, PartialEq, Eq, Structural)]
pub struct Sizes {
    pub cd_offset: u64,
    pub cd_size: u64,
    pub eocd_offset: u64,
    pub total_size: u64,
}

/// How far reading an archive has come.
#[derive(Debug)]
pub struct ReadState {
    /// Which chunk is currently read.
    pub current_chunk: Chunk,
    /// How many bytes were already read from the current chunk.
    /// Data in the staging buffer counts as already processed.
    pub chunk_processed_size: u64,
    /// Current position in the archive (counts bytes written to the output).
    pub position: u64,
    /// Buffer for data that couldn't get written to the output directly.
    /// Content of this will get written to output first, before any more chunk
    /// reading is attempted.
    pub staging_buffer: Vec<u8>,
    /// How many bytes must be skipped, counted from the start of the staging buffer, or of the
    /// current chunk if nothing is staged.
    pub to_skip: u64,
}

/// The sum, or the largest value where it does not fit.
pub open spec fn saturating_sum(a: int, b: int) -> int {
    if a + b > u64::MAX {
        u64::MAX as int
    } else {
        a + b
    }
}

/// What becomes of the state and the output when `bytes` are produced in one piece.
///
/// The piece is skipped if all of it is to be skipped, written to the output if none of it is to
/// be skipped and it fits, and staged otherwise. Behind a piece that was staged everything is
/// staged.
pub open spec fn produces(
    bytes: Seq<u8>,
    before: ReadState,
    output_before: ReadBuf,
    after: ReadState,
    output_after: ReadBuf,
) -> bool {
    let empty = before.staging_buffer@.len() == 0;
    &&& after.current_chunk == before.current_chunk
    &&& after.position == before.position
    &&& after.chunk_processed_size == saturating_sum(
        before.chunk_processed_size as int,
        bytes.len() as int,
    )
    &&& output_after.extends(output_before)
    &&& if empty && before.to_skip >= bytes.len() {
        &&& after.to_skip == before.to_skip - bytes.len()
        &&& after.staging_buffer@ == before.staging_buffer@
        &&& output_after@ == output_before@
    } else if empty && before.to_skip == 0 && output_before.room() >= bytes.len() {
        &&& after.to_skip == 0
        &&& after.staging_buffer@ == before.staging_buffer@
        &&& output_after@ == output_before@ + bytes
    } else {
        &&& after.to_skip == before.to_skip
        &&& after.staging_buffer@ == before.staging_buffer@ + bytes
        &&& output_after@ == output_before@
    }
}

/// What becomes of the state and the output when `bytes` are produced in any number of pieces,
/// and nothing was staged before: `bytes`, less what is to be skipped, went to the output and the
/// staging buffer. Nothing is staged if nothing is to be skipped and all of it fits.
pub open spec fn passes(
    bytes: Seq<u8>,
    before: ReadState,
    output_before: ReadBuf,
    after: ReadState,
    output_after: ReadBuf,
) -> bool {
    let added = output_after@.skip(output_before@.len() as int);
    let skip = before.to_skip as int;
    &&& after.current_chunk == before.current_chunk
    &&& after.position == before.position
    &&& after.chunk_processed_size == saturating_sum(
        before.chunk_processed_size as int,
        bytes.len() as int,
    )
    &&& output_after.extends(output_before)
    &&& if after.staging_buffer@.len() == 0 {
        if skip >= bytes.len() {
            &&& after.to_skip == skip - bytes.len()
            &&& added == Seq::<u8>::empty()
        } else {
            &&& after.to_skip == 0
            &&& added == bytes.skip(skip)
        }
    } else {
        &&& skip < bytes.len()
        &&& skip > 0 || output_before.room() < bytes.len()
        &&& after.to_skip < after.staging_buffer@.len()
        &&& added + after.staging_buffer@.skip(after.to_skip as int) == bytes.skip(skip)
    }
}

/// A first piece passes as a whole.
proof fn lemma_passes_first(
    bytes: Seq<u8>,
    s0: ReadState,
    o0: ReadBuf,
    s1: ReadState,
    o1: ReadBuf,
)
    requires
        s0.staging_buffer@.len() == 0,
        produces(bytes, s0, o0, s1, o1),
    ensures
        passes(bytes, s0, o0, s1, o1),
{
    let added = o1@.skip(o0@.len() as int);
    if s0.to_skip >= bytes.len() {
        assert(added =~= Seq::<u8>::empty());
    } else if s0.to_skip == 0 && o0.room() >= bytes.len() {
        assert(added =~= bytes);
        assert(bytes.skip(0) =~= bytes);
    } else {
        assert(s1.staging_buffer@ =~= bytes);
        assert(added + bytes.skip(s0.to_skip as int) =~= bytes.skip(s0.to_skip as int));
    }
}

/// One piece more passes behind those that passed.
proof fn lemma_passes_more(
    first: Seq<u8>,
    second: Seq<u8>,
    s0: ReadState,
    o0: ReadBuf,
    s1: ReadState,
    o1: ReadBuf,
    s2: ReadState,
    o2: ReadBuf,
)
    requires
        s0.staging_buffer@.len() == 0,
        passes(first, s0, o0, s1, o1),
        produces(second, s1, o1, s2, o2),
    ensures
        passes(first + second, s0, o0, s2, o2),
{
    let skip = s0.to_skip as int;
    let all = first + second;
    let added1 = o1@.skip(o0@.len() as int);
    let added2 = o2@.skip(o0@.len() as int);
    if s1.staging_buffer@.len() == 0 {
        if s1.to_skip >= second.len() {
            assert(added2 =~= added1);
            if skip >= first.len() {
                assert(added2 =~= Seq::<u8>::empty());
            } else {
                assert(all =~= first);
            }
        } else if s1.to_skip == 0 && o1.room() >= second.len() {
            assert(added2 =~= added1 + second);
            assert(added2 =~= all.skip(skip));
        } else {
            assert(added2 =~= added1);
            assert(s2.staging_buffer@ =~= second);
            assert(added2 + second.skip(s2.to_skip as int) =~= all.skip(skip));
        }
    } else {
        assert(added2 =~= added1);
        let rest1 = s1.staging_buffer@.skip(s1.to_skip as int);
        let rest2 = s2.staging_buffer@.skip(s2.to_skip as int);
        assert(rest2 =~= rest1 + second);
        assert(added2 + rest2 =~= (added1 + rest1) + second);
        assert(all.skip(skip) =~= first.skip(skip) + second);
    }
}

impl ReadState {
    /// The state in which nothing was read of an archive with `entries` yet.
    pub fn new<D: EntryData>(entries: &[ReaderEntry<D>]) -> (state: ReadState)
        ensures
            state.current_chunk == Chunk::first(entries@.len()),
            state.chunk_processed_size == 0,
            state.position == 0,
            state.staging_buffer@.len() == 0,
            state.to_skip == 0,
    {
        ReadState {
            current_chunk: Chunk::new(entries),
            chunk_processed_size: 0,
            position: 0,
            staging_buffer: Vec::new(),
            to_skip: 0,
        }
    }

    /// Produces `bytes`: skips them, or writes them to `output` (fast path), or to
    /// `self.staging_buffer`.
    fn read_bytes(&mut self, bytes: &[u8], output: &mut ReadBuf)
        requires
            old(output).wf(),
        ensures
            produces(bytes@, *old(self), *old(output), *final(self), *final(output)),
    {
        let len64: u64 = bytes.len() as u64;
        self.chunk_processed_size = self.chunk_processed_size.saturating_add(len64);
        if self.staging_buffer.len() == 0 {
            if self.to_skip >= len64 {
                self.to_skip = self.to_skip - len64;
                return;
            }
            if self.to_skip == 0 && output.remaining() >= bytes.len() {
                output.put_slice(bytes);
                return;
            }
        }
        self.staging_buffer.extend_from_slice(bytes);
        assert(self.staging_buffer@ =~= old(self).staging_buffer@ + bytes@);
    }

    /// Read packed struct.
    /// Either reads to `output` (fast path), or to `self.staging_buffer`
    /// Never writes to output, if staging buffer is non empty, or if we need to skip something
    pub fn read_packed_struct<P: PackedStructZippityExt>(&mut self, ps: P, output: &mut ReadBuf)
        requires
            old(output).wf(),
        ensures
            produces(ps.spec_packed(), *old(self), *old(output), *final(self), *final(output)),
    {
        let bytes = ps.pack();
        self.read_bytes(bytes.as_slice(), output);
    }

    /// Read string slice to the output or to the staging buffer
    /// Never writes to output, if staging buffer is non empty, or if we need to skip something
    pub fn read_str(&mut self, s: &str, output: &mut ReadBuf)
        requires
            old(output).wf(),
        ensures
            produces(
                vstd::utf8::encode_utf8(s@),
                *old(self),
                *old(output),
                *final(self),
                *final(output),
            ),
    {
        self.read_bytes(s.as_bytes(), output);
    }

    /// Read from the staging buffer to output
    pub fn read_from_staging(&mut self, output: &mut ReadBuf)
        requires
            old(output).wf(),
        ensures
            final(self).current_chunk == old(self).current_chunk,
            final(self).chunk_processed_size == old(self).chunk_processed_size,
            final(self).position == old(self).position,
            final(output).extends(*old(output)),
            ({
                let staged = old(self).staging_buffer@;
                let start = if old(self).to_skip <= staged.len() {
                    old(self).to_skip as int
                } else {
                    staged.len() as int
                };
                if start + old(output).room() >= staged.len() {
                    &&& final(output)@ == old(output)@ + staged.skip(start)
                    &&& final(self).staging_buffer@ == Seq::<u8>::empty()
                    &&& final(self).to_skip == 0
                } else {
                    let end = start + old(output).room();
                    &&& final(output)@ == old(output)@ + staged.subrange(start, end)
                    &&& final(self).staging_buffer@ == staged
                    &&& final(self).to_skip == end
                }
            }),
    {
        let staged: usize = self.staging_buffer.len();
        let start: usize = if self.to_skip <= staged as u64 {
            self.to_skip as usize
        } else {
            staged
        };
        let room: usize = output.remaining();
        if room >= staged - start {
            output.put_slice(slice_subrange(self.staging_buffer.as_slice(), start, staged));
            self.to_skip = 0;
            self.staging_buffer.clear();
        } else {
            let end: usize = start + room;
            output.put_slice(slice_subrange(self.staging_buffer.as_slice(), start, end));
            self.to_skip = end as u64;
        }
    }

    /// Produces the local header of `entry`. Always completes.
    pub fn read_local_header<D: EntryData>(
        &mut self,
        entry: &ReaderEntry<D>,
        output: &mut ReadBuf,
    ) -> (done: bool)
        requires
            old(output).wf(),
            old(self).staging_buffer@.len() == 0,
            entry.wf(),
        ensures
            done,
            passes(
                entry.file().local_header(entry.offset as nat),
                *old(self),
                *old(output),
                *final(self),
                *final(output),
            ),
    {
        let ghost (s0, o0) = (*self, *output);
        let header = LocalFileHeader {
            signature: LocalFileHeader::SIGNATURE,
            version_to_extract: ZIP64_VERSION_TO_EXTRACT as u16,
            flags: GpBitFlag { use_data_descriptor: true, language_encoding: false },
            compression: Compression::Store,
            last_mod_datetime: entry.datetime,
            crc32: 0,
            compressed_size: u32::MAX,
            uncompressed_size: u32::MAX,
            file_name_len: entry.name.as_str().as_bytes().len() as u16,
            extra_field_len: Zip64ExtraField::packed_size_u16(),
        };
        self.read_packed_struct(header, output);
        let ghost (s1, o1) = (*self, *output);
        self.read_str(entry.name.as_str(), output);
        let ghost (s2, o2) = (*self, *output);
        let extra = Zip64ExtraField {
            tag: Zip64ExtraField::TAG,
            size: Zip64ExtraField::packed_size_u16() - 4,
            uncompressed_size: 0,
            compressed_size: 0,
            offset: entry.offset,
        };
        self.read_packed_struct(extra, output);
        proof {
            let file = entry.file();
            reveal(FileView::local_header);
            assert(header == file.local_file_header());
            assert(extra == file.zip64_extra_field(0, entry.offset));
            lemma_passes_first(header.spec_packed(), s0, o0, s1, o1);
            lemma_passes_more(header.spec_packed(), file.name, s0, o0, s1, o1, s2, o2);
            lemma_passes_more(
                header.spec_packed() + file.name,
                extra.spec_packed(),
                s0,
                o0,
                s2,
                o2,
                *self,
                *output,
            );
        }
        true
    }

    /// Produces the data descriptor of `entry`, once its checksum is known.
    pub fn read_data_descriptor<D: EntryData>(
        &mut self,
        entry: &mut ReaderEntry<D>,
        pinned: &mut ReaderPinned<D>,
        ctx: &mut Context<'_>,
        output: &mut ReadBuf,
    ) -> (result: Poll<Result<bool, ReadError<D::Error>>>)
        requires
            old(output).wf(),
            old(self).staging_buffer@.len() == 0,
            old(entry).wf(),
            old(pinned).in_order(),
        ensures
            final(entry).same_but_crc32(*old(entry)),
            final(pinned).in_order(),
            result matches Poll::Ready(Err(error)) ==> error.concerns(
                old(entry).name,
                old(entry).size,
            ),
            old(entry).crc32 is None && old(entry).size > 0 && (result matches Poll::Ready(Ok(_)))
                ==> *final(pinned) is Nothing,
            result is Pending ==> {
                &&& *final(pinned) !is Nothing
                &&& final(pinned).continues(*old(pinned))
            },
            match result {
                Poll::Ready(Ok(done)) => {
                    &&& done
                    &&& final(entry).crc32 is Some
                    &&& passes(
                        final(entry).file().descriptor(),
                        *old(self),
                        *old(output),
                        *final(self),
                        *final(output),
                    )
                },
                _ => {
                    &&& final(entry).crc32 == old(entry).crc32
                    &&& *final(self) == *old(self)
                    &&& *final(output) == *old(output)
                },
            },
            old(entry).crc32 is Some || old(entry).size == 0 ==> {
                &&& result matches Poll::Ready(Ok(_))
                &&& *final(pinned) == *old(pinned)
            },
            old(entry).crc32 is Some ==> *final(entry) == *old(entry),
            old(entry).exact() && old(pinned).computes(&old(entry).data) ==> match result {
                Poll::Ready(Ok(_)) => final(entry).file() == old(entry).file(),
                Poll::Ready(Err(error)) => !old(entry).data.prompt() && error is Source,
                Poll::Pending => {
                    &&& !old(entry).data.prompt()
                    &&& final(pinned).computes(&old(entry).data)
                    &&& final(pinned).not_behind(*old(pinned), &old(entry).data)
                },
            },
    {
        let crc32: u32 = match entry.get_crc(pinned, ctx) {
            Poll::Ready(Ok(crc32)) => crc32,
            Poll::Ready(Err(error)) => {
                return Poll::Ready(Err(error));
            },
            Poll::Pending => {
                return Poll::Pending;
            },
        };
        proof {
            if entry.exact() && entry.size == 0 {
                assert(entry.data.content() =~= Seq::<u8>::empty());
            }
        }
        let ghost (s0, o0) = (*self, *output);
        let descriptor = DataDescriptor64 {
            signature: DataDescriptor64::SIGNATURE,
            crc32,
            compressed_size: entry.size,
            uncompressed_size: entry.size,
        };
        self.read_packed_struct(descriptor, output);
        proof {
            reveal(FileView::descriptor);
            assert(descriptor == entry.file().data_descriptor());
            lemma_passes_first(descriptor.spec_packed(), s0, o0, *self, *output);
        }
        Poll::Ready(Ok(true))
    }

    /// Produces the header of `entry` in the central directory, once its checksum is known.
    pub fn read_cd_file_header<D: EntryData>(
        &mut self,
        entry: &mut ReaderEntry<D>,
        pinned: &mut ReaderPinned<D>,
        ctx: &mut Context<'_>,
        output: &mut ReadBuf,
    ) -> (result: Poll<Result<bool, ReadError<D::Error>>>)
        requires
            old(output).wf(),
            old(self).staging_buffer@.len() == 0,
            old(entry).wf(),
            old(pinned).in_order(),
        ensures
            final(entry).same_but_crc32(*old(entry)),
            final(pinned).in_order(),
            result matches Poll::Ready(Err(error)) ==> error.concerns(
                old(entry).name,
                old(entry).size,
            ),
            old(entry).crc32 is None && old(entry).size > 0 && (result matches Poll::Ready(Ok(_)))
                ==> *final(pinned) is Nothing,
            result is Pending ==> {
                &&& *final(pinned) !is Nothing
                &&& final(pinned).continues(*old(pinned))
            },
            match result {
                Poll::Ready(Ok(done)) => {
                    &&& done
                    &&& final(entry).crc32 is Some
                    &&& passes(
                        final(entry).file().cd_header(old(entry).offset as nat),
                        *old(self),
                        *old(output),
                        *final(self),
                        *final(output),
                    )
                },
                _ => {
                    &&& final(entry).crc32 == old(entry).crc32
                    &&& *final(self) == *old(self)
                    &&& *final(output) == *old(output)
                },
            },
            old(entry).crc32 is Some || old(entry).size == 0 ==> {
                &&& result matches Poll::Ready(Ok(_))
                &&& *final(pinned) == *old(pinned)
            },
            old(entry).crc32 is Some ==> *final(entry) == *old(entry),
            old(entry).exact() && old(pinned).computes(&old(entry).data) ==> match result {
                Poll::Ready(Ok(_)) => final(entry).file() == old(entry).file(),
                Poll::Ready(Err(error)) => !old(entry).data.prompt() && error is Source,
                Poll::Pending => {
                    &&& !old(entry).data.prompt()
                    &&& final(pinned).computes(&old(entry).data)
                    &&& final(pinned).not_behind(*old(pinned), &old(entry).data)
                },
            },
    {
        let crc32: u32 = match entry.get_crc(pinned, ctx) {
            Poll::Ready(Ok(crc32)) => crc32,
            Poll::Ready(Err(error)) => {
                return Poll::Ready(Err(error));
            },
            Poll::Pending => {
                return Poll::Pending;
            },
        };
        proof {
            if entry.exact() && entry.size == 0 {
                assert(entry.data.content() =~= Seq::<u8>::empty());
            }
        }
        let ghost (s0, o0) = (*self, *output);
        let header = CentralDirectoryHeader {
            signature: CentralDirectoryHeader::SIGNATURE,
            version_made_by: VersionMadeBy {
                os: VersionMadeByOs::Unix,
                spec_version: ZIP64_VERSION_TO_EXTRACT,
            },
            version_to_extract: ZIP64_VERSION_TO_EXTRACT as u16,
            flags: GpBitFlag { use_data_descriptor: false, language_encoding: false },
            compression: Compression::Store,
            last_mod_datetime: entry.datetime,
            crc32,
            compressed_size: u32::MAX,
            uncompressed_size: u32::MAX,
            file_name_len: entry.name.as_str().as_bytes().len() as u16,
            extra_field_len: Zip64ExtraField::packed_size_u16(),
            file_comment_length: 0,
            disk_number_start: u16::MAX,
            internal_attributes: 0,
            external_attributes: entry.external_attributes,
            local_header_offset: u32::MAX,
        };
        self.read_packed_struct(header, output);
        let ghost (s1, o1) = (*self, *output);
        self.read_str(entry.name.as_str(), output);
        let ghost (s2, o2) = (*self, *output);
        let extra = Zip64ExtraField {
            tag: Zip64ExtraField::TAG,
            size: Zip64ExtraField::packed_size_u16() - 4,
            uncompressed_size: entry.size,
            compressed_size: entry.size,
            offset: entry.offset,
        };
        self.read_packed_struct(extra, output);
        proof {
            let file = entry.file();
            reveal(FileView::cd_header);
            assert(header == file.central_directory_header());
            assert(extra == file.zip64_extra_field(file.size, entry.offset));
            lemma_passes_first(header.spec_packed(), s0, o0, s1, o1);
            lemma_passes_more(header.spec_packed(), file.name, s0, o0, s1, o1, s2, o2);
            lemma_passes_more(
                header.spec_packed() + file.name,
                extra.spec_packed(),
                s0,
                o0,
                s2,
                o2,
                *self,
                *output,
            );
        }
        Poll::Ready(Ok(true))
    }

    /// Produces the records that close the archive. Always completes.
    pub fn read_eocd<D: EntryData>(
        &mut self,
        sizes: &Sizes,
        entries: &[ReaderEntry<D>],
        output: &mut ReadBuf,
    ) -> (done: bool)
        requires
            old(output).wf(),
            old(self).staging_buffer@.len() == 0,
        ensures
            done,
            passes(
                eocd(
                    entries@.len(),
                    sizes.cd_offset as nat,
                    sizes.cd_size as nat,
                    sizes.eocd_offset as nat,
                ),
                *old(self),
                *old(output),
                *final(self),
                *final(output),
            ),
    {
        let ghost (s0, o0) = (*self, *output);
        let count: u64 = entries.len() as u64;
        let record = Zip64EndOfCentralDirectoryRecord {
            signature: Zip64EndOfCentralDirectoryRecord::SIGNATURE,
            size_of_zip64_eocd: Zip64EndOfCentralDirectoryRecord::packed_size() - 12,
            version_made_by: VersionMadeBy {
                os: VersionMadeByOs::Unix,
                spec_version: ZIP64_VERSION_TO_EXTRACT,
            },
            version_to_extract: ZIP64_VERSION_TO_EXTRACT as u16,
            this_disk_number: 0,
            start_of_cd_disk_number: 0,
            this_cd_entry_count: count,
            total_cd_entry_count: count,
            size_of_cd: sizes.cd_size,
            cd_offset: sizes.cd_offset,
        };
        self.read_packed_struct(record, output);
        let ghost (s1, o1) = (*self, *output);
        let locator = Zip64EndOfCentralDirectoryLocator {
            signature: Zip64EndOfCentralDirectoryLocator::SIGNATURE,
            start_of_cd_disk_number: 0,
            zip64_eocd_offset: sizes.eocd_offset,
            number_of_disks: 1,
        };
        self.read_packed_struct(locator, output);
        let ghost (s2, o2) = (*self, *output);
        let end = EndOfCentralDirectory {
            signature: EndOfCentralDirectory::SIGNATURE,
            this_disk_number: 0,
            start_of_cd_disk_number: 0,
            this_cd_entry_count: u16::MAX,
            total_cd_entry_count: u16::MAX,
            size_of_cd: u32::MAX,
            cd_offset: u32::MAX,
            file_comment_length: 0,
        };
        self.read_packed_struct(end, output);
        proof {
            reveal(eocd);
            assert(record == zip64_eocd_record(count, sizes.cd_offset, sizes.cd_size));
            assert(locator == zip64_eocd_locator(sizes.eocd_offset));
            assert(end == plain_eocd());
            lemma_passes_first(record.spec_packed(), s0, o0, s1, o1);
            lemma_passes_more(
                record.spec_packed(),
                locator.spec_packed(),
                s0,
                o0,
                s1,
                o1,
                s2,
                o2,
            );
            lemma_passes_more(
                record.spec_packed() + locator.spec_packed(),
                end.spec_packed(),
                s0,
                o0,
                s2,
                o2,
                *self,
                *output,
            );
        }
        true
    }

    /// Passes on the data of `entry`, as far as it fits.
    ///
    /// Gives `false` if something was written to `output`, and `true` once all data was. Then
    /// the data is checked against the size and the checksum that were announced.
    pub fn read_file_data<D: EntryData>(
        &mut self,
        entry: &mut ReaderEntry<D>,
        pinned: &mut ReaderPinned<D>,
        ctx: &mut Context<'_>,
        output: &mut ReadBuf,
    ) -> (result: Poll<Result<bool, ReadError<D::Error>>>)
        requires
            old(output).wf(),
            old(entry).wf(),
            old(entry).size > 0,
        ensures
            final(self).current_chunk == old(self).current_chunk,
            final(self).position == old(self).position,
            final(self).staging_buffer == old(self).staging_buffer,
            final(entry).same_but_crc32(*old(entry)),
            final(output).extends(*old(output)),
            match result {
                Poll::Ready(Ok(true)) => {
                    &&& final(output)@ == old(output)@
                    &&& *final(pinned) is Nothing
                    &&& final(self).to_skip == 0
                    &&& old(self).chunk_processed_size + old(self).to_skip == old(entry).size
                    &&& final(self).chunk_processed_size == old(entry).size
                },
                Poll::Ready(Ok(false)) => {
                    &&& final(output)@.len() > old(output)@.len()
                    &&& final(self).to_skip == 0
                    &&& final(self).chunk_processed_size == saturating_sum(
                        old(self).chunk_processed_size + old(self).to_skip,
                        final(output)@.len() - old(output)@.len(),
                    )
                    &&& *final(entry) == *old(entry)
                },
                Poll::Ready(Err(error)) => {
                    let at = old(self).chunk_processed_size + old(self).to_skip;
                    &&& final(self).to_skip == 0 || *final(self) == *old(self)
                    &&& error.concerns(old(entry).name, old(entry).size)
                    &&& error matches ReadError::Zippity(found) ==> {
                        &&& final(output)@ == old(output)@
                        &&& at <= u64::MAX ==> exists|crc32: Option<u32>|
                            #[trigger] file_data_error(
                                old(entry).name,
                                old(entry).size,
                                at as u64,
                                old(entry).crc32,
                                crc32,
                            ) == Some(found)
                    }
                    &&& error matches ReadError::SeekMismatch { expected_position, .. } ==> {
                        &&& final(output)@ == old(output)@
                        &&& expected_position == old(self).to_skip
                    }
                },
                Poll::Pending => {
                    &&& final(self).to_skip == 0 || *final(self) == *old(self)
                    &&& final(self).chunk_processed_size + final(self).to_skip == old(
                        self,
                    ).chunk_processed_size + old(self).to_skip
                    &&& *final(entry) == *old(entry)
                    &&& *final(pinned) !is Nothing
                    &&& final(pinned).continues(*old(pinned))
                },
            },
            old(entry).data.exact() && old(self).stands_in(&old(entry).data, *old(pinned)) && old(
                output,
            ).room() > 0 ==> {
                let content = old(entry).data.content();
                let at = old(self).chunk_processed_size + old(self).to_skip;
                let size = final(output)@.len() - old(output)@.len();
                let crc32 = old(self).computed_crc32(&old(entry).data, *old(pinned));
                let error = file_data_error(
                    old(entry).name,
                    old(entry).size,
                    at as u64,
                    old(entry).crc32,
                    crc32,
                );
                match result {
                    Poll::Ready(Ok(done)) => {
                        &&& final(self).to_skip == 0
                        &&& final(self).chunk_processed_size == at + size
                        &&& if at < content.len() {
                            &&& !done
                            &&& size > 0
                            &&& at + size <= content.len()
                            &&& final(output)@ == old(output)@ + content.subrange(at, at + size)
                            &&& final(self).stands_in(&old(entry).data, *final(pinned))
                            &&& *final(pinned) is FileReader
                        } else {
                            &&& done
                            &&& error is None
                            &&& final(output)@ == old(output)@
                            &&& *final(pinned) is Nothing
                            &&& final(entry).crc32 == (if crc32 is Some {
                                crc32
                            } else {
                                old(entry).crc32
                            })
                        }
                    },
                    Poll::Ready(Err(ReadError::Zippity(found))) => {
                        &&& at >= content.len()
                        &&& error == Some(found)
                        &&& final(output)@ == old(output)@
                    },
                    Poll::Ready(Err(failed)) => !old(entry).data.prompt() && failed is Source,
                    Poll::Pending => {
                        &&& !old(entry).data.prompt()
                        &&& final(output)@ == old(output)@
                        &&& *final(entry) == *old(entry)
                        &&& final(pinned).not_behind(*old(pinned), &old(entry).data)
                        &&& final(self).stands_in(&old(entry).data, *final(pinned))
                        &&& final(self).chunk_processed_size + final(self).to_skip == at
                        &&& final(self).computed_crc32(&old(entry).data, *final(pinned)) == crc32
                    },
                }
            },
    {
        let ghost exact = entry.data.exact() && self.stands_in(&entry.data, *pinned)
            && output.room() > 0;
        let ghost content = entry.data.content();
        let ghost at = self.chunk_processed_size + self.to_skip;
        match entry.get_reader(pinned, ctx) {
            Poll::Ready(Ok(_)) => {},
            Poll::Ready(Err(error)) => {
                return Poll::Ready(Err(ReadError::Source(error)));
            },
            Poll::Pending => {
                return Poll::Pending;
            },
        }
        let mut current: ReaderPinned<D> = ReaderPinned::Nothing;
        std::mem::swap(pinned, &mut current);
        let mut reader = match current {
            ReaderPinned::FileReader(reader) => reader,
            _ => {
                return Poll::Pending;
            },
        };
        if self.to_skip > 0 {
            match reader.seek(&entry.data, ctx, SeekFrom::Start(self.to_skip)) {
                Poll::Ready(Ok(actual_position)) => {
                    if actual_position != self.to_skip {
                        *pinned = ReaderPinned::FileReader(reader);
                        return Poll::Ready(
                            Err(
                                ReadError::SeekMismatch {
                                    expected_position: self.to_skip,
                                    actual_position,
                                },
                            ),
                        );
                    }
                },
                Poll::Ready(Err(error)) => {
                    *pinned = ReaderPinned::FileReader(reader);
                    return Poll::Ready(Err(ReadError::Source(error)));
                },
                Poll::Pending => {
                    *pinned = ReaderPinned::FileReader(reader);
                    return Poll::Pending;
                },
            }
            match self.chunk_processed_size.checked_add(self.to_skip) {
                Some(sum) => {
                    self.chunk_processed_size = sum;
                    self.to_skip = 0;
                },
                None => {
                    return Poll::Ready(
                        Err(
                            ReadError::Zippity(
                                ZippityError::LengthMismatch {
                                    entry_name: entry.name.clone(),
                                    expected_size: entry.size,
                                    actual_size: u64::MAX,
                                },
                            ),
                        ),
                    );
                },
            }
        }
        assert(exact ==> {
            &&& self.chunk_processed_size == at
            &&& reads_from(reader, &entry.data, at as nat)
            &&& reader.sought() == (old(self).computed_crc32(&entry.data, *old(pinned)) is None)
        });
        let ghost before = reader;
        let remaining_before: usize = output.remaining();
        match reader.poll_read(&entry.data, ctx, output) {
            Poll::Ready(Ok(_)) => {},
            Poll::Ready(Err(error)) => {
                *pinned = ReaderPinned::FileReader(reader);
                return Poll::Ready(Err(ReadError::Source(error)));
            },
            Poll::Pending => {
                *pinned = ReaderPinned::FileReader(reader);
                return Poll::Pending;
            },
        }
        let written: usize = remaining_before - output.remaining();
        if written == 0 {
            proof {
                assert(output@ =~= old(output)@);
                assert(output@.skip(old(output)@.len() as int) =~= Seq::<u8>::empty());
                if exact && !reader.sought() {
                    assert(content.take(at as int) =~= content);
                    law_crc32_of_nothing(before.spec_crc32());
                }
            }
            let expected_crc: Option<u32> = entry.crc32;
            let actual_crc: Option<u32> = if reader.is_crc_valid() {
                Some(reader.get_crc32())
            } else {
                None
            };
            if actual_crc.is_some() {
                entry.crc32 = actual_crc;
            }
            match check_file_data(
                &entry.name,
                entry.size,
                self.chunk_processed_size,
                expected_crc,
                actual_crc,
            ) {
                Ok(_) => Poll::Ready(Ok(true)),
                Err(error) => Poll::Ready(Err(ReadError::Zippity(error))),
            }
        } else {
            self.chunk_processed_size = self.chunk_processed_size.saturating_add(written as u64);
            proof {
                if exact && !reader.sought() {
                    let added = output@.skip(old(output)@.len() as int);
                    assert(added =~= content.subrange(at as int, at + written));
                    assert(content.take(at + written) =~= content.take(at as int) + added);
                    law_crc32_continues(0, content.take(at as int), added);
                }
            }
            *pinned = ReaderPinned::FileReader(reader);
            Poll::Ready(Ok(false))
        }
    }
}

/// What is wrong with the data of an entry, if anything, once all of it was read. Size and
/// checksum that were announced are compared with those found. There is no checksum where part
/// of the data was skipped.
pub open spec fn file_data_error(
    entry_name: String,
    expected_size: u64,
    actual_size: u64,
    expected_crc: Option<u32>,
    actual_crc: Option<u32>,
) -> Option<ZippityError> {
    if actual_size != expected_size {
        Some(ZippityError::LengthMismatch { entry_name, expected_size, actual_size })
    } else {
        match (expected_crc, actual_crc) {
            (Some(expected_crc), Some(actual_crc)) => if expected_crc != actual_crc {
                Some(ZippityError::Crc32Mismatch { entry_name, expected_crc, actual_crc })
            } else {
                None
            },
            _ => None,
        }
    }
}

/// Checks the data of an entry against what was announced, once all of it was read.
pub fn check_file_data(
    entry_name: &String,
    expected_size: u64,
    actual_size: u64,
    expected_crc: Option<u32>,
    actual_crc: Option<u32>,
) -> (result: Result<(), ZippityError>)
    ensures
        match file_data_error(
            *entry_name,
            expected_size,
            actual_size,
            expected_crc,
            actual_crc,
        ) {
            Some(error) => result == Err::<(), ZippityError>(error),
            None => result is Ok,
        },
{
    if actual_size != expected_size {
        return Err(
            ZippityError::LengthMismatch {
                entry_name: entry_name.clone(),
                expected_size,
                actual_size,
            },
        );
    }
    match (expected_crc, actual_crc) {
        (Some(expected), Some(actual)) => {
            if expected != actual {
                return Err(
                    ZippityError::Crc32Mismatch {
                        entry_name: entry_name.clone(),
                        expected_crc: expected,
                        actual_crc: actual,
                    },
                );
            }
        },
        _ => {},
    }
    Ok(())
}

impl ReadState {
    /// The checksum of all of `data`, the current chunk, if it will have been computed at the end:
    /// nothing was skipped so far, and nothing is to be skipped.
    pub open spec fn computed_crc32<D: EntryData>(
        &self,
        data: &D,
        pinned: ReaderPinned<D>,
    ) -> Option<u32> {
        let in_order = match pinned {
            ReaderPinned::FileReader(reader) => !reader.sought(),
            _ => true,
        };
        if in_order && self.to_skip == 0 {
            Some(crc32_of(data.content()))
        } else {
            None
        }
    }

    /// What is open fits how far the current chunk, which is `data`, was read: nothing is open
    /// yet and nothing was read, or a reader is on its way to where reading begins, or is where
    /// reading stopped.
    pub open spec fn stands_in<D: EntryData>(&self, data: &D, pinned: ReaderPinned<D>) -> bool {
        &&& data.content().len() <= u64::MAX
        &&& match pinned {
            ReaderPinned::Nothing => {
                &&& self.chunk_processed_size == 0
                &&& self.to_skip <= data.content().len()
            },
            ReaderPinned::ReaderFuture(future) => {
                &&& opens(future, data)
                &&& self.chunk_processed_size == 0
                &&& self.to_skip <= data.content().len()
            },
            ReaderPinned::FileReader(reader) => if self.to_skip > 0 {
                &&& self.chunk_processed_size == 0
                &&& seeks_to(reader, data, self.to_skip as nat)
            } else {
                reads_from(reader, data, self.chunk_processed_size as nat)
            },
        }
    }
}

} // verus!
