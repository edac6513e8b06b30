//! Answering requests for an archive, or for a part of it.

use crate::byte_stream::BytesStream;
use crate::entry_data::EntryData;
use crate::error::ReadError;
use crate::io::Poll;
use crate::layout::lemma_archive_len;
use crate::read_state::saturating_sum;
use crate::reader::Reader;
use crate::reader_entry::READ_SIZE;
use crate::reading::{all_exact, lemma_exact_complete, same_but_crc32s};
use crate::text::{decimal, push_decimal};
use http_range_header::{EndPosition, ParsedRanges, StartPosition, SyntacticallyCorrectRange};
use std::task::Context;
use vstd::prelude::*;
use vstd::string::StringExecFns;

verus! {

/// Where a requested range begins.
#[derive(Clone, Copy, Debug, PartialEq, Eq, Structural)]
pub enum RangeStart {
    /// So many bytes after the start.
    Index(u64),
    /// So many bytes before the end.
    FromLast(u64),
}

/// Where a requested range ends.
#[derive(Clone, Copy, Debug, PartialEq, Eq, Structural)]
pub enum RangeEnd {
    /// With this byte, counted from the start.
    Index(u64),
    /// With the last byte.
    LastByte,
}

/// A range that was requested.
#[derive(Clone, Copy, Debug, PartialEq, Eq, Structural)]
pub struct RequestedRange {
    pub start: RangeStart,
    pub end: RangeEnd,
}

/// What the `Range` header of a request holds, if there is one.
#[derive(Debug)]
pub enum RangeHeader {
    /// The request has no such header.
    Absent,
    /// The header is not text.
    Unreadable,
    /// The header is this text.
    Text(String),
}

/// What a request asks for.
#[derive(Debug)]
pub enum Requested {
    /// All of the archive.
    Whole,
    /// Ranges, but it is not clear which ones.
    Malformed,
    /// These ranges.
    Ranges(Vec<RequestedRange>),
}

/// How a request fares.
#[derive(Clone, Copy, Debug, PartialEq, Eq, Structural)]
pub enum StatusCode {
    Success,
    PartialContent,
    BadRequest,
    RangeNotSatisfiable,
}

impl StatusCode {
    /// The number that stands for the status.
    pub open spec fn code(self) -> u16 {
        match self {
            StatusCode::Success => 200,
            StatusCode::PartialContent => 206,
            StatusCode::BadRequest => 400,
            StatusCode::RangeNotSatisfiable => 416,
        }
    }

    /// The number that stands for the status.
    pub fn as_u16(&self) -> (code: u16)
        ensures
            code == (match *self {
                StatusCode::Success => 200u16,
                StatusCode::PartialContent => 206,
                StatusCode::BadRequest => 400,
                StatusCode::RangeNotSatisfiable => 416,
            }),
            code == self.code(),
    {
        match self {
            StatusCode::Success => 200,
            StatusCode::PartialContent => 206,
            StatusCode::BadRequest => 400,
            StatusCode::RangeNotSatisfiable => 416,
        }
    }
}

/// The ranges that the text of a `Range` header asks for, if it is well formed.
pub uninterp spec fn parsed_ranges(header: Seq<char>) -> Option<Seq<RequestedRange>>;

/// Parses a `Range` header by `http_range_header::parse_range_header`.
///
/// What it accepts is a function of the text alone. What it accepts is never empty.
#[verifier::external_body]
fn parse_ranges(header: &str) -> (ranges: Option<Vec<RequestedRange>>)
    ensures
        match ranges {
            Some(ranges) => parsed_ranges(header@) == Some(ranges@) && ranges@.len() > 0,
            None => parsed_ranges(header@) is None,
        },
{
    let parsed = http_range_header::parse_range_header(header).ok()?;
    let convert = |range: &SyntacticallyCorrectRange| RequestedRange {
        start: match range.start {
            StartPosition::Index(i) => RangeStart::Index(i),
            StartPosition::FromLast(i) => RangeStart::FromLast(i),
        },
        end: match range.end {
            EndPosition::Index(i) => RangeEnd::Index(i),
            EndPosition::LastByte => RangeEnd::LastByte,
        },
    };
    Some(parsed.ranges.iter().map(convert).collect())
}

/// The last byte of something of this size.
pub open spec fn last_byte(size: u64) -> u64 {
    if size == 0 {
        0
    } else {
        (size - 1) as u64
    }
}

impl RequestedRange {
    /// Whether the range begins in something of this size, and not behind its own end.
    pub open spec fn satisfiable(self, size: u64) -> bool {
        &&& self.start matches RangeStart::FromLast(count) ==> count <= size
        &&& self.first(size) <= self.last(size)
    }

    /// The first byte of the range.
    pub open spec fn first(self, size: u64) -> int {
        match self.start {
            RangeStart::Index(index) => index as int,
            RangeStart::FromLast(count) => size - count,
        }
    }

    /// The last byte of the range, which is cut off at the end.
    pub open spec fn last(self, size: u64) -> int {
        match self.end {
            RangeEnd::Index(index) => if index < last_byte(size) {
                index as int
            } else {
                last_byte(size) as int
            },
            RangeEnd::LastByte => last_byte(size) as int,
        }
    }

    /// Whether two ranges have bytes in common.
    pub open spec fn overlaps(self, other: RequestedRange, size: u64) -> bool {
        &&& self.first(size) <= other.last(size)
        &&& other.first(size) <= self.last(size)
    }
}

/// Whether all ranges can be satisfied and no two of them have bytes in common.
pub open spec fn satisfiable(ranges: Seq<RequestedRange>, size: u64) -> bool {
    &&& forall|i: int| 0 <= i < ranges.len() ==> (#[trigger] ranges[i]).satisfiable(size)
    &&& forall|i: int, j: int|
        0 <= i < j < ranges.len() ==> !(#[trigger] ranges[i]).overlaps(#[trigger] ranges[j], size)
}

/// Checks ranges against the size of what they are requested of, by
/// `http_range_header::ParsedRanges::validate`.
///
/// There is a result if all ranges can be satisfied and no two of them have bytes in common: the
/// first and the last byte of each.
#[verifier::external_body]
fn validate_ranges(ranges: &Vec<RequestedRange>, size: u64) -> (validated: Option<Vec<(u64, u64)>>)
    ensures
        validated is Some <==> satisfiable(ranges@, size),
        validated matches Some(bounds) ==> {
            &&& bounds@.len() == ranges@.len()
            &&& forall|i: int|
                0 <= i < ranges@.len() ==> {
                    &&& (#[trigger] bounds@[i]).0 == ranges@[i].first(size)
                    &&& bounds@[i].1 == ranges@[i].last(size)
                }
        },
{
    let convert = |range: &RequestedRange| SyntacticallyCorrectRange {
        start: match range.start {
            RangeStart::Index(i) => StartPosition::Index(i),
            RangeStart::FromLast(i) => StartPosition::FromLast(i),
        },
        end: match range.end {
            RangeEnd::Index(i) => EndPosition::Index(i),
            RangeEnd::LastByte => EndPosition::LastByte,
        },
    };
    let parsed = ParsedRanges { ranges: ranges.iter().map(convert).collect() };
    let validated = parsed.validate(size).ok()?;
    Some(validated.iter().map(|range| (*range.start(), *range.end())).collect())
}

/// What a request with a `Range` header asks for.
pub open spec fn requested_by(header: RangeHeader) -> Option<Option<Seq<RequestedRange>>> {
    match header {
        RangeHeader::Absent => None,
        RangeHeader::Unreadable => Some(None),
        RangeHeader::Text(text) => Some(parsed_ranges(text@)),
    }
}

impl Requested {
    /// The ranges that are asked for, if any are, as far as it is clear which ones.
    pub open spec fn ranges(&self) -> Option<Option<Seq<RequestedRange>>> {
        match self {
            Requested::Whole => None,
            Requested::Malformed => Some(None),
            Requested::Ranges(ranges) => Some(Some(ranges@)),
        }
    }

    /// If ranges are asked for, there is at least one.
    pub open spec fn wf(&self) -> bool {
        self matches Requested::Ranges(ranges) ==> ranges@.len() > 0
    }

    /// Finds out what a request asks for.
    pub fn new(header: RangeHeader) -> (requested: Requested)
        ensures
            requested.wf(),
            requested.ranges() == requested_by(header),
    {
        match header {
            RangeHeader::Absent => Requested::Whole,
            RangeHeader::Unreadable => Requested::Malformed,
            RangeHeader::Text(text) => match parse_ranges(text.as_str()) {
                Some(ranges) => Requested::Ranges(ranges),
                None => Requested::Malformed,
            },
        }
    }
}

/// The head of an answer.
#[derive(Debug)]
pub struct ResponseHead {
    pub status: StatusCode,
    /// The header `Content-Type`.
    pub content_type: &'static str,
    /// The header `Accept-Ranges`.
    pub accept_ranges: &'static str,
    /// The header `Content-Range`.
    pub content_range: Option<String>,
    /// Which part of the archive follows, if any: where it begins, and the header
    /// `Content-Length`.
    pub part: Option<(u64, u64)>,
}

/// The text `bytes first-last/size`.
pub open spec fn satisfied_range(first: nat, last: nat, size: nat) -> Seq<char> {
    "bytes "@ + decimal(first) + "-"@ + decimal(last) + "/"@ + decimal(size)
}

/// The text `bytes */size`.
pub open spec fn unsatisfied_range(size: nat) -> Seq<char> {
    "bytes */"@ + decimal(size)
}

impl ResponseHead {
    /// Whether this is how an archive of this size answers a request for these ranges.
    ///
    /// A request for no ranges gets the whole archive. A request for ranges gets the first of
    /// them, if all of them can be satisfied together. All answers say that this is about an archive,
    /// and that ranges of bytes can be requested.
    pub open spec fn answers(
        &self,
        ranges: Option<Option<Seq<RequestedRange>>>,
        size: u64,
    ) -> bool {
        &&& self.content_type@ == "application/zip"@
        &&& self.accept_ranges@ == "bytes"@
        &&& match ranges {
            None => {
                &&& self.status == StatusCode::Success
                &&& self.content_range is None
                &&& self.part == Some((0u64, size))
            },
            Some(None) => {
                &&& self.status == StatusCode::BadRequest
                &&& self.content_range is None
                &&& self.part is None
            },
            Some(Some(ranges)) => if satisfiable(ranges, size) {
                let first = ranges[0].first(size);
                let last = ranges[0].last(size);
                &&& self.status == (if first == 0 && last + 1 == size {
                    StatusCode::Success
                } else {
                    StatusCode::PartialContent
                })
                &&& self.content_range matches Some(text) && text@ == satisfied_range(
                    first as nat,
                    last as nat,
                    size as nat,
                )
                &&& self.part == Some((first as u64, (last - first + 1) as u64))
            } else {
                &&& self.status == StatusCode::RangeNotSatisfiable
                &&& self.content_range matches Some(text) && text@ == unsatisfied_range(
                    size as nat,
                )
                &&& self.part is None
            },
        }
    }

    /// How an archive of this size answers a request.
    pub fn new(requested: &Requested, size: u64) -> (head: ResponseHead)
        requires
            requested.wf(),
        ensures
            head.answers(requested.ranges(), size),
    {
        let (status, content_range, part) = match requested {
            Requested::Whole => (StatusCode::Success, None, Some((0, size))),
            Requested::Malformed => (StatusCode::BadRequest, None, None),
            Requested::Ranges(ranges) => match validate_ranges(ranges, size) {
                None => {
                    let mut text = String::from_str("bytes */");
                    push_decimal(&mut text, size);
                    (StatusCode::RangeNotSatisfiable, Some(text), None)
                },
                Some(validated) => {
                    let (first, last): (u64, u64) = validated[0];
                    let mut text = String::from_str("bytes ");
                    push_decimal(&mut text, first);
                    text.append("-");
                    push_decimal(&mut text, last);
                    text.append("/");
                    push_decimal(&mut text, size);
                    assert(ranges@[0].satisfiable(size));
                    let length: u64 = last - first + 1;
                    let status = if first != 0 || length != size {
                        StatusCode::PartialContent
                    } else {
                        StatusCode::Success
                    };
                    (status, Some(text), Some((first, length)))
                },
            },
        };
        ResponseHead {
            status,
            content_type: "application/zip",
            accept_ranges: "bytes",
            content_range,
            part,
        }
    }
}

/// A part of an archive, as the body of an answer.
pub struct Body<D: EntryData> {
    stream: BytesStream<D>,
    size: u64,
    remaining: u64,
}

impl<D: EntryData> Body<D> {
    /// The reader that the body comes from.
    pub closed spec fn spec_reader(&self) -> Reader<D> {
        self.stream.spec_reader()
    }

    /// The size of the whole body.
    pub closed spec fn spec_size(&self) -> u64 {
        self.size
    }

    /// How much of the body is left.
    pub closed spec fn spec_remaining(&self) -> u64 {
        self.remaining
    }

    /// What is left of the body is in the archive, and comes next.
    pub open spec fn on_track(&self) -> bool {
        let reader = self.spec_reader();
        &&& reader.on_track()
        &&& reader.spec_tell() + self.spec_remaining() <= reader.bytes().len()
    }

    /// What is left of the body.
    pub open spec fn rest(&self) -> Seq<u8> {
        let from = self.spec_reader().spec_tell() as int;
        self.spec_reader().bytes().subrange(from, from + self.spec_remaining())
    }

    /// Whether `block` is what comes next, and `after` is left to give what follows it.
    pub open spec fn gives(&self, block: Seq<u8>, after: Body<D>) -> bool {
        &&& block.len() <= self.rest().len()
        &&& block == self.rest().take(block.len() as int)
        &&& after.spec_remaining() == self.spec_remaining() - block.len()
        &&& after.spec_remaining() > 0 ==> after.on_track() && after.rest() == self.rest().skip(
            block.len() as int,
        )
    }

    /// The next `size` bytes of the stream are the body.
    pub fn new(stream: BytesStream<D>, size: u64) -> (body: Body<D>)
        ensures
            body.spec_reader() == stream.spec_reader(),
            body.spec_size() == size,
            body.spec_remaining() == size,
    {
        Body { stream, size, remaining: size }
    }

    /// The size of the whole body.
    pub fn size(&self) -> (size: u64)
        ensures
            size == self.spec_size(),
    {
        self.size
    }

    /// Gives the stream back.
    pub fn into_stream(self) -> (stream: BytesStream<D>)
        ensures
            stream.spec_reader() == self.spec_reader(),
    {
        self.stream
    }

    /// The next block, or nothing at the end of the body.
    ///
    /// No block goes past the end of the body.
    pub fn poll_next(&mut self, cx: &mut Context<'_>) -> (result: Poll<
        Option<Result<Vec<u8>, ReadError<D::Error>>>,
    >)
        requires
            old(self).spec_reader().wf(),
        ensures
            final(self).spec_reader().wf(),
            final(self).spec_size() == old(self).spec_size(),
            match result {
                Poll::Ready(Some(Ok(block))) => {
                    &&& 0 < block@.len() <= READ_SIZE
                    &&& final(self).spec_remaining() == old(self).spec_remaining() - block@.len()
                    &&& final(self).spec_remaining() > 0
                        ==> final(self).spec_reader().spec_tell() == saturating_sum(
                        old(self).spec_reader().spec_tell() as int,
                        block@.len() as int,
                    )
                },
                Poll::Ready(None) => {
                    &&& final(self).spec_remaining() == old(self).spec_remaining()
                    &&& old(self).spec_remaining() > 0 ==> final(self).spec_reader().at_end()
                    &&& final(self).spec_reader().spec_tell() == old(self).spec_reader().spec_tell()
                },
                _ => {
                    &&& final(self).spec_remaining() == old(self).spec_remaining()
                    &&& final(self).spec_reader().spec_tell() == old(self).spec_reader().spec_tell()
                    &&& final(self).spec_reader().asks_for_data()
                },
            },
            result matches Poll::Ready(Some(Err(error))) ==> final(self).spec_reader().fails_by(
                error,
            ),
            result is Pending ==> final(self).spec_reader().keeps_open(old(self).spec_reader()),
            old(self).spec_remaining() == 0 ==> {
                &&& result == Poll::Ready(None::<Result<Vec<u8>, ReadError<D::Error>>>)
                &&& *final(self) == *old(self)
            },
            old(self).spec_remaining() > 0 && old(self).spec_reader().pending_error() is Some ==> {
                let before = old(self).spec_reader();
                match result {
                    Poll::Ready(Some(Err(ReadError::Zippity(found)))) => before.pending_error()
                        == Some(found),
                    Poll::Ready(Some(Err(failed))) => {
                        &&& !before.state().data_prompt(before.spec_entries())
                        &&& failed is Source
                    },
                    Poll::Pending => {
                        &&& !before.state().data_prompt(before.spec_entries())
                        &&& final(self).spec_reader().pending_error() == before.pending_error()
                    },
                    _ => false,
                }
            },
            old(self).spec_reader().counted() && !(result matches Poll::Ready(Some(Err(_))))
                ==> final(self).spec_reader().counted(),
            old(self).spec_reader().in_order() && !(result matches Poll::Ready(Some(Err(_))))
                ==> final(self).spec_reader().in_order(),
            old(self).spec_reader().lists() && !(result matches Poll::Ready(Some(Err(_))))
                ==> final(self).spec_reader().lists(),
            same_but_crc32s(
                final(self).spec_reader().spec_entries(),
                old(self).spec_reader().spec_entries(),
            ),
            old(self).spec_remaining() > 0 && old(self).on_track() ==> {
                let before = old(self).spec_reader();
                match result {
                    Poll::Ready(Some(Err(ReadError::Zippity(found)))) => before.pending_error()
                        == Some(found),
                    Poll::Ready(Some(Err(failed))) => !before.prompt() && failed is Source,
                    Poll::Ready(Some(Ok(block))) => {
                        &&& before.pending_error() is None
                        &&& old(self).gives(block@, *final(self))
                        &&& block@ == old(self).rest().take(block@.len() as int)
                        &&& final(self).spec_remaining() > 0 ==> final(self).on_track()
                            && final(self).rest() == old(self).rest().skip(block@.len() as int)
                    },
                    Poll::Ready(None) => false,
                    Poll::Pending => {
                        &&& !before.prompt()
                        &&& final(self).spec_reader().pending_error() == before.pending_error()
                        &&& final(self).spec_reader().not_behind(before)
                        &&& final(self).on_track()
                        &&& final(self).rest() == old(self).rest()
                    },
                }
            },
    {
        if self.remaining == 0 {
            assert(same_but_crc32s(
                self.spec_reader().spec_entries(),
                self.spec_reader().spec_entries(),
            ));
            return Poll::Ready(None);
        }
        let ghost before = self.spec_reader();
        let mut block = match self.stream.poll_next(cx) {
            Poll::Ready(Some(Ok(block))) => block,
            Poll::Ready(Some(Err(error))) => {
                return Poll::Ready(Some(Err(error)));
            },
            Poll::Ready(None) => {
                return Poll::Ready(None);
            },
            Poll::Pending => {
                return Poll::Pending;
            },
        };
        let ghost whole = block@;
        if self.remaining < block.len() as u64 {
            block.truncate(self.remaining as usize);
            self.remaining = 0;
        } else {
            self.remaining = self.remaining - block.len() as u64;
        }
        proof {
            if old(self).on_track() && before.pending_error() is None {
                let from = before.spec_tell() as int;
                assert(whole == before.bytes().subrange(from, from + whole.len()));
                assert(block@ =~= whole.take(block@.len() as int));
                assert(block@ =~= old(self).rest().take(block@.len() as int));
                if self.remaining > 0 {
                    assert(self.rest() =~= old(self).rest().skip(block@.len() as int));
                }
            }
        }
        Poll::Ready(Some(Ok(block)))
    }
}

/// An answer to a request.
pub struct Response<D: EntryData> {
    pub head: ResponseHead,
    /// The part of the archive that was requested, or nothing if the request was refused.
    pub body: Body<D>,
}

impl<D: EntryData> Response<D> {
    /// Whether this is how the archive of `reader` answers a request for these ranges: by the part
    /// that the head speaks of, if there is one, and otherwise by nothing.
    pub open spec fn answers(
        &self,
        reader: Reader<D>,
        ranges: Option<Option<Seq<RequestedRange>>>,
    ) -> bool {
        let body = self.body;
        &&& self.head.answers(ranges, reader.spec_sizes().total_size)
        &&& match self.head.part {
            Some((offset, length)) => {
                &&& body.spec_size() == length
                &&& body.spec_remaining() == length
                &&& body.spec_reader().spec_tell() == offset
                &&& body.spec_reader().spec_entries() == reader.spec_entries()
                &&& all_exact(reader.spec_entries()) ==> body.on_track()
            },
            None => {
                &&& body.spec_size() == 0
                &&& body.spec_remaining() == 0
            },
        }
    }
}

/// An adapter for answering requests with an archive.
///
/// The response has the following headers:
/// - `Content-Type: application/zip`
/// - `Content-Length`
/// - `Accept-Ranges`
///
/// Default status code is `200 Ok`.
///
/// If header `Range` was set in input, the adapter tries to fulfill the request
/// and adds the `Content-Range` header.
/// Status can then also be :
/// - `400 Bad Request` (if range header had bad content)
/// - `416 Range Not Satisfiable` if range header had valid content but wrong for the content length
/// - `206 Partial Content` if only a partial response is produced based on the request
///
/// User should provide:
/// - `Content-Disposition`
/// - `Cache-Control`, `ETag`, `Last-Modified`
pub struct ActixWebAdapter<D: EntryData> {
    stream: BytesStream<D>,
}

impl<D: EntryData> ActixWebAdapter<D> {
    /// The reader of the archive.
    pub closed spec fn spec_reader(&self) -> Reader<D> {
        self.stream.spec_reader()
    }

    /// Answers a request for what is `requested`.
    ///
    /// The body of the answer is the part of the archive that the head speaks of, if there is one.
    pub fn respond(self, requested: &Requested) -> (response: Response<D>)
        requires
            self.spec_reader().wf(),
            requested.wf(),
        ensures
            response.answers(self.spec_reader(), requested.ranges()),
            response.head.answers(
                requested.ranges(),
                self.spec_reader().spec_sizes().total_size,
            ),
            match response.head.part {
                Some((offset, length)) => {
                    let body = response.body;
                    &&& body.spec_size() == length
                    &&& body.spec_remaining() == length
                    &&& body.spec_reader().wf()
                    &&& body.spec_reader().spec_tell() == offset
                    &&& body.spec_reader().spec_entries() == self.spec_reader().spec_entries()
                    &&& body.spec_reader().pending_error() is None
                    &&& body.spec_reader().counted()
                    &&& offset == 0 ==> body.spec_reader().in_order()
                    &&& offset <= self.spec_reader().spec_sizes().cd_offset
                        ==> body.spec_reader().lists()
                    &&& all_exact(self.spec_reader().spec_entries()) ==> body.on_track()
                },
                None => {
                    &&& response.body.spec_size() == 0
                    &&& response.body.spec_remaining() == 0
                    &&& response.body.spec_reader() == self.spec_reader()
                },
            },
    {
        let mut stream = self.stream;
        let size: u64 = stream.reader_ref().size();
        let head = ResponseHead::new(requested, size);
        let body = match head.part {
            Some((offset, length)) => {
                let reader = stream.reader_mut();
                reader.seek_from_start_mut(offset);
                Body::new(stream, length)
            },
            None => Body::new(stream, 0),
        };
        proof {
            let entries = self.spec_reader().spec_entries();
            if all_exact(entries) {
                lemma_exact_complete(entries);
                lemma_archive_len(self.spec_reader().files());
            }
            if let Requested::Ranges(ranges) = requested {
                if satisfiable(ranges@, size) {
                    assert(ranges@[0].satisfiable(size));
                }
            }
        }
        Response { head, body }
    }

    /// Answers a request that has this `Range` header.
    pub fn respond_to(self, header: RangeHeader) -> (response: Response<D>)
        requires
            self.spec_reader().wf(),
        ensures
            response.answers(self.spec_reader(), requested_by(header)),
            response.head.answers(
                requested_by(header),
                self.spec_reader().spec_sizes().total_size,
            ),
            match response.head.part {
                Some((offset, length)) => {
                    let body = response.body;
                    &&& body.spec_size() == length
                    &&& body.spec_remaining() == length
                    &&& body.spec_reader().wf()
                    &&& body.spec_reader().spec_tell() == offset
                    &&& body.spec_reader().spec_entries() == self.spec_reader().spec_entries()
                    &&& body.spec_reader().pending_error() is None
                    &&& body.spec_reader().counted()
                    &&& offset == 0 ==> body.spec_reader().in_order()
                    &&& offset <= self.spec_reader().spec_sizes().cd_offset
                        ==> body.spec_reader().lists()
                    &&& all_exact(self.spec_reader().spec_entries()) ==> body.on_track()
                },
                None => {
                    &&& response.body.spec_size() == 0
                    &&& response.body.spec_remaining() == 0
                    &&& response.body.spec_reader() == self.spec_reader()
                },
            },
    {
        self.respond(&Requested::new(header))
    }
}

impl<D: EntryData> Reader<D> {
    /// Wraps this reader into a struct that answers requests.
    ///
    /// See the docstring on [`ActixWebAdapter`] for info on response headers.
    pub fn into_responder(self) -> (adapter: ActixWebAdapter<D>)
        ensures
            adapter.spec_reader() == self,
    {
        ActixWebAdapter { stream: self.into_bytes_stream() }
    }
}

} // verus!
