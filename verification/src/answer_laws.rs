//! What answers to requests hold.

use crate::entry_data::EntryData;
use crate::layout::lemma_archive_len;
use crate::reader::Reader;
use crate::reading::{all_exact, lemma_exact_complete};
use crate::responder::{
    last_byte, parsed_ranges, requested_by, satisfiable, Body, RangeEnd, RangeHeader, RangeStart,
    RequestedRange, Response, ResponseHead, StatusCode,
};
use crate::text::{decimal, digit, hexadecimal};
use vstd::prelude::*;

verus! {

/// The value of a digit.
pub open spec fn digit_value(c: char) -> int {
    if '0' <= c <= '9' {
        c as int - '0' as int
    } else if 'a' <= c <= 'f' {
        c as int - 'a' as int + 10
    } else {
        -1
    }
}

/// The number that digits stand for.
pub open spec fn text_value(text: Seq<char>, base: int) -> int
    decreases text.len(),
{
    if text.len() == 0 {
        0
    } else {
        text_value(text.drop_last(), base) * base + digit_value(text.last())
    }
}

/// All characters are digits.
pub open spec fn is_number(text: Seq<char>, base: int) -> bool {
    &&& text.len() > 0
    &&& forall|i: int| 0 <= i < text.len() ==> 0 <= digit_value(#[trigger] text[i]) < base
}

/// A digit is read back.
proof fn lemma_digit(n: nat)
    requires
        n < 16,
    ensures
        digit_value(digit(n)) == n,
{
}

/// A number is read back from its decimal digits, which do not begin with a zero unless there is
/// only one.
pub proof fn law_decimal_reads_back(n: nat)
    ensures
        text_value(decimal(n), 10) == n,
        is_number(decimal(n), 10),
        n > 0 ==> decimal(n)[0] != '0',
        n == 0 ==> decimal(n) == seq!['0'],
    decreases n,
{
    lemma_digit(n % 10);
    if n < 10 {
        lemma_digit(n);
        assert(decimal(n).drop_last() =~= Seq::<char>::empty());
        assert(text_value(Seq::<char>::empty(), 10) == 0);
        if n > 0 {
            assert(digit_value('0') == 0);
        }
    } else {
        law_decimal_reads_back(n / 10);
        let before = decimal(n / 10);
        let text = decimal(n);
        assert(text.drop_last() =~= before);
        assert(text.last() == digit(n % 10));
        assert forall|i: int| 0 <= i < text.len() implies 0 <= digit_value(#[trigger] text[i])
            < 10 by {
            if i < before.len() {
                assert(text[i] == before[i]);
            }
        }
        assert(text[0] == before[0]);
    }
}

/// How many numbers have so many hexadecimal digits.
pub open spec fn hexadecimal_limit(width: nat) -> nat
    decreases width,
{
    if width == 0 {
        1
    } else {
        16 * hexadecimal_limit((width - 1) as nat)
    }
}

/// A number that has no more digits than are written is read back from its hexadecimal digits.
pub proof fn law_hexadecimal_reads_back(n: nat, width: nat)
    requires
        width > 0,
        n < hexadecimal_limit(width),
    ensures
        text_value(hexadecimal(n, width), 16) == n,
        is_number(hexadecimal(n, width), 16),
        hexadecimal(n, width).len() == width,
    decreases width,
{
    lemma_digit(n % 16);
    let before = hexadecimal(n / 16, (width - 1) as nat);
    let text = hexadecimal(n, width);
    assert(text.drop_last() =~= before);
    if width == 1 {
        assert(hexadecimal_limit(0) == 1);
        assert(before =~= Seq::<char>::empty());
        assert(text_value(before, 16) == 0);
    } else {
        law_hexadecimal_reads_back(n / 16, (width - 1) as nat);
        assert forall|i: int| 0 <= i < text.len() implies 0 <= digit_value(#[trigger] text[i])
            < 16 by {
            if i < before.len() {
                assert(text[i] == before[i]);
            }
        }
    }
}

/// Whether a range asks for a byte of something of this size. `a-b` asks for those from `a` to `b`,
/// `a-` for those from `a` on, and `-n` for the last `n`.
pub open spec fn asks_for(range: RequestedRange, size: u64, position: int) -> bool {
    &&& 0 <= position < size
    &&& match range.start {
        RangeStart::Index(first) => first <= position,
        RangeStart::FromLast(count) => size - count <= position,
    }
    &&& match range.end {
        RangeEnd::Index(last) => position <= last,
        RangeEnd::LastByte => true,
    }
}

/// Whether a range asks for something, and not for more bytes from the end than there are.
pub open spec fn can_be_given(range: RequestedRange, size: u64) -> bool {
    &&& exists|position: int| asks_for(range, size, position)
    &&& range.start matches RangeStart::FromLast(count) ==> count <= size
}

/// Which bytes a range asks for.
proof fn lemma_asks_for(range: RequestedRange, size: u64)
    requires
        size > 0,
    ensures
        range.satisfiable(size) <==> can_be_given(range, size),
        range.satisfiable(size) ==> 0 <= range.first(size) <= range.last(size) < size && (forall|
            position: int,
        |
            asks_for(range, size, position) <==> range.first(size) <= position <= range.last(
                size,
            )),
{
    let (first, last) = (range.first(size), range.last(size));
    assert(last_byte(size) == size - 1);
    if range.satisfiable(size) {
        assert(asks_for(range, size, first));
    }
    if can_be_given(range, size) {
        let position = choose|position: int| asks_for(range, size, position);
        assert(first <= position <= last);
    }
}

/// A request for ranges gets what it asks for, or is refused: it is refused exactly if one of the
/// ranges asks for nothing, or for more bytes from the end than there are, or two of them ask for
/// the same byte.
pub proof fn law_ranges_are_given_or_refused(
    head: ResponseHead,
    ranges: Seq<RequestedRange>,
    size: u64,
)
    requires
        size > 0,
        head.answers(Some(Some(ranges)), size),
    ensures
        head.part is Some <==> {
            &&& forall|i: int| 0 <= i < ranges.len() ==> can_be_given(#[trigger] ranges[i], size)
            &&& forall|i: int, j: int, position: int|
                0 <= i < j < ranges.len() && asks_for(ranges[i], size, position) ==> !asks_for(
                    ranges[j],
                    size,
                    position,
                )
        },
        head.part is None ==> head.status == StatusCode::RangeNotSatisfiable,
{
    assert forall|i: int| 0 <= i < ranges.len() implies (#[trigger] ranges[i]).satisfiable(size)
        == can_be_given(ranges[i], size) by {
        lemma_asks_for(ranges[i], size);
    }
    if satisfiable(ranges, size) {
        assert forall|i: int, j: int, position: int|
            0 <= i < j < ranges.len() && asks_for(
                ranges[i],
                size,
                position,
            ) implies !asks_for(ranges[j], size, position) by {
            lemma_asks_for(ranges[i], size);
            lemma_asks_for(ranges[j], size);
            assert(ranges[i].satisfiable(size) && ranges[j].satisfiable(size));
            assert(!ranges[i].overlaps(ranges[j], size));
        }
    } else if forall|i: int| 0 <= i < ranges.len() ==> can_be_given(#[trigger] ranges[i], size) {
        let (i, j) = choose|i: int, j: int|
            0 <= i < j < ranges.len() && (#[trigger] ranges[i]).overlaps(
                #[trigger] ranges[j],
                size,
            );
        lemma_asks_for(ranges[i], size);
        lemma_asks_for(ranges[j], size);
        assert(can_be_given(ranges[i], size) && can_be_given(ranges[j], size));
        let position = if ranges[i].first(size) <= ranges[j].first(size) {
            ranges[j].first(size)
        } else {
            ranges[i].first(size)
        };
        assert(asks_for(ranges[i], size, position));
        assert(asks_for(ranges[j], size, position));
    }
}

/// The part of an archive that answers a request is exactly what the first range asks for: a byte
/// belongs to it if and only if the range asks for it.
pub proof fn law_part_is_what_was_asked_for(
    head: ResponseHead,
    ranges: Seq<RequestedRange>,
    size: u64,
    position: int,
)
    requires
        size > 0,
        ranges.len() > 0,
        head.answers(Some(Some(ranges)), size),
        head.part is Some,
    ensures
        head.part matches Some((offset, length)) && {
            &&& 0 < length
            &&& offset + length <= size
            &&& offset <= position < offset + length <==> asks_for(ranges[0], size, position)
        },
{
    assert(ranges[0].satisfiable(size));
    lemma_asks_for(ranges[0], size);
}

/// An answer is complete if and only if the whole archive is given, and partial if only a part
/// of it is.
pub proof fn law_status_tells_what_is_given(
    head: ResponseHead,
    ranges: Option<Option<Seq<RequestedRange>>>,
    size: u64,
)
    requires
        size > 0,
        head.answers(ranges, size),
        ranges matches Some(Some(asked)) ==> asked.len() > 0,
    ensures
        head.status == StatusCode::Success <==> head.part == Some((0u64, size)),
        head.status == StatusCode::PartialContent <==> head.part is Some && head.part != Some(
            (0u64, size),
        ),
        head.status == StatusCode::BadRequest <==> ranges == Some(None::<Seq<RequestedRange>>),
        ranges is None ==> head.part == Some((0u64, size)),
        ranges == Some(None::<Seq<RequestedRange>>) ==> head.part is None,
        head.content_type@ == "application/zip"@,
        head.accept_ranges@ == "bytes"@,
{
    if let Some(Some(asked)) = ranges {
        if head.part is Some {
            assert(asked[0].satisfiable(size));
            lemma_asks_for(asked[0], size);
        }
    }
}

/// The header `Content-Range` says what is given, in digits that read back to the first and the last
/// byte of the part that follows and to the size of the archive. A refused request is told the size
/// alone.
pub proof fn law_content_range_tells_what_is_given(
    head: ResponseHead,
    ranges: Seq<RequestedRange>,
    size: u64,
)
    requires
        size > 0,
        ranges.len() > 0,
        head.answers(Some(Some(ranges)), size),
    ensures
        head.content_range matches Some(text) && match head.part {
            Some((offset, length)) => exists|first: Seq<char>, last: Seq<char>, all: Seq<char>|
                {
                    &&& text@ == #[trigger] ("bytes "@ + first + "-"@ + last + "/"@ + all)
                    &&& is_number(first, 10) && text_value(first, 10) == offset
                    &&& is_number(last, 10) && text_value(last, 10) == offset + length - 1
                    &&& is_number(all, 10) && text_value(all, 10) == size
                },
            None => exists|all: Seq<char>|
                {
                    &&& text@ == #[trigger] ("bytes */"@ + all)
                    &&& is_number(all, 10) && text_value(all, 10) == size
                },
        },
{
    law_decimal_reads_back(size as nat);
    let all = decimal(size as nat);
    if satisfiable(ranges, size) {
        assert(ranges[0].satisfiable(size));
        lemma_asks_for(ranges[0], size);
        let first = decimal(ranges[0].first(size) as nat);
        let last = decimal(ranges[0].last(size) as nat);
        law_decimal_reads_back(ranges[0].first(size) as nat);
        law_decimal_reads_back(ranges[0].last(size) as nat);
        assert(head.content_range->0@ == "bytes "@ + first + "-"@ + last + "/"@ + all);
    } else {
        assert(head.content_range->0@ == "bytes */"@ + all);
    }
}

/// What a request for ranges is answered with is, byte for byte, what the first range asks for: a
/// byte of the archive that is asked for stands in the body as far behind its beginning as it
/// stands in the archive behind the first byte that is asked for, and nothing else is there.
pub proof fn law_body_is_what_was_asked_for<D: EntryData>(
    reader: Reader<D>,
    head: ResponseHead,
    body: Body<D>,
    ranges: Seq<RequestedRange>,
    position: int,
)
    requires
        reader.wf(),
        ranges.len() > 0,
        head.answers(Some(Some(ranges)), reader.spec_sizes().total_size),
        body.on_track(),
        body.spec_reader().spec_entries() == reader.spec_entries(),
        head.part == Some((body.spec_reader().spec_tell(), body.spec_remaining())),
    ensures
        ({
            let size = reader.spec_sizes().total_size;
            let offset = body.spec_reader().spec_tell();
            let rest = body.rest();
            &&& asks_for(ranges[0], size, offset as int)
            &&& !asks_for(ranges[0], size, offset - 1)
            &&& asks_for(ranges[0], size, position) <==> 0 <= position - offset < rest.len()
            &&& asks_for(ranges[0], size, position) ==> rest[position - offset]
                == reader.bytes()[position]
        }),
{
    let size = reader.spec_sizes().total_size;
    assert(size >= 98);
    law_part_is_what_was_asked_for(head, ranges, size, position);
    law_part_is_what_was_asked_for(head, ranges, size, body.spec_reader().spec_tell() as int);
    law_part_is_what_was_asked_for(head, ranges, size, body.spec_reader().spec_tell() - 1);
}

/// A request for no ranges gets the archive from the first to the last byte.
pub proof fn law_whole_body_is_the_archive<D: EntryData>(
    reader: Reader<D>,
    head: ResponseHead,
    body: Body<D>,
)
    requires
        reader.wf(),
        head.answers(None, reader.spec_sizes().total_size),
        body.on_track(),
        body.spec_reader().spec_entries() == reader.spec_entries(),
        head.part == Some((body.spec_reader().spec_tell(), body.spec_remaining())),
        reader.bytes().len() == reader.spec_sizes().total_size,
    ensures
        body.rest() == reader.bytes(),
{
    assert(body.rest() =~= reader.bytes());
}

/// Requests that are served have status codes from 200 on, and those that are refused from 400 on.
/// No two statuses have the same code.
pub proof fn law_codes_tell_statuses_apart(first: StatusCode, second: StatusCode)
    ensures
        first.code() == second.code() <==> first == second,
        first.code() as int / 100 == 2 <==> first == StatusCode::Success || first
            == StatusCode::PartialContent,
        first.code() as int / 100 == 4 <==> first == StatusCode::BadRequest || first
            == StatusCode::RangeNotSatisfiable,
        first.code() as int % 100 == 0 <==> first == StatusCode::Success || first
            == StatusCode::BadRequest,
        first == StatusCode::PartialContent ==> first.code() as int % 100 == 6,
        first == StatusCode::RangeNotSatisfiable ==> first.code() as int % 100 == 16,
{
}

/// An answer to a request for ranges holds, byte for byte, what the first range asks for. If the
/// request is refused, the answer holds nothing.
pub proof fn law_answers_hold_what_was_asked_for<D: EntryData>(
    reader: Reader<D>,
    response: Response<D>,
    ranges: Seq<RequestedRange>,
    position: int,
)
    requires
        reader.wf(),
        all_exact(reader.spec_entries()),
        ranges.len() > 0,
        response.answers(reader, Some(Some(ranges))),
    ensures
        ({
            let size = reader.spec_sizes().total_size;
            let rest = response.body.rest();
            match response.head.part {
                Some((offset, length)) => {
                    &&& rest.len() == length
                    &&& response.body.spec_size() == length
                    &&& asks_for(ranges[0], size, offset as int)
                    &&& !asks_for(ranges[0], size, offset - 1)
                    &&& asks_for(ranges[0], size, position) <==> 0 <= position - offset
                        < rest.len()
                    &&& asks_for(ranges[0], size, position) ==> rest[position - offset]
                        == reader.bytes()[position]
                },
                None => {
                    &&& response.body.spec_size() == 0
                    &&& response.body.spec_remaining() == 0
                },
            }
        }),
{
    if response.head.part is Some {
        law_body_is_what_was_asked_for(reader, response.head, response.body, ranges, position);
    }
}

/// An answer to a request for no ranges holds the whole archive, and one to a request that is not
/// understood holds nothing.
pub proof fn law_other_answers<D: EntryData>(reader: Reader<D>, response: Response<D>)
    requires
        reader.wf(),
        all_exact(reader.spec_entries()),
    ensures
        response.answers(reader, None) ==> response.body.rest() == reader.bytes()
            && response.body.spec_size() == reader.bytes().len(),
        response.answers(reader, Some(None)) ==> response.body.spec_size() == 0
            && response.body.spec_remaining() == 0,
{
    lemma_exact_complete(reader.spec_entries());
    lemma_archive_len(reader.files());
    if response.answers(reader, None) {
        law_whole_body_is_the_archive(reader, response.head, response.body);
    }
}

/// A request without a `Range` header asks for everything, and one whose header is no text is not
/// understood. Otherwise the text decides.
pub proof fn law_headers_decide(text: String)
    ensures
        requested_by(RangeHeader::Absent) is None,
        requested_by(RangeHeader::Unreadable) == Some(None::<Seq<RequestedRange>>),
        requested_by(RangeHeader::Text(text)) == Some(parsed_ranges(text@)),
{
}

/// The blocks of a body join: two of them, one after the other, are what comes next, and what is
/// left is what follows both.
pub proof fn law_blocks_join<D: EntryData>(
    first: Body<D>,
    block: Seq<u8>,
    second: Body<D>,
    next: Seq<u8>,
    third: Body<D>,
)
    requires
        first.gives(block, second),
        second.on_track(),
        second.spec_remaining() > 0,
        second.gives(next, third),
    ensures
        first.gives(block + next, third),
        block + next == first.rest().take((block.len() + next.len()) as int),
        block.len() + next.len() + third.spec_remaining() == first.spec_remaining(),
{
    let all = first.rest();
    let joined = block + next;
    assert(next =~= all.subrange(block.len() as int, (block.len() + next.len()) as int));
    assert(joined =~= all.take(joined.len() as int));
    if third.spec_remaining() > 0 {
        assert(all.skip(block.len() as int).skip(next.len() as int) =~= all.skip(
            joined.len() as int,
        ));
    }
}

/// The last block of a body ends it: all blocks together are the body.
pub proof fn law_last_block_ends_the_body<D: EntryData>(
    body: Body<D>,
    block: Seq<u8>,
    after: Body<D>,
)
    requires
        body.on_track(),
        body.gives(block, after),
        after.spec_remaining() == 0,
    ensures
        block == body.rest(),
{
    assert(body.rest().take(body.rest().len() as int) =~= body.rest());
}

} // verus!
