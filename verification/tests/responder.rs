use std::sync::Arc;
use std::task::{Context, Wake, Waker};
use zippity::builder::Builder;
use zippity::byte_stream::BytesStream;
use zippity::io::Poll;
use zippity::reader::Reader;
use zippity::responder::{
    Body, RangeEnd, RangeHeader, RangeStart, Requested, RequestedRange, Response, ResponseHead,
    StatusCode,
};

struct NoWake;

impl Wake for NoWake {
    fn wake(self: Arc<Self>) {}
}

fn text(header: &str) -> RangeHeader {
    RangeHeader::Text(header.to_owned())
}

fn sample() -> Reader<Vec<u8>> {
    let mut builder: Builder<Vec<u8>> = Builder::new();
    assert!(builder.add_entry_data("a".to_owned(), vec![1; 10000]).is_ok());
    assert!(builder.add_entry_data("b".to_owned(), vec![2; 50]).is_ok());
    builder.build()
}

fn stream_to_vec(mut stream: BytesStream<Vec<u8>>) -> Vec<u8> {
    let waker = Waker::from(Arc::new(NoWake));
    let mut cx = Context::from_waker(&waker);
    let mut output = Vec::new();
    loop {
        match stream.poll_next(&mut cx) {
            Poll::Ready(Some(Ok(block))) => {
                assert!(!block.is_empty());
                output.extend_from_slice(&block);
            }
            Poll::Ready(None) => return output,
            _ => panic!("Data in memory can always be read"),
        }
    }
}

fn body_to_vec(mut body: Body<Vec<u8>>) -> Vec<u8> {
    let waker = Waker::from(Arc::new(NoWake));
    let mut cx = Context::from_waker(&waker);
    let mut output = Vec::new();
    loop {
        match body.poll_next(&mut cx) {
            Poll::Ready(Some(Ok(block))) => output.extend_from_slice(&block),
            Poll::Ready(None) => return output,
            _ => panic!("Data in memory can always be read"),
        }
    }
}

/// An adapter can be made of any reader.
#[test]
fn foo() {
    let response = Builder::<()>::new().build().into_responder().respond_to(RangeHeader::Absent);
    assert!(response.body.size() == 98);
}

// Test the headers are set as expected when requesting the zip file without range header.
#[test]
fn default_response_headers() {
    let reader = Builder::<&[u8]>::new().build();
    let size = reader.size();

    let response = reader.into_responder().respond_to(RangeHeader::Absent);

    assert!(response.head.status.as_u16() == 200);
    assert!(response.head.content_type == "application/zip");
    assert!(response.head.accept_ranges == "bytes");
    let (_, content_length) = response.head.part.expect("Response must contain Content-Length");
    assert!(content_length == size);
    assert!(response.head.content_range.is_none());
    assert!(response.body.size() == size);
}

// Test the headers are set as expected when requesting the zip file with range header.
#[test]
fn range_response_headers() {
    let reader = Builder::<&[u8]>::new().build();
    let size = reader.size();

    let response = reader.into_responder().respond_to(text("bytes=0-5"));

    assert!(response.head.status.as_u16() == 206);
    assert!(response.head.content_type == "application/zip");
    assert!(response.head.accept_ranges == "bytes");
    let (_, content_length) = response.head.part.expect("Response must contain Content-Length");
    assert!(content_length == 6);
    let content_range =
        response.head.content_range.expect("Response must contain Content-Range");
    assert!(content_range == format!("bytes 0-5/{size}"));
}

fn respond(header: &str) -> Response<()> {
    // The archive has 98 bytes
    Builder::<()>::new().build().into_responder().respond_to(text(header))
}

#[test]
fn ranges_are_cut_off() {
    for (header, content_range, part) in [
        ("bytes=0-97", "bytes 0-97/98", (0u64, 98u64)),
        ("bytes=0-", "bytes 0-97/98", (0, 98)),
        ("bytes=0-1000", "bytes 0-97/98", (0, 98)),
        ("bytes=97-", "bytes 97-97/98", (97, 1)),
        ("bytes=-10", "bytes 88-97/98", (88, 10)),
        ("bytes=-98", "bytes 0-97/98", (0, 98)),
        ("bytes=10-20, 30-40", "bytes 10-20/98", (10, 11)),
        ("bytes=30-40,10-20", "bytes 30-40/98", (30, 11)),
    ] {
        let response = respond(header);
        let expected = if part == (0, 98) { 200 } else { 206 };
        assert_eq!(response.head.status.as_u16(), expected, "{header}");
        assert_eq!(response.head.content_range.as_deref(), Some(content_range));
        assert_eq!(response.head.part, Some(part));
        assert_eq!(response.body.size(), part.1);
    }
}

#[test]
fn unsatisfiable_ranges() {
    for header in ["bytes=98-", "bytes=98-99", "bytes=20-10", "bytes=-99", "bytes=0-10, 5-20"] {
        let response = respond(header);
        assert_eq!(response.head.status.as_u16(), 416, "{header}");
        assert_eq!(response.head.content_type, "application/zip");
        assert_eq!(response.head.accept_ranges, "bytes");
        assert_eq!(response.head.content_range.as_deref(), Some("bytes */98"));
        assert!(response.head.part.is_none());
        assert_eq!(response.body.size(), 0);
        assert_eq!(response.body.into_stream().into_reader().size(), 98);
    }
}

#[test]
fn malformed_ranges() {
    for header in ["", "bytes", "bytes=", "bytes=a-b", "items=0-5", "bytes=0-5 ", "bytes=-0"] {
        let response = respond(header);
        assert_eq!(response.head.status, StatusCode::BadRequest, "{header}");
        assert_eq!(response.head.status.as_u16(), 400);
        assert_eq!(response.head.content_type, "application/zip");
        assert_eq!(response.head.accept_ranges, "bytes");
        assert!(response.head.content_range.is_none());
        assert_eq!(response.body.size(), 0);
        assert_eq!(response.body.into_stream().into_reader().size(), 98);
    }
    let response =
        Builder::<()>::new().build().into_responder().respond_to(RangeHeader::Unreadable);
    assert_eq!(response.head.status, StatusCode::BadRequest);
}

#[test]
fn response_to_ranges() {
    let range = |start, end| RequestedRange { start, end };
    let head = ResponseHead::new(
        &Requested::Ranges(vec![range(RangeStart::Index(3), RangeEnd::Index(7))]),
        10,
    );
    assert_eq!(head.status, StatusCode::PartialContent);
    assert_eq!(head.part, Some((3, 5)));
    let head = ResponseHead::new(
        &Requested::Ranges(vec![
            range(RangeStart::FromLast(3), RangeEnd::LastByte),
            range(RangeStart::Index(0), RangeEnd::Index(7)),
        ]),
        10,
    );
    assert_eq!(head.status, StatusCode::RangeNotSatisfiable);
    let head = ResponseHead::new(&Requested::Whole, u64::MAX);
    assert_eq!(head.part, Some((0, u64::MAX)));
}

#[test]
fn stream_gives_the_archive() {
    let whole = stream_to_vec(sample().into_bytes_stream());
    assert!(whole.len() as u64 == sample().size());
    let mut stream = BytesStream::from(sample());
    assert!(stream.reader_ref().size() == whole.len() as u64);
    stream.reader_mut().seek_from_start_mut(100);
    assert!(stream_to_vec(stream) == whole[100..]);
    assert!(BytesStream::new(sample()).into_reader().tell() == 0);
}

#[test]
fn body_gives_the_requested_range() {
    let whole = stream_to_vec(sample().into_bytes_stream());
    for (first, last) in [(0usize, 0usize), (5, 9), (0, 8191), (50, 8242), (9000, 10200), (10300, 10420)]
    {
        let response = sample().into_responder().respond_to(text(&format!("bytes={first}-{last}")));
        let body = response.body;
        assert_eq!(body.size(), (last - first + 1) as u64);
        assert!(body_to_vec(body) == whole[first..=last]);
    }
}

#[test]
fn body_size_limiting() {
    let size = sample().size();
    for read_length in [0u64, 1, 97, 8191, 8192, 8193, size - 1, size] {
        let body = Body::new(sample().into_bytes_stream(), read_length);
        let data = body_to_vec(body);
        assert!(data.len() as u64 == read_length);
    }
}
