use h1::buffer::PooledBuffer;
use h1::reader::{FrameReader, Limits, ReadError, ReadStep, DEFAULT_MAX_FRAME_LEN};
use h1::request::Request;

const REQUEST: &[u8] =
    b"POST /submit HTTP/1.1\r\nHost: example.org\r\nContent-Length: 11\r\nX-Raw: \xff\r\n\r\nhello world";

fn reader() -> FrameReader {
    FrameReader::new(PooledBuffer::new(), Limits::default())
}

fn check(request: &Request) {
    assert_eq!(request.method(), "POST");
    assert_eq!(request.path(), "/submit");
    assert_eq!(request.version(), 1);
    assert_eq!(
        request.headers(),
        &vec![
            (b"Host".to_vec(), b"example.org".to_vec()),
            (b"Content-Length".to_vec(), b"11".to_vec()),
            (b"X-Raw".to_vec(), vec![0xffu8]),
        ]
    );
    assert_eq!(request.body(), b"hello world");
}

fn read(chunks: Vec<Vec<u8>>) -> (ReadStep, usize) {
    reader().feed_all(&chunks)
}

#[test]
fn the_default_limits() {
    let limits = Limits::default();
    assert_eq!(limits.max_headers, 16);
    assert_eq!(limits.max_frame_len, DEFAULT_MAX_FRAME_LEN);
    assert_eq!(DEFAULT_MAX_FRAME_LEN, 1 << 20);
}

#[test]
fn a_reader_starts_empty_whatever_its_buffer_held() {
    let reader = FrameReader::new(PooledBuffer::from_slice(b"stale"), Limits::default());
    assert_eq!(reader.gathered(), b"");
}

#[test]
fn one_read_with_the_whole_request() {
    match reader().feed(REQUEST) {
        ReadStep::Ready(request) => check(&request),
        other => panic!("not ready: {:?}", other),
    }
}

#[test]
fn two_reads_cut_at_any_place() {
    for cut in 1..REQUEST.len() {
        let first = match reader().feed(&REQUEST[..cut]) {
            ReadStep::NeedMore(reader) => reader,
            other => panic!("cut at {}: {:?}", cut, other),
        };
        assert_eq!(first.gathered(), &REQUEST[..cut]);
        match first.feed(&REQUEST[cut..]) {
            ReadStep::Ready(request) => check(&request),
            other => panic!("cut at {}: {:?}", cut, other),
        }
    }
}

#[test]
fn one_read_for_every_byte() {
    let chunks: Vec<Vec<u8>> = REQUEST.iter().map(|b| vec![*b]).collect();
    match read(chunks) {
        (ReadStep::Ready(request), reads) => {
            check(&request);
            assert_eq!(reads, REQUEST.len());
        }
        other => panic!("not ready: {:?}", other),
    }
}

#[test]
fn chunks_of_every_length() {
    for size in 1..=REQUEST.len() {
        let chunks: Vec<Vec<u8>> = REQUEST.chunks(size).map(|c| c.to_vec()).collect();
        let n = chunks.len();
        match read(chunks) {
            (ReadStep::Ready(request), reads) => {
                check(&request);
                assert_eq!(reads, n);
                assert_eq!(request.into_buffer().as_slice(), REQUEST);
            }
            other => panic!("chunks of {}: {:?}", size, other),
        }
    }
}

#[test]
fn reading_stops_with_the_read_that_brings_the_request() {
    let chunks = vec![REQUEST[..30].to_vec(), REQUEST[30..].to_vec(), b"GET / HTTP/1.1\r\n\r\n".to_vec()];
    match read(chunks) {
        (ReadStep::Ready(request), reads) => {
            check(&request);
            assert_eq!(reads, 2);
        }
        other => panic!("not ready: {:?}", other),
    }
}

#[test]
fn a_reader_that_got_too_little_asks_for_more() {
    let chunks = vec![REQUEST[..30].to_vec(), REQUEST[30..50].to_vec()];
    match read(chunks) {
        (ReadStep::NeedMore(reader), reads) => {
            assert_eq!(reads, 2);
            assert_eq!(reader.gathered(), &REQUEST[..50]);
        }
        other => panic!("not starved: {:?}", other),
    }
    match read(Vec::new()) {
        (ReadStep::NeedMore(reader), reads) => {
            assert_eq!(reads, 0);
            assert_eq!(reader.gathered(), b"");
        }
        other => panic!("not starved: {:?}", other),
    }
}

#[test]
fn an_empty_read_is_the_end_of_the_connection() {
    match reader().feed(b"") {
        ReadStep::Failed(ReadError::Eof, back) => assert!(back.is_empty()),
        other => panic!("no eof: {:?}", other),
    }
    let chunks = vec![REQUEST[..30].to_vec(), Vec::new(), REQUEST[30..].to_vec()];
    match read(chunks) {
        (ReadStep::Failed(ReadError::Eof, back), reads) => {
            assert_eq!(reads, 2);
            assert_eq!(back.as_slice(), &REQUEST[..30]);
        }
        other => panic!("no eof: {:?}", other),
    }
}

#[test]
fn a_request_that_does_not_fit_is_refused() {
    let limits = Limits { max_headers: 16, max_frame_len: 40 };
    let reader = FrameReader::new(PooledBuffer::new(), limits);
    let reader = match reader.feed(&REQUEST[..40]) {
        ReadStep::NeedMore(reader) => reader,
        other => panic!("not more: {:?}", other),
    };
    match reader.feed(&REQUEST[40..41]) {
        ReadStep::Failed(ReadError::TooLarge, back) => assert_eq!(back.as_slice(), &REQUEST[..40]),
        other => panic!("not too large: {:?}", other),
    }
}

#[test]
fn a_request_that_just_fits_is_read() {
    let limits = Limits { max_headers: 16, max_frame_len: REQUEST.len() };
    let reader = FrameReader::new(PooledBuffer::new(), limits);
    match reader.feed_all(&vec![REQUEST[..10].to_vec(), REQUEST[10..].to_vec()]) {
        (ReadStep::Ready(request), 2) => check(&request),
        other => panic!("not ready: {:?}", other),
    }
}

#[test]
fn bytes_that_are_no_request_fail_the_read() {
    let chunks = vec![b"GET / HT".to_vec(), b"XP/1.1\r\n".to_vec(), b"\r\n".to_vec()];
    match read(chunks) {
        (ReadStep::Failed(ReadError::Malformed(e), back), reads) => {
            assert_eq!(reads, 2);
            assert_eq!(e.reason(), "Version");
            assert_eq!(back.as_slice(), b"GET / HTXP/1.1\r\n");
        }
        other => panic!("not malformed: {:?}", other),
    }
}

#[test]
fn too_many_header_fields_fail_the_read() {
    let limits = Limits { max_headers: 2, max_frame_len: 1000 };
    let reader = FrameReader::new(PooledBuffer::new(), limits);
    match reader.feed(b"GET / HTTP/1.1\r\nA: 1\r\nB: 2\r\nC: 3\r\n\r\n") {
        ReadStep::Failed(ReadError::Malformed(e), _) => assert_eq!(e.reason(), "TooManyHeaders"),
        other => panic!("not malformed: {:?}", other),
    }
}

#[test]
fn the_reader_gives_up_its_buffer() {
    let reader = match reader().feed(b"GET /") {
        ReadStep::NeedMore(reader) => reader,
        other => panic!("not more: {:?}", other),
    };
    assert_eq!(reader.into_buffer().as_slice(), b"GET /");
}
