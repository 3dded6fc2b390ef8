use h1::buffer::PooledBuffer;
use h1::request::{InnerRequest, Request};

fn sample() -> Request {
    let head = InnerRequest::new(
        "POST".to_string(),
        "/upload".to_string(),
        1,
        vec![(b"Host".to_vec(), b"example.org".to_vec())],
    );
    Request::new(PooledBuffer::from_slice(b"<head>payload"), head, 6)
}

#[test]
fn a_head_gives_back_what_it_was_made_of() {
    let head = InnerRequest::new("GET".to_string(), "/a?b=c".to_string(), 0, Vec::new());
    assert_eq!(head.method(), "GET");
    assert_eq!(head.path(), "/a?b=c");
    assert_eq!(head.version(), 0);
    assert!(head.headers().is_empty());
}

#[test]
fn a_request_shows_its_head() {
    let request = sample();
    assert_eq!(request.method(), "POST");
    assert_eq!(request.path(), "/upload");
    assert_eq!(request.version(), 1);
    assert_eq!(request.headers(), &vec![(b"Host".to_vec(), b"example.org".to_vec())]);
}

#[test]
fn the_body_is_what_follows_the_head() {
    assert_eq!(sample().body(), b"payload");
}

#[test]
fn the_body_is_empty_where_the_head_is_the_whole_frame() {
    let head = InnerRequest::new("GET".to_string(), "/".to_string(), 1, Vec::new());
    let request = Request::new(PooledBuffer::from_slice(b"<head>"), head, 6);
    assert_eq!(request.body(), b"");
}

#[test]
fn a_header_field_is_added_behind_the_others() {
    let mut request = sample();
    request.insert_header(b"X-Trace-Id", b"42");
    assert_eq!(
        request.headers(),
        &vec![
            (b"Host".to_vec(), b"example.org".to_vec()),
            (b"X-Trace-Id".to_vec(), b"42".to_vec()),
        ]
    );
    assert_eq!(request.method(), "POST");
    assert_eq!(request.path(), "/upload");
    assert_eq!(request.body(), b"payload");
}

#[test]
fn a_request_gives_up_its_buffer() {
    assert_eq!(sample().into_buffer().as_slice(), b"<head>payload");
}
