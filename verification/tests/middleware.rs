use h1::middleware::Logger;
use h1::bytes::ByteTendril;
use h1::parser::{parse_request, ParseStatus};

#[test]
fn the_logger_writes_method_and_path() {
    let request = match parse_request(ByteTendril::from_slice(b"GET /plaintext HTTP/1.1\r\n\r\n").unwrap(), 16) {
        ParseStatus::Complete(request, _) => request,
        other => panic!("not complete: {:?}", other),
    };
    assert_eq!(Logger::default().line(&request), "[GET] /plaintext");
}

#[test]
fn the_logger_writes_the_path_with_its_query() {
    let request = match parse_request(ByteTendril::from_slice(b"POST /a/b?c=d HTTP/1.0\r\n\r\n").unwrap(), 16) {
        ParseStatus::Complete(request, _) => request,
        other => panic!("not complete: {:?}", other),
    };
    assert_eq!(Logger::default().line(&request), "[POST] /a/b?c=d");
}
