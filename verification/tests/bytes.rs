use h1::bytes::ByteTendril;

#[test]
fn a_tendril_holds_a_copy_of_the_bytes() {
    let t = ByteTendril::from_slice(b"GET / HTTP/1.1").unwrap();
    assert_eq!(t.len(), 14);
    assert_eq!(t.as_slice(), b"GET / HTTP/1.1");
}

#[test]
fn a_tendril_of_no_bytes() {
    let t = ByteTendril::from_slice(b"").unwrap();
    assert_eq!(t.len(), 0);
    assert_eq!(t.as_slice(), b"");
}

#[test]
fn a_tendril_of_few_bytes_and_one_of_many() {
    // Up to eight bytes lie in the tendril itself, more on the heap.
    for n in [1usize, 7, 8, 9, 16, 17, 5000] {
        let bytes: Vec<u8> = (0..n).map(|i| (i % 251) as u8).collect();
        let t = ByteTendril::from_slice(&bytes).unwrap();
        assert_eq!(t.len(), n);
        assert_eq!(t.as_slice(), &bytes[..]);
    }
}

#[test]
fn truncate_cuts_a_tendril_at_the_back() {
    let mut t = ByteTendril::from_slice(b"hello wide world").unwrap();
    t.truncate(10);
    assert_eq!(t.as_slice(), b"hello wide");
    assert_eq!(t.len(), 10);
    t.truncate(5);
    assert_eq!(t.as_slice(), b"hello");
    t.truncate(5);
    assert_eq!(t.as_slice(), b"hello");
    t.truncate(0);
    assert_eq!(t.len(), 0);
}

#[test]
fn truncate_leaves_a_shorter_tendril_alone() {
    let mut t = ByteTendril::from_slice(b"hello").unwrap();
    t.truncate(6);
    assert_eq!(t.as_slice(), b"hello");
    t.truncate(usize::MAX);
    assert_eq!(t.as_slice(), b"hello");
}

fn sendable<T: Send>(value: T) -> T {
    value
}

#[test]
fn a_tendril_can_be_sent_and_parsed() {
    let t = sendable(ByteTendril::from_slice(b"POST /p HTTP/1.1\r\nContent-Length: 2\r\n\r\nokay").unwrap());
    match h1::parser::parse_request(t, 16) {
        h1::parser::ParseStatus::Complete(request, consumed) => {
            assert_eq!(consumed, 41);
            assert_eq!(request.body(), b"ok");
            assert_eq!(request.into_buffer().as_slice(), b"POST /p HTTP/1.1\r\nContent-Length: 2\r\n\r\nok");
        }
        other => panic!("not complete: {:?}", other),
    }
}
