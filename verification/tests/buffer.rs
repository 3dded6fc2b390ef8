use h1::buffer::{BufferPool, PooledBuffer, INITIAL_CAPACITY};

#[test]
fn a_new_buffer_is_empty() {
    let buf = PooledBuffer::new();
    assert_eq!(buf.len(), 0);
    assert!(buf.is_empty());
    assert!(buf.capacity() >= INITIAL_CAPACITY);
}

#[test]
fn extend_appends() {
    let mut buf = PooledBuffer::from_slice(b"GET ");
    buf.extend(b"/ HTTP/1.1");
    assert_eq!(buf.as_slice(), b"GET / HTTP/1.1");
    assert_eq!(buf.len(), 14);
}

#[test]
fn truncate_cuts_and_leaves_a_shorter_buffer_alone() {
    let mut buf = PooledBuffer::from_slice(b"hello world");
    buf.truncate(5);
    assert_eq!(buf.as_slice(), b"hello");
    buf.truncate(50);
    assert_eq!(buf.as_slice(), b"hello");
    buf.truncate(0);
    assert!(buf.is_empty());
}

#[test]
fn an_empty_pool_hands_out_a_new_buffer() {
    let mut pool = BufferPool::new();
    assert_eq!(pool.available(), 0);
    let buf = pool.checkout();
    assert_eq!(buf.len(), 0);
    assert_eq!(pool.available(), 0);
}

#[test]
fn a_released_buffer_comes_back_empty_with_its_capacity() {
    let mut pool = BufferPool::new();
    let mut buf = pool.checkout();
    buf.extend(&[b'x'; 5000]);
    let capacity = buf.capacity();
    assert!(capacity >= 5000);
    pool.release(buf);
    assert_eq!(pool.available(), 1);
    let again = pool.checkout();
    assert_eq!(pool.available(), 0);
    assert_eq!(again.len(), 0);
    assert_eq!(again.as_slice(), b"");
    assert_eq!(again.capacity(), capacity);
}

#[test]
fn the_pool_grows_with_what_is_released() {
    let mut pool = BufferPool::new();
    let a = pool.checkout();
    let b = pool.checkout();
    let c = pool.checkout();
    pool.release(a);
    pool.release(b);
    pool.release(c);
    assert_eq!(pool.available(), 3);
    for left in [2usize, 1, 0, 0] {
        let buf = pool.checkout();
        assert!(buf.is_empty());
        assert_eq!(pool.available(), left);
    }
}

#[test]
fn nothing_of_one_request_shows_in_the_next() {
    let mut pool = BufferPool::new();
    let mut first = pool.checkout();
    first.extend(b"GET /secret HTTP/1.1\r\nCookie: token\r\n\r\n");
    pool.release(first);
    let mut second = pool.checkout();
    second.extend(b"GET /");
    assert_eq!(second.as_slice(), b"GET /");
}

#[test]
fn a_buffer_has_room_for_what_it_holds() {
    let mut buf = PooledBuffer::new();
    assert!(buf.capacity() >= buf.len());
    for round in 0..6 {
        buf.extend(&vec![b'x'; 700 * (round + 1)]);
        assert!(buf.capacity() >= buf.len());
    }
    assert_eq!(buf.len(), 14700);
    buf.truncate(10);
    assert!(buf.capacity() >= 14700);
    let copy = PooledBuffer::from_slice(&[7u8; 3000]);
    assert!(copy.capacity() >= 3000);
}

#[test]
fn the_buffer_that_was_released_last_is_handed_out_first() {
    let mut pool = BufferPool::new();
    let mut small = pool.checkout();
    let mut large = pool.checkout();
    small.extend(&[1u8; 10]);
    large.extend(&[2u8; 100000]);
    let small_room = small.capacity();
    let large_room = large.capacity();
    assert!(large_room >= 100000);
    assert!(small_room < 100000);
    pool.release(large);
    pool.release(small);
    let first = pool.checkout();
    assert_eq!(first.capacity(), small_room);
    assert_eq!(pool.available(), 1);
    let second = pool.checkout();
    assert_eq!(second.capacity(), large_room);
    assert_eq!(pool.available(), 0);
    assert!(first.is_empty() && second.is_empty());
}
