use h1::text::{eq_ignore_case, push_decimal, read_decimal, Reading};

#[test]
fn decimal_of_zero_is_one_digit() {
    let mut out = Vec::new();
    push_decimal(&mut out, 0);
    assert_eq!(out, b"0".to_vec());
}

#[test]
fn decimal_is_appended_behind_what_is_there() {
    let mut out = b"Content-Length: ".to_vec();
    push_decimal(&mut out, 13);
    assert_eq!(out, b"Content-Length: 13".to_vec());
}

#[test]
fn decimal_of_the_largest_number() {
    let mut out = Vec::new();
    push_decimal(&mut out, u64::MAX);
    assert_eq!(out, b"18446744073709551615".to_vec());
}

#[test]
fn decimal_round_trip_on_some_numbers() {
    for n in [0usize, 7, 10, 99, 100, 404, 65535, 1048576] {
        let mut out = Vec::new();
        push_decimal(&mut out, n as u64);
        assert_eq!(read_decimal(&out, usize::MAX), Reading::Within(n));
    }
}

#[test]
fn read_decimal_takes_leading_zeros() {
    assert_eq!(read_decimal(b"007", 100), Reading::Within(7));
}

#[test]
fn read_decimal_refuses_an_empty_field() {
    assert_eq!(read_decimal(b"", 100), Reading::Invalid);
}

#[test]
fn read_decimal_refuses_what_is_no_digit() {
    assert_eq!(read_decimal(b"12a", 100), Reading::Invalid);
    assert_eq!(read_decimal(b"-1", 100), Reading::Invalid);
    assert_eq!(read_decimal(b" 5", 100), Reading::Invalid);
    assert_eq!(read_decimal(b"+5", 100), Reading::Invalid);
}

#[test]
fn read_decimal_at_the_limit_and_above() {
    assert_eq!(read_decimal(b"100", 100), Reading::Within(100));
    assert_eq!(read_decimal(b"101", 100), Reading::Over);
    assert_eq!(read_decimal(b"0", 0), Reading::Within(0));
    assert_eq!(read_decimal(b"1", 0), Reading::Over);
}

#[test]
fn read_decimal_does_not_overflow_on_a_long_field() {
    assert_eq!(read_decimal(b"99999999999999999999999999999999999999", usize::MAX), Reading::Over);
    assert_eq!(read_decimal(b"18446744073709551616", usize::MAX), Reading::Over);
}

#[test]
fn read_decimal_finds_a_bad_byte_behind_a_number_that_is_over() {
    assert_eq!(read_decimal(b"99999x", 10), Reading::Invalid);
}

#[test]
fn names_compare_without_case() {
    assert!(eq_ignore_case(b"Content-Length", b"content-length"));
    assert!(eq_ignore_case(b"CONTENT-LENGTH", b"content-length"));
    assert!(eq_ignore_case(b"", b""));
}

#[test]
fn names_of_other_length_or_letters_differ() {
    assert!(!eq_ignore_case(b"Content-Length", b"content-lengt"));
    assert!(!eq_ignore_case(b"Content_Length", b"content-length"));
    assert!(!eq_ignore_case(b"Content-Type", b"content-length"));
}

#[test]
fn only_letters_have_a_case() {
    // '@' is 64 and '`' is 96: 32 apart, as 'A' and 'a' are, and no letters.
    assert!(!eq_ignore_case(b"@", b"`"));
    assert!(!eq_ignore_case(b"[", b"{"));
}
