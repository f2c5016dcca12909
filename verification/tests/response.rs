use knock::number::{decimal_string, parse_u32};
use knock::{HeaderMap, HttpError, IntErrorKind, Response};

fn decode(text: &str) -> Result<Response, HttpError> {
    Response::new(text.to_string())
}

fn entries(map: &HeaderMap) -> Vec<(String, String)> {
    let mut all = Vec::new();
    for i in 0..map.len() {
        all.push((map.name_at(i).clone(), map.value_at(i).clone()));
    }
    all
}

fn pair(name: &str, value: &str) -> (String, String) {
    (name.to_string(), value.to_string())
}

#[test]
fn decode_reads_status_headers_and_body() {
    let response = decode("HTTP/1.1 200 OK\r\nContent-Type: text/plain\r\n\r\nhello").unwrap();
    assert_eq!(response.status, 200);
    assert_eq!(entries(&response.header), vec![pair("Content-Type", "text/plain")]);
    assert_eq!(response.body, "hello");
}

#[test]
fn body_is_all_that_follows_the_first_blank_line() {
    let response = decode("HTTP/1.1 200 OK\r\nA: b\r\n\r\none\r\n\r\ntwo\r\n\r\n").unwrap();
    assert_eq!(response.body, "one\r\n\r\ntwo\r\n\r\n");
    assert_eq!(entries(&response.header), vec![pair("A", "b")]);
}

#[test]
fn blank_line_is_found_at_its_first_place() {
    let response = decode("A: b\r\n\r\n\r\nrest").unwrap();
    assert_eq!(response.body, "\r\nrest");
    assert_eq!(response.status, 0);
}

#[test]
fn text_without_blank_line_is_all_head() {
    let response = decode("HTTP/1.1 404 Not Found\r\nServer: x\r\n").unwrap();
    assert_eq!(response.status, 404);
    assert_eq!(response.body, "");
    assert_eq!(entries(&response.header), vec![pair("Server", "x")]);
}

#[test]
fn text_without_any_separator_is_one_line() {
    let response = decode("HTTP/1.0 301 Moved").unwrap();
    assert_eq!(response.status, 301);
    assert_eq!(response.body, "");
    assert_eq!(response.header.len(), 0);
}

#[test]
fn empty_text_is_an_empty_response() {
    let response = decode("").unwrap();
    assert_eq!(response.status, 0);
    assert_eq!(response.header.len(), 0);
    assert_eq!(response.body, "");
}

#[test]
fn missing_status_line_leaves_status_zero() {
    let response = decode("Content-Length: 3\r\n\r\nabc").unwrap();
    assert_eq!(response.status, 0);
    assert_eq!(entries(&response.header), vec![pair("Content-Length", "3")]);
    assert_eq!(response.body, "abc");
}

#[test]
fn status_is_read_wherever_the_marker_stands_in_the_first_line() {
    let response = decode("xHTTP/1 204\r\n\r\n").unwrap();
    assert_eq!(response.status, 204);
}

#[test]
fn status_with_plus_sign_is_a_number() {
    let response = decode("HTTP/1.1 +200 OK\r\n\r\n").unwrap();
    assert_eq!(response.status, 200);
}

#[test]
fn status_that_is_no_number_is_refused() {
    let err = decode("HTTP/1.1 abc OK\r\n\r\nbody").unwrap_err();
    assert!(matches!(err, HttpError::ParseInt(IntErrorKind::InvalidDigit)));
}

#[test]
fn negative_status_is_refused() {
    let err = decode("HTTP/1.1 -200 OK\r\n\r\n").unwrap_err();
    assert!(matches!(err, HttpError::ParseInt(IntErrorKind::InvalidDigit)));
}

#[test]
fn status_line_without_second_word_is_refused() {
    let err = decode("HTTP/1.1\r\nA: b\r\n\r\n").unwrap_err();
    assert!(matches!(err, HttpError::ParseInt(IntErrorKind::Empty)));
}

#[test]
fn status_behind_two_spaces_is_refused() {
    let err = decode("HTTP/1.1  200 OK\r\n\r\n").unwrap_err();
    assert!(matches!(err, HttpError::ParseInt(IntErrorKind::Empty)));
}

#[test]
fn status_too_large_is_refused() {
    let err = decode("HTTP/1.1 4294967296 OK\r\n\r\n").unwrap_err();
    assert!(matches!(err, HttpError::ParseInt(IntErrorKind::PosOverflow)));
    let response = decode("HTTP/1.1 4294967295 OK\r\n\r\n").unwrap();
    assert_eq!(response.status, 4294967295);
}

#[test]
fn overflow_in_front_of_a_bad_digit_is_an_overflow() {
    let err = decode("HTTP/1.1 99999999999x OK\r\n\r\n").unwrap_err();
    assert!(matches!(err, HttpError::ParseInt(IntErrorKind::PosOverflow)));
    let err = decode("HTTP/1.1 9x9999999999 OK\r\n\r\n").unwrap_err();
    assert!(matches!(err, HttpError::ParseInt(IntErrorKind::InvalidDigit)));
}

#[test]
fn second_line_is_no_status_line() {
    let response = decode("Server: x\r\nHTTP/1.1 500 Oops\r\n\r\n").unwrap();
    assert_eq!(response.status, 0);
}

#[test]
fn repeated_header_names_are_joined() {
    let response =
        decode("HTTP/1.1 200 OK\r\nSet-Cookie: a=1\r\nX: y\r\nSet-Cookie: b=2\r\n\r\n").unwrap();
    assert_eq!(
        entries(&response.header),
        vec![pair("Set-Cookie", "a=1; b=2"), pair("X", "y")]
    );
}

#[test]
fn header_is_cut_at_the_first_colon_and_space() {
    let response = decode("Date: Mon: 12: 30\r\nnot a header\r\nK:v\r\n: empty name\r\n\r\n").unwrap();
    assert_eq!(
        entries(&response.header),
        vec![pair("Date", "Mon: 12: 30"), pair("", "empty name")]
    );
}

#[test]
fn status_line_with_colon_and_space_is_a_header_too() {
    let response = decode("HTTP/1.1 200 status: fine\r\n\r\n").unwrap();
    assert_eq!(response.status, 200);
    assert_eq!(entries(&response.header), vec![pair("HTTP/1.1 200 status", "fine")]);
}

#[test]
fn text_that_is_not_ascii_is_read_by_characters() {
    let response = decode("HTTP/1.1 200 OK\r\nX-Näme: wért\r\n\r\nbödy ✓").unwrap();
    assert_eq!(entries(&response.header), vec![pair("X-Näme", "wért")]);
    assert_eq!(response.body, "bödy ✓");
}

#[test]
fn as_str_writes_status_headers_and_body() {
    let response =
        decode("HTTP/1.1 200 OK\r\nContent-Type: text/plain\r\nX: y\r\n\r\nhello").unwrap();
    assert_eq!(
        response.as_str(),
        "Status: 200\r\n\r\n\r\nContent-Type: text/plain\r\nX: y\r\n\r\nhello"
    );
}

#[test]
fn as_str_of_an_empty_response() {
    let response = decode("").unwrap();
    assert_eq!(response.as_str(), "Status: 0\r\n\r\n\r\n\r\n");
}

#[test]
fn decimal_string_writes_every_digit() {
    assert_eq!(decimal_string(0), "0");
    assert_eq!(decimal_string(7), "7");
    assert_eq!(decimal_string(10), "10");
    assert_eq!(decimal_string(1234567890), "1234567890");
    assert_eq!(decimal_string(u64::MAX), "18446744073709551615");
}

#[test]
fn parse_u32_reads_a_range_of_characters() {
    let text: Vec<char> = "ab+042cd".chars().collect();
    assert_eq!(parse_u32(&text, 2, 6), Ok(42));
    assert_eq!(parse_u32(&text, 3, 6), Ok(42));
    assert_eq!(parse_u32(&text, 2, 3), Err(IntErrorKind::InvalidDigit));
    assert_eq!(parse_u32(&text, 2, 2), Err(IntErrorKind::Empty));
    assert_eq!(parse_u32(&text, 3, 7), Err(IntErrorKind::InvalidDigit));
}

#[test]
fn parse_u32_reads_back_what_decimal_string_wrote() {
    for n in [0u32, 1, 9, 10, 99, 100, 65535, 4294967295] {
        let text: Vec<char> = decimal_string(n as u64).chars().collect();
        assert_eq!(parse_u32(&text, 0, text.len()), Ok(n));
    }
}
