use water_http_utils::config::HttpHConfigurations;
use water_http_utils::request::headers::{
    bytes_to_usize, CreatingHeadersErrors, HeaderLine, HeaderStore, HeaderValue, HttpHeaders,
};

fn ceiling(size: usize) -> HttpHConfigurations {
    HttpHConfigurations {
        max_method_size: 10,
        max_version_size: 20,
        max_path_size: 3072,
        max_headers_size: size,
        max_body_size: None,
    }
}

fn scan<const N: usize>(bytes: &[u8]) -> HttpHeaders<'_, N> {
    HttpHeaders::<N>::new(bytes, &ceiling(10240)).unwrap()
}

fn error_of(bytes: &[u8], size: usize) -> Option<CreatingHeadersErrors> {
    HttpHeaders::<4>::new(bytes, &ceiling(size)).err()
}

fn value_of<'a, const N: usize>(headers: &HttpHeaders<'a, N>, key: &str) -> Option<&'a [u8]> {
    headers.get(key).map(|value| value.as_bytes())
}

#[test]
fn block_behind_a_line_feed_is_scanned() {
    let bytes = b"\nHost: example.com\r\nConnection: keep-alive\r\n\r\nBODY";
    let headers = scan::<16>(bytes);
    assert_eq!(headers.headers_length, 45);
    assert_eq!(&bytes[headers.headers_length + 1..], b"BODY");
    assert_eq!(headers.content_length, None);
    assert_eq!(headers.lines.len(), 2);
    assert_eq!(headers.lines.line(0).key, b"Host");
    assert_eq!(headers.lines.line(0).value.as_bytes(), b"example.com");
    assert_eq!(headers.lines.line(1).key, b"Connection");
    assert_eq!(headers.lines.line(1).value.as_bytes(), b"keep-alive");
}

#[test]
fn block_without_a_line_feed_before_it_is_scanned() {
    let headers = scan::<4>(b"Host: a\r\n\r\n");
    assert_eq!(headers.headers_length, 10);
    assert_eq!(value_of(&headers, "Host"), Some(&b"a"[..]));
}

#[test]
fn content_length_is_read_in_two_spellings_only() {
    assert_eq!(scan::<4>(b"Content-Length: 13\r\n\r\n").content_length, Some(13));
    assert_eq!(scan::<4>(b"content-length: 7\r\n\r\n").content_length, Some(7));
    let shouted = scan::<4>(b"CONTENT-LENGTH: 5\r\n\r\n");
    assert_eq!(shouted.content_length, None);
    assert_eq!(value_of(&shouted, "Content-Length"), Some(&b"5"[..]));
    assert_eq!(scan::<4>(b"Content-length: 5\r\n\r\n").content_length, None);
}

#[test]
fn content_length_that_cannot_be_read_is_none() {
    assert_eq!(scan::<4>(b"Content-Length: 1x\r\n\r\n").content_length, None);
    assert_eq!(scan::<4>(b"Content-Length: \r\n\r\n").content_length, None);
    assert_eq!(scan::<4>(b"Content-Length: -1\r\n\r\n").content_length, None);
    assert_eq!(scan::<4>(b"Content-Length:  1\r\n\r\n").content_length, None);
}

#[test]
fn last_content_length_line_decides() {
    let twice = scan::<4>(b"Content-Length: 1\r\ncontent-length: 2\r\n\r\n");
    assert_eq!(twice.content_length, Some(2));
    let spoiled = scan::<4>(b"Content-Length: 1\r\nContent-Length: x\r\n\r\n");
    assert_eq!(spoiled.content_length, None);
}

#[test]
fn digits_are_read_as_a_number() {
    assert_eq!(bytes_to_usize(b"0"), Some(0));
    assert_eq!(bytes_to_usize(b"13"), Some(13));
    assert_eq!(bytes_to_usize(b"00000000000000000042"), Some(42));
    assert_eq!(bytes_to_usize(b"12345678901234567890"), Some(12345678901234567890));
    assert_eq!(bytes_to_usize(usize::MAX.to_string().as_bytes()), Some(usize::MAX));
}

#[test]
fn what_is_no_number_is_not_read() {
    assert_eq!(bytes_to_usize(b""), None);
    assert_eq!(bytes_to_usize(b"12a"), None);
    assert_eq!(bytes_to_usize(b"+1"), None);
    assert_eq!(bytes_to_usize(b" 1"), None);
    assert_eq!(bytes_to_usize(b"/"), None);
    assert_eq!(bytes_to_usize(b":"), None);
    assert_eq!(bytes_to_usize(b"000000000000000000001"), None);
    assert_eq!(bytes_to_usize(b"99999999999999999999"), None);
    assert_eq!(bytes_to_usize(b"18446744073709551616"), None);
}

#[test]
fn lines_without_room_are_dropped_in_silence() {
    let bytes = b"\nHost: a\r\nAccept: b\r\nContent-Length: 9\r\nX-Last: c\r\n\r\n";
    let headers = scan::<2>(bytes);
    assert_eq!(headers.lines.len(), 2);
    assert_eq!(headers.content_length, Some(9));
    assert_eq!(value_of(&headers, "Host"), Some(&b"a"[..]));
    assert_eq!(value_of(&headers, "Accept"), Some(&b"b"[..]));
    assert_eq!(value_of(&headers, "Content-Length"), None);
    assert_eq!(value_of(&headers, "X-Last"), None);
    assert_eq!(headers.headers_length, bytes.len() - 1);
}

#[test]
fn store_without_room_keeps_nothing() {
    let headers = scan::<0>(b"Host: a\r\nContent-Length: 3\r\n\r\n");
    assert_eq!(headers.lines.len(), 0);
    assert_eq!(headers.content_length, Some(3));
    assert_eq!(value_of(&headers, "Host"), None);
    assert!(headers.lines().is_empty());
}

#[test]
fn store_keeps_lines_in_their_order_up_to_its_room() {
    let mut store = HeaderStore::<2>::new();
    assert_eq!(store.len(), 0);
    store.keep(HeaderLine { key: b"a", value: HeaderValue::new(b"1") });
    store.keep(HeaderLine { key: b"b", value: HeaderValue::new(b"2") });
    store.keep(HeaderLine { key: b"c", value: HeaderValue::new(b"3") });
    assert_eq!(store.len(), 2);
    assert_eq!(store.line(0).key, b"a");
    assert_eq!(store.line(1).key, b"b");
    assert_eq!(store.line(1).value.as_bytes(), b"2");
}

#[test]
fn empty_line_has_nothing() {
    let line = HeaderLine::empty();
    assert!(line.key.is_empty());
    assert!(line.value.as_bytes().is_empty());
}

#[test]
fn blocks_that_end_early_ask_for_more() {
    let more = Some(CreatingHeadersErrors::ReadMore);
    assert_eq!(error_of(b"", 1024), more);
    assert_eq!(error_of(b"\n", 1024), more);
    assert_eq!(error_of(b"Host", 1024), more);
    assert_eq!(error_of(b"Host:", 1024), more);
    assert_eq!(error_of(b"Host: ", 1024), more);
    assert_eq!(error_of(b"Host: a", 1024), more);
    assert_eq!(error_of(b"Host: a\r", 1024), more);
    assert_eq!(error_of(b"Host: a\r\n", 1024), more);
    assert_eq!(error_of(b"Host: a\r\n\r", 1024), more);
    assert_eq!(error_of(b"\n\r\n", 1024), more);
}

#[test]
fn block_beyond_its_ceiling_is_dangerous() {
    let dangerous = Some(CreatingHeadersErrors::DangerousInvalidFormat);
    assert_eq!(error_of(b"Host: a\r\n\r\n", 5), dangerous);
    assert_eq!(error_of(b"Host: a\r\n\r\n", 10), dangerous);
    assert_eq!(error_of(b"Host: a\r\n\r\n", 0), dangerous);
    assert!(HttpHeaders::<4>::new(b"Host: a\r\n\r\n", &ceiling(11)).is_ok());
}

#[test]
fn ceiling_is_not_looked_at_past_the_buffer() {
    assert_eq!(error_of(b"Host: a", 7), Some(CreatingHeadersErrors::ReadMore));
    assert_eq!(error_of(b"", 0), Some(CreatingHeadersErrors::ReadMore));
}

#[test]
fn four_line_break_bytes_in_any_order_end_the_block() {
    assert_eq!(scan::<4>(b"\n\n\n\n").headers_length, 3);
    assert_eq!(scan::<4>(b"\r\r\r\r").headers_length, 3);
    assert_eq!(scan::<4>(b"a\n\r\n\rb").headers_length, 4);
    assert_eq!(scan::<4>(b"\r\n\n\r\n").headers_length, 3);
}

#[test]
fn other_bytes_end_the_run() {
    assert_eq!(error_of(b"\r\n\r \n", 1024), Some(CreatingHeadersErrors::ReadMore));
    assert_eq!(scan::<4>(b"\r\n\r \r\n\r\n").headers_length, 7);
}

#[test]
fn colon_ends_the_run() {
    let headers = scan::<4>(b"k: v\n\n:\n\n\r\n\r\n");
    assert_eq!(headers.lines.len(), 1);
    assert_eq!(headers.lines.line(0).key, b"k");
    assert_eq!(headers.lines.line(0).value.as_bytes(), b"");
    assert_eq!(headers.headers_length, 10);
}

#[test]
fn later_colon_is_content() {
    let headers = scan::<4>(b"Host: example.com:8080\r\nReferer: http://a/b\r\n\r\n");
    assert_eq!(value_of(&headers, "Host"), Some(&b"example.com:8080"[..]));
    assert_eq!(value_of(&headers, "Referer"), Some(&b"http://a/b"[..]));
}

#[test]
fn byte_behind_the_colon_is_passed_over_unread() {
    let headers = scan::<4>(b"Key:value\r\n\r\n");
    assert_eq!(value_of(&headers, "Key"), Some(&b"alue"[..]));
    let broken = scan::<4>(b"K:\r\nHost: a\r\n\r\n");
    assert_eq!(broken.lines.len(), 1);
    assert_eq!(broken.lines.line(0).key, b"K");
    assert_eq!(broken.lines.line(0).value.as_bytes(), b"Host: a");
    assert_eq!(broken.headers_length, 14);
}

#[test]
fn empty_value_is_kept() {
    let headers = scan::<4>(b"X-Empty: \r\n\r\n");
    assert_eq!(value_of(&headers, "X-Empty"), Some(&b""[..]));
}

#[test]
fn line_feed_moves_the_mark() {
    let headers = scan::<4>(b"\nHost: a\nb\r\n\r\n");
    assert_eq!(value_of(&headers, "Host"), Some(&b"b"[..]));
}

#[test]
fn exact_key_is_looked_for_first() {
    let headers = scan::<4>(b"host: a\r\nHost: b\r\nHOST: c\r\n\r\n");
    assert_eq!(value_of(&headers, "Host"), Some(&b"b"[..]));
    assert_eq!(value_of(&headers, "HOST"), Some(&b"c"[..]));
    assert_eq!(value_of(&headers, "host"), Some(&b"a"[..]));
    assert_eq!(value_of(&headers, "hOST"), Some(&b"a"[..]));
}

#[test]
fn first_of_equal_keys_is_found() {
    let headers = scan::<4>(b"Set-Cookie: a\r\nSet-Cookie: b\r\n\r\n");
    assert_eq!(value_of(&headers, "Set-Cookie"), Some(&b"a"[..]));
    assert_eq!(value_of(&headers, "set-cookie"), Some(&b"a"[..]));
}

#[test]
fn key_in_another_case_is_found() {
    let headers = scan::<4>(b"Host: example.com\r\nContent-Type: text/plain\r\n\r\n");
    assert_eq!(value_of(&headers, "host"), Some(&b"example.com"[..]));
    assert_eq!(value_of(&headers, "HOST"), Some(&b"example.com"[..]));
    assert_eq!(value_of(&headers, "content-TYPE"), Some(&b"text/plain"[..]));
    assert_eq!(value_of(&headers, "Hos"), None);
    assert_eq!(value_of(&headers, "Accept"), None);
}

#[test]
fn case_is_folded_beyond_ascii() {
    let bytes = "X-Ärger: ja\r\n\r\n".as_bytes();
    let headers = scan::<4>(bytes);
    assert_eq!(value_of(&headers, "x-ärger"), Some(&b"ja"[..]));
    assert_eq!(value_of(&headers, "X-ÄRGER"), Some(&b"ja"[..]));
}

#[test]
fn key_that_is_no_text_is_found_byte_for_byte_only() {
    let headers = scan::<4>(b"K\xff: v\r\nk: w\r\n\r\n");
    assert_eq!(headers.lines.len(), 2);
    assert_eq!(headers.lines.line(0).key, b"K\xff");
    assert_eq!(value_of(&headers, "K"), Some(&b"w"[..]));
}

#[test]
fn empty_key_is_found_only_where_a_line_has_it() {
    let with = scan::<4>(b": v\r\nHost: a\r\n\r\n");
    assert_eq!(value_of(&with, ""), Some(&b"v"[..]));
    let without = scan::<4>(b"Host: a\r\n\r\n");
    assert_eq!(value_of(&without, ""), None);
}

#[test]
fn values_are_handed_out_as_text_and_as_bytes() {
    let headers = scan::<4>(b"Host: example.com\r\nX-Raw: \xff\xfe\r\n\r\n");
    assert_eq!(headers.get_as_str("Host"), Some("example.com"));
    assert_eq!(headers.get_as_str("host"), Some("example.com"));
    assert_eq!(headers.get_as_bytes("Host"), Some(&b"example.com"[..]));
    assert_eq!(headers.get_as_str("X-Raw"), None);
    assert_eq!(headers.get_as_bytes("X-Raw"), Some(&b"\xff\xfe"[..]));
    assert_eq!(headers.get_as_str("Nope"), None);
    assert_eq!(headers.get_as_bytes("Nope"), None);
}

#[test]
fn lines_with_an_empty_key_are_left_out_of_the_list() {
    let headers = scan::<4>(b"Host: a\r\n: v\r\nAccept: b\r\n\r\n");
    assert_eq!(headers.lines.len(), 3);
    let lines = headers.lines();
    assert_eq!(lines.len(), 2);
    assert_eq!(lines[0].key, b"Host");
    assert_eq!(lines[0].value.as_bytes(), b"a");
    assert_eq!(lines[1].key, b"Accept");
    assert_eq!(lines[1].value.as_bytes(), b"b");
}

#[test]
fn scanning_twice_gives_the_same() {
    let bytes = b"\nHost: a\r\nContent-Length: 3\r\n\r\nabc";
    let first = scan::<4>(bytes);
    let second = scan::<4>(bytes);
    assert_eq!(first.headers_length, second.headers_length);
    assert_eq!(first.content_length, second.content_length);
    assert_eq!(first.lines.len(), second.lines.len());
    for i in 0..first.lines.len() {
        assert_eq!(first.lines.line(i).key, second.lines.line(i).key);
        assert_eq!(first.lines.line(i).value.as_bytes(), second.lines.line(i).value.as_bytes());
    }
}
