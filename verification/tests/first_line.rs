use water_http_utils::config::HttpHConfigurations;
use water_http_utils::request::first_line::HttpFirstLine;
use water_http_utils::request::CreatingRequestErrors;

fn ceilings(method: usize, path: usize, version: usize) -> HttpHConfigurations {
    HttpHConfigurations {
        max_method_size: method,
        max_version_size: version,
        max_path_size: path,
        max_headers_size: 1024,
        max_body_size: None,
    }
}

fn error_of(bytes: &[u8], config: &HttpHConfigurations) -> Option<CreatingRequestErrors> {
    HttpFirstLine::from_server(bytes, config).err()
}

#[test]
fn request_line_is_taken_apart() {
    let bytes = b"GET /home HTTP/1.1\r\nHost: a\r\n\r\n";
    let line = HttpFirstLine::from_server(bytes, &ceilings(10, 3072, 20)).unwrap();
    assert_eq!(line.method, "GET");
    assert_eq!(line.path.get_bytes(), b"/home");
    assert_eq!(line.path.to_str(), Some("/home"));
    assert_eq!(line.version, "HTTP/1.1");
    assert_eq!(line.first_line_length, 20);
}

#[test]
fn request_line_may_end_the_buffer() {
    let line = HttpFirstLine::from_server(b"GET / HTTP/1.1\r\n", &ceilings(10, 3072, 20)).unwrap();
    assert_eq!(line.first_line_length, 16);
    assert_eq!(line.path.get_bytes(), b"/");
}

#[test]
fn empty_tokens_are_taken_as_they_are() {
    let line = HttpFirstLine::from_server(b"  \r\n", &ceilings(10, 3072, 20)).unwrap();
    assert_eq!(line.method, "");
    assert_eq!(line.path.get_bytes(), b"");
    assert_eq!(line.version, "");
    assert_eq!(line.first_line_length, 4);
}

#[test]
fn short_buffers_ask_for_more() {
    let config = ceilings(10, 3072, 20);
    let more = Some(CreatingRequestErrors::InsufficientDataSoReadMore);
    assert_eq!(error_of(b"", &config), more);
    assert_eq!(error_of(b"GET", &config), more);
    assert_eq!(error_of(b"GET ", &config), more);
    assert_eq!(error_of(b"GET /home", &config), more);
    assert_eq!(error_of(b"GET /home ", &config), more);
    assert_eq!(error_of(b"GET /home HTTP/1.1", &config), more);
    assert_eq!(error_of(b"GET /home HTTP/1.1\r", &config), more);
}

#[test]
fn lone_carriage_return_belongs_to_the_version() {
    let line = HttpFirstLine::from_server(b"GET / HT\rTP\r\nrest", &ceilings(10, 3072, 20)).unwrap();
    assert_eq!(line.version, "HT\rTP");
    assert_eq!(line.first_line_length, 13);
}

#[test]
fn method_at_its_ceiling_is_an_invalid_format() {
    let config = ceilings(10, 3072, 20);
    let invalid = Some(CreatingRequestErrors::InvalidHttpFormat);
    assert_eq!(error_of(b"ABCDEFGHIJ / HTTP/1.1\r\n", &config), invalid);
    assert_eq!(error_of(b"ABCDEFGHIJK / HTTP/1.1\r\n", &config), invalid);
    assert_eq!(error_of(b"ABCDEFGHIJKLMNOP", &config), invalid);
    assert!(HttpFirstLine::from_server(b"ABCDEFGHI / HTTP/1.1\r\n", &config).is_ok());
}

#[test]
fn method_that_the_buffer_does_not_hold_yet_asks_for_more() {
    let config = ceilings(10, 3072, 20);
    assert_eq!(
        error_of(b"ABCDEFGHIJ", &config),
        Some(CreatingRequestErrors::InsufficientDataSoReadMore)
    );
}

#[test]
fn method_ceiling_of_zero_refuses_every_method() {
    assert_eq!(
        error_of(b" / HTTP/1.1\r\n", &ceilings(0, 3072, 20)),
        Some(CreatingRequestErrors::InvalidHttpFormat)
    );
}

#[test]
fn path_at_its_ceiling_is_dangerous() {
    let config = ceilings(10, 4, 20);
    let dangerous = Some(CreatingRequestErrors::DangerousInvalidHttpFormat);
    assert_eq!(error_of(b"GET /abc HTTP/1.1\r\n", &config), dangerous);
    assert_eq!(error_of(b"GET /abcd HTTP/1.1\r\n", &config), dangerous);
    let line = HttpFirstLine::from_server(b"GET /ab HTTP/1.1\r\n", &config).unwrap();
    assert_eq!(line.path.get_bytes(), b"/ab");
}

#[test]
fn path_ceiling_counts_the_path_alone() {
    let line =
        HttpFirstLine::from_server(b"OPTIONS /abcdef HTTP/1.1\r\n", &ceilings(10, 8, 20)).unwrap();
    assert_eq!(line.path.get_bytes(), b"/abcdef");
}

#[test]
fn version_at_its_ceiling_is_dangerous() {
    let dangerous = Some(CreatingRequestErrors::DangerousInvalidHttpFormat);
    assert_eq!(error_of(b"GET / HTTP/1.1\r\n", &ceilings(10, 3072, 8)), dangerous);
    assert_eq!(error_of(b"GET / HTTP/1.1\r\n", &ceilings(10, 3072, 3)), dangerous);
    assert!(HttpFirstLine::from_server(b"GET / HTTP/1.1\r\n", &ceilings(10, 3072, 9)).is_ok());
}

#[test]
fn method_that_is_no_text_is_dangerous() {
    assert_eq!(
        error_of(b"G\xffT / HTTP/1.1\r\n", &ceilings(10, 3072, 20)),
        Some(CreatingRequestErrors::DangerousInvalidHttpFormat)
    );
}

#[test]
fn version_that_is_no_text_is_dangerous() {
    assert_eq!(
        error_of(b"GET / HTTP/\xc3\r\n", &ceilings(10, 3072, 20)),
        Some(CreatingRequestErrors::DangerousInvalidHttpFormat)
    );
}

#[test]
fn path_is_not_checked_to_be_text() {
    let line = HttpFirstLine::from_server(b"GET /\xff HTTP/1.1\r\n", &ceilings(10, 3072, 20)).unwrap();
    assert_eq!(line.path.get_bytes(), b"/\xff");
    assert_eq!(line.path.to_str(), None);
}

#[test]
fn method_and_version_may_be_any_text() {
    let bytes = "GÉT /x HTTP/1.1é\r\n".as_bytes();
    let line = HttpFirstLine::from_server(bytes, &ceilings(10, 3072, 20)).unwrap();
    assert_eq!(line.method, "GÉT");
    assert_eq!(line.version, "HTTP/1.1é");
}
