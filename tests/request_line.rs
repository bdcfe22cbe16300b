use learning_http_chat::{ErrorKind, HttpMethodSection, HttpMethod, HttpRequest, HttpVersion};

const LIMIT: usize = 80_000;

fn kind_of(bytes: &[u8]) -> ErrorKind {
    match HttpRequest::from_bytes(bytes, LIMIT) {
        Ok(_) => panic!("expected an error"),
        Err(e) => e.error_kind(),
    }
}

#[test]
fn methods_in_any_case() {
    let cases = [
        ("get", HttpMethod::GET),
        ("GeT", HttpMethod::GET),
        ("PUT", HttpMethod::PUT),
        ("pAtCh", HttpMethod::PATCH),
        ("post", HttpMethod::POST),
        ("Delete", HttpMethod::DELETE),
    ];
    for (token, expected) in cases {
        assert_eq!(HttpMethod::try_from(token).unwrap(), expected);
    }
}

#[test]
fn unknown_methods_are_malformed() {
    for token in ["", "GETS", "GE", "HEAD", "options", "pos t", "ǵet"] {
        let e = HttpMethod::try_from(token).unwrap_err();
        assert_eq!(e.error_kind(), ErrorKind::MethodMalformed);
    }
}

#[test]
fn versions_round_trip() {
    assert_eq!(HttpVersion::Http1_1.as_str(), "HTTP/1.1");
    assert_eq!(HttpVersion::Http2.as_str(), "HTTP/2");
    assert_eq!(HttpVersion::Http2.to_string(), "HTTP/2");
    assert_eq!(HttpVersion::try_from("http/1.1").unwrap(), HttpVersion::Http1_1);
    assert_eq!(HttpVersion::try_from("HTTP/2").unwrap(), HttpVersion::Http2);
    assert_eq!(
        HttpVersion::try_from("HTTP/1.0").unwrap_err().error_kind(),
        ErrorKind::HttpVersionMalformed
    );
}

#[test]
fn request_line_missing_version() {
    assert_eq!(kind_of(b"GET /index\r\n\r\n"), ErrorKind::HttpVersionMissing);
}

#[test]
fn request_line_unknown_version() {
    assert_eq!(kind_of(b"GET /index HTTP/9\r\n\r\n"), ErrorKind::HttpVersionMalformed);
}

#[test]
fn request_line_extra_word() {
    assert_eq!(kind_of(b"GET / HTTP/1.1 extra\r\n\r\n"), ErrorKind::HttpVersionMalformed);
}

#[test]
fn request_line_missing_parts() {
    assert_eq!(kind_of(b"\r\n\r\n"), ErrorKind::MethodMissing);
    assert_eq!(kind_of(b"FETCH / HTTP/1.1\r\n\r\n"), ErrorKind::MethodMalformed);
    assert_eq!(kind_of(b"GET\r\n\r\n"), ErrorKind::ResourceMissing);
}

#[test]
fn empty_stream_is_a_headline_error() {
    assert_eq!(kind_of(b""), ErrorKind::Headline);
    assert_eq!(kind_of(b"\xff\xfe / HTTP/1.1\r\n"), ErrorKind::Headline);
}

#[test]
fn line_too_long_is_its_own_error() {
    let mut bytes = b"GET /".to_vec();
    bytes.extend(std::iter::repeat(b'a').take(100));
    bytes.extend_from_slice(b" HTTP/1.1\r\n\r\n");
    match HttpRequest::from_bytes(&bytes, 50) {
        Err(e) => assert_eq!(e.error_kind(), ErrorKind::LineTooLong),
        Ok(_) => panic!("expected an error"),
    }
    assert_eq!(kind_of(b""), ErrorKind::Headline);
    assert_ne!(ErrorKind::LineTooLong, ErrorKind::Headline);
}

#[test]
fn request_line_from_text() {
    let line: Vec<char> = "  patch\t/a//b?x=1   http/2 ".chars().collect();
    let section = HttpMethodSection::from_line(&line).unwrap();
    assert_eq!(section.method, HttpMethod::PATCH);
    assert_eq!(section.resource, "/a//b?x=1");
    assert_eq!(section.version, HttpVersion::Http2);
    let short: Vec<char> = "GET /".chars().collect();
    assert_eq!(
        HttpMethodSection::from_line(&short).unwrap_err().error_kind(),
        ErrorKind::HttpVersionMissing
    );
}

#[test]
fn line_of_exactly_the_limit() {
    let line = b"GET / HTTP/1.1\r\n";
    assert!(HttpRequest::from_bytes(line, line.len()).is_ok());
    match HttpRequest::from_bytes(line, line.len() - 1) {
        Err(e) => assert_eq!(e.error_kind(), ErrorKind::LineTooLong),
        Ok(_) => panic!("expected an error"),
    }
}
