use learning_http_chat::request::read_body;
use learning_http_chat::{Decoded, Step, ErrorKind, HttpMethod, HttpRequest, HttpVersion};

const LIMIT: usize = 80_000;

#[test]
fn repeated_headers_accumulate_in_order() {
    let bytes = b"GET / HTTP/1.1\r\nAccept: text/html\r\nAccept: text/plain\r\n\r\n";
    let req = HttpRequest::from_bytes(bytes, LIMIT).unwrap();
    let values = req.headers.get("accept").unwrap();
    assert_eq!(values, &vec!["text/html".to_owned(), "text/plain".to_owned()]);
    assert_eq!(req.headers.get("ACCEPT").unwrap().len(), 2);
    assert!(req.headers.get("accept-language").is_none());
}

#[test]
fn header_names_fold_and_values_trim() {
    let bytes = b"GET / HTTP/1.1\r\n  X-Thing :  Some Value \r\nHost: example.com:8080\r\n\r\n";
    let req = HttpRequest::from_bytes(bytes, LIMIT).unwrap();
    assert_eq!(req.headers.get("x-thing").unwrap(), &vec!["Some Value".to_owned()]);
    assert_eq!(req.headers.get("host").unwrap(), &vec!["example.com:8080".to_owned()]);
}

#[test]
fn header_without_colon_is_malformed() {
    let bytes = b"GET / HTTP/1.1\r\nNoColonHere\r\n\r\n";
    let e = HttpRequest::from_bytes(bytes, LIMIT).unwrap_err();
    assert_eq!(e.error_kind(), ErrorKind::HeadersMalformed);
}

#[test]
fn stream_end_closes_headers() {
    let req = HttpRequest::from_bytes(b"post /a HTTP/2\r\nA: b", LIMIT).unwrap();
    assert_eq!(req.method, HttpMethod::POST);
    assert_eq!(req.version, HttpVersion::Http2);
    assert_eq!(req.resource.path, "/a");
    assert_eq!(req.headers.get("a").unwrap(), &vec!["b".to_owned()]);
    assert_eq!(req.body, None);
}

#[test]
fn body_of_content_length_bytes() {
    let bytes = b"POST /msg HTTP/1.1\r\nContent-Length: 5\r\n\r\nhelloEXTRA";
    let req = HttpRequest::from_bytes(bytes, LIMIT).unwrap();
    assert_eq!(req.body, Some("hello".to_owned()));
    let plus = HttpRequest::from_bytes(b"POST / HTTP/1.1\r\nContent-Length: +2\r\n\r\nhi", LIMIT).unwrap();
    assert_eq!(plus.body, Some("hi".to_owned()));
}

#[test]
fn short_body_is_malformed() {
    let bytes = b"POST /msg HTTP/1.1\r\nContent-Length: 5\r\n\r\nabc";
    let e = HttpRequest::from_bytes(bytes, LIMIT).unwrap_err();
    assert_eq!(e.error_kind(), ErrorKind::BodyMalformed);
}

#[test]
fn zero_length_or_absent_body_is_none() {
    let zero = HttpRequest::from_bytes(b"POST / HTTP/1.1\r\nContent-Length: 0\r\n\r\n", LIMIT).unwrap();
    assert_eq!(zero.body, None);
    let absent = HttpRequest::from_bytes(b"POST / HTTP/1.1\r\n\r\nignored", LIMIT).unwrap();
    assert_eq!(absent.body, None);
}

#[test]
fn bad_content_length_is_a_header_error() {
    let e = HttpRequest::from_bytes(b"POST / HTTP/1.1\r\nContent-Length: five\r\n\r\n", LIMIT)
        .unwrap_err();
    assert_eq!(e.error_kind(), ErrorKind::HeadersMalformed);
    let big = HttpRequest::from_bytes(
        b"POST / HTTP/1.1\r\nContent-Length: 99999999999999999999999\r\n\r\n",
        LIMIT,
    )
    .unwrap_err();
    assert_eq!(big.error_kind(), ErrorKind::HeadersMalformed);
}

#[test]
fn body_that_is_not_text_is_malformed() {
    let e = HttpRequest::from_bytes(b"POST / HTTP/1.1\r\nContent-Length: 2\r\n\r\n\xff\xff", LIMIT)
        .unwrap_err();
    assert_eq!(e.error_kind(), ErrorKind::BodyMalformed);
}

#[test]
fn header_line_too_long() {
    let mut bytes = b"GET / HTTP/1.1\r\nX: ".to_vec();
    bytes.extend(std::iter::repeat(b'v').take(64));
    bytes.extend_from_slice(b"\r\n\r\n");
    let e = HttpRequest::from_bytes(&bytes, 32).unwrap_err();
    assert_eq!(e.error_kind(), ErrorKind::LineTooLong);
}

#[test]
fn partial_input_asks_for_more() {
    let full = b"POST /m HTTP/1.1\r\nContent-Length: 3\r\n\r\nabc";
    for cut in 0..full.len() {
        match HttpRequest::decode(&full[..cut], LIMIT, false) {
            Decoded::NeedMore => {}
            other => panic!("cut {} gave {:?}", cut, other),
        }
    }
    match HttpRequest::decode(full, LIMIT, false) {
        Decoded::Done(req) => assert_eq!(req.body, Some("abc".to_owned())),
        other => panic!("gave {:?}", other),
    }
}

#[test]
fn bare_line_feeds_are_accepted() {
    let req = HttpRequest::from_bytes(b"DELETE /x/ HTTP/1.1\nA: 1\n\n", LIMIT).unwrap();
    assert_eq!(req.method, HttpMethod::DELETE);
    assert_eq!(req.resource.path, "/x");
    assert_eq!(req.headers.get("a").unwrap(), &vec!["1".to_owned()]);
}

#[test]
fn non_ascii_header_names_fold() {
    let bytes = "GET / HTTP/1.1\r\nÄrger: x\r\nÄRGER: y\r\n\r\n".as_bytes();
    let req = HttpRequest::from_bytes(bytes, LIMIT).unwrap();
    let expected = vec!["x".to_owned(), "y".to_owned()];
    assert_eq!(req.headers.get("ärger").unwrap(), &expected);
    assert_eq!(req.headers.get("Ärger").unwrap(), &expected);
    assert_eq!(req.headers.get("äRGER").unwrap(), &expected);
}

#[test]
fn body_offset_follows_the_length() {
    let bytes = b"POST / HTTP/1.1\r\nContent-Length: 2\r\n\r\nhiXYZ";
    let req = HttpRequest::from_bytes(bytes, LIMIT).unwrap();
    match read_body(bytes, 38, &req.headers, true) {
        Step::Parsed(body, next) => {
            assert_eq!(body, Some("hi".to_owned()));
            assert_eq!(next, 40);
        }
        other => panic!("gave {:?}", other),
    }
}
