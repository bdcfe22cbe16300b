use learning_http_chat::{
    prepare_response, response_for, scan_line, HttpMethod, HttpPath, HttpRequest,
    HttpRequestValidationErr, HttpRouter, LineScan, WorkerLimit,
};

#[test]
fn connections_over_the_ceiling_are_refused() {
    let mut limit = WorkerLimit::new(3);
    let admitted: Vec<bool> = (0..5).map(|_| limit.try_admit()).collect();
    assert_eq!(admitted, vec![true, true, true, false, false]);
    assert_eq!(limit.live(), 3);
    for _ in 0..3 {
        limit.release();
    }
    assert_eq!(limit.live(), 0);
    assert!(limit.try_admit());
}

#[test]
fn live_count_returns_to_zero() {
    let mut limit = WorkerLimit::new(2);
    let events = vec![true, true, true, false, true, false, false, false];
    let (admitted, ended) = limit.apply_events(&events);
    assert_eq!(admitted, 3);
    assert_eq!(ended, 3);
    assert_eq!(limit.live(), 0);
}

#[test]
fn path_round_trip() {
    let p = HttpPath::from(" a//b/ ?q= 1?2 ");
    let text = format!("{}?{}", p.path, p.search_params.clone().unwrap());
    assert_eq!(HttpPath::from(text.as_str()), p);
    let mut fixed = HttpPath::from("//x//");
    let before = fixed.path.clone();
    fixed.fix();
    assert_eq!(fixed.path, before);
}

#[test]
fn response_with_and_without_body() {
    assert_eq!(prepare_response(200, "ok", None), "HTTP/1.1 200 ok\r\n\r\n");
    assert_eq!(
        prepare_response(200, "ok", Some("héllo")),
        "HTTP/1.1 200 ok\r\nContent-Length: 6\r\n\r\nhéllo"
    );
    assert_eq!(
        prepare_response(404, "not found", Some("")),
        "HTTP/1.1 404 not found\r\nContent-Length: 0\r\n\r\n"
    );
}

#[test]
fn response_for_outcomes() {
    let ok = HttpRequest::from_bytes(b"POST / HTTP/1.1\r\nContent-Length: 2\r\n\r\nhi", 100);
    assert_eq!(response_for(&ok), "HTTP/1.1 200 ok\r\nContent-Length: 2\r\n\r\nhi");
    let empty = HttpRequest::from_bytes(b"GET / HTTP/1.1\r\n\r\n", 100);
    assert_eq!(response_for(&empty), "HTTP/1.1 200 ok\r\n\r\n");
    let bad: Result<HttpRequest, HttpRequestValidationErr> =
        Err(HttpRequestValidationErr::MethodMissing);
    assert_eq!(
        response_for(&bad),
        "HTTP/1.1 400 request_error\r\nContent-Length: 33\r\n\r\nI have no idea what you just sent"
    );
}

#[test]
fn line_scanning() {
    assert_eq!(scan_line(b"ab\r\ncd", 0, 10, false), LineScan::Line { end: 2, next: 4 });
    assert_eq!(scan_line(b"ab\r\ncd", 4, 10, false), LineScan::NeedMore);
    assert_eq!(scan_line(b"ab\r\ncd", 4, 10, true), LineScan::Line { end: 6, next: 6 });
    assert_eq!(scan_line(b"ab\r\ncd", 6, 10, true), LineScan::NoData);
    assert_eq!(scan_line(b"abcdef\n", 0, 3, true), LineScan::TooLong);
    assert_eq!(scan_line(b"abc\n", 0, 3, true), LineScan::TooLong);
    assert_eq!(scan_line(b"ab\n", 0, 3, true), LineScan::Line { end: 2, next: 3 });
    assert_eq!(scan_line(b"abc", 0, 3, true), LineScan::Line { end: 3, next: 3 });
    assert_eq!(scan_line(b"abc", 0, 3, false), LineScan::NeedMore);
}

#[test]
fn router_records_routes() {
    let mut router: HttpRouter<fn(HttpRequest)> = HttpRouter::new();
    assert_eq!(router.route_count(), 0);
    router.attach(HttpMethod::GET, HttpPath::from("/a"), ignore);
    router.attach(HttpMethod::POST, HttpPath::from("b/"), ignore);
    assert_eq!(router.route_count(), 2);
}

fn ignore(_request: HttpRequest) {}
