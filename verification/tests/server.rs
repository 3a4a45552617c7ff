use http_server::headers::HeaderMap;
use http_server::request::Request;
use http_server::response::{Response, Status};
use http_server::router::{file_response, handle, not_found_response, route, RouteAction};

fn parse_ok(raw: &str) -> Request {
    match Request::parse_from(raw.to_string()) {
        Ok(req) => req,
        Err(_) => panic!("request should parse"),
    }
}

fn respond_frame(action: RouteAction) -> String {
    match action {
        RouteAction::Respond(r) => r.format(),
        _ => panic!("expected a response"),
    }
}

#[test]
fn root_exact_frame() {
    let req = parse_ok("GET / HTTP/1.1\r\nHost: localhost\r\n\r\n");
    assert_eq!(req.method, "GET");
    assert_eq!(req.path, "/");
    let frame = respond_frame(route(&req, false));
    assert_eq!(frame, "HTTP/1.1 200 OK\r\n\r\n");
}

#[test]
fn echo_reflects_payload() {
    let req = parse_ok("GET /echo/abc HTTP/1.1\r\nHost: localhost\r\n\r\n");
    let frame = respond_frame(route(&req, false));
    assert_eq!(
        frame,
        "HTTP/1.1 200 OK\r\nContent-Type: text/plain\r\nContent-Length: 3\r\n\r\nabc\r\n\r\n"
    );
}

#[test]
fn echo_empty_payload() {
    let req = parse_ok("GET /echo/ HTTP/1.1\r\n\r\n");
    let frame = respond_frame(route(&req, false));
    assert_eq!(
        frame,
        "HTTP/1.1 200 OK\r\nContent-Type: text/plain\r\nContent-Length: 0\r\n\r\n\r\n\r\n"
    );
}

#[test]
fn echo_without_separator_falls_back_to_empty() {
    let req = parse_ok("GET /echo HTTP/1.1\r\n\r\n");
    let frame = respond_frame(route(&req, false));
    assert_eq!(
        frame,
        "HTTP/1.1 200 OK\r\nContent-Type: text/plain\r\nContent-Length: 0\r\n\r\n\r\n\r\n"
    );
}

#[test]
fn echo_takes_last_occurrence() {
    let req = parse_ok("GET /echo/a/echo/b HTTP/1.1\r\n\r\n");
    let frame = respond_frame(route(&req, false));
    assert_eq!(
        frame,
        "HTTP/1.1 200 OK\r\nContent-Type: text/plain\r\nContent-Length: 1\r\n\r\nb\r\n\r\n"
    );
}

#[test]
fn echo_length_counts_all_payload_bytes() {
    let req = parse_ok("GET /echo/abcdefghijkl HTTP/1.1\r\n\r\n");
    let frame = respond_frame(route(&req, false));
    assert_eq!(
        frame,
        "HTTP/1.1 200 OK\r\nContent-Type: text/plain\r\nContent-Length: 12\r\n\r\nabcdefghijkl\r\n\r\n"
    );
}

#[test]
fn user_agent_reflects_header() {
    let req = parse_ok("GET /user-agent HTTP/1.1\r\nHost: x\r\nUser-Agent: curl/7.64.1\r\n\r\n");
    let frame = respond_frame(route(&req, false));
    assert_eq!(
        frame,
        "HTTP/1.1 200 OK\r\nContent-Type: text/plain\r\nContent-Length: 11\r\n\r\ncurl/7.64.1\r\n\r\n"
    );
}

#[test]
fn user_agent_missing_answers_not_found() {
    let req = parse_ok("GET /user-agent HTTP/1.1\r\nHost: x\r\n\r\n");
    let frame = respond_frame(route(&req, false));
    assert_eq!(frame, "HTTP/1.1 404 NOT FOUND\r\n\r\n");
}

#[test]
fn user_agent_name_is_case_sensitive() {
    let req = parse_ok("GET /user-agent HTTP/1.1\r\nuser-agent: curl\r\n\r\n");
    let frame = respond_frame(route(&req, false));
    assert_eq!(frame, "HTTP/1.1 404 NOT FOUND\r\n\r\n");
}

#[test]
fn files_without_root_answers_nothing() {
    let req = parse_ok("GET /files/foo.txt HTTP/1.1\r\n\r\n");
    match route(&req, false) {
        RouteAction::NoResponse => {}
        _ => panic!("the file route without a root must answer nothing"),
    }
}

#[test]
fn files_with_root_names_the_file() {
    let req = parse_ok("GET /files/foo.txt HTTP/1.1\r\n\r\n");
    match route(&req, true) {
        RouteAction::ReadFile(name) => assert_eq!(name, "foo.txt"),
        _ => panic!("the file route with a root must read a file"),
    }
}

#[test]
fn file_found_answers_contents() {
    let frame = file_response(Some("hello".to_string())).format();
    assert_eq!(
        frame,
        "HTTP/1.1 200 OK\r\nContent-Type: application/octet-stream\r\nContent-Length: 5\r\n\r\nhello\r\n\r\n"
    );
}

#[test]
fn file_missing_answers_exact_not_found() {
    let frame = file_response(None).format();
    assert_eq!(frame, "HTTP/1.1 404 NOT FOUND\r\n\r\n");
}

#[test]
fn unrecognized_path_answers_exact_not_found() {
    let req = parse_ok("POST /nope HTTP/1.1\r\nHost: x\r\nUser-Agent: curl\r\n\r\n");
    let frame = respond_frame(route(&req, true));
    assert_eq!(frame, "HTTP/1.1 404 NOT FOUND\r\n\r\n");
}

#[test]
fn malformed_request_line_is_an_error() {
    assert!(Request::parse_from("GET\r\n\r\n".to_string()).is_err());
    assert!(Request::parse_from(String::new()).is_err());
}

#[test]
fn handle_answers_not_found_on_malformed_input() {
    let frame = respond_frame(handle("GET\r\n\r\n".to_string(), false));
    assert_eq!(frame, "HTTP/1.1 404 NOT FOUND\r\n\r\n");
}

#[test]
fn handle_routes_a_whole_request() {
    let frame = respond_frame(handle("GET /echo/hey HTTP/1.1\r\nHost: x\r\n\r\n".to_string(), false));
    assert_eq!(
        frame,
        "HTTP/1.1 200 OK\r\nContent-Type: text/plain\r\nContent-Length: 3\r\n\r\nhey\r\n\r\n"
    );
}

#[test]
fn duplicate_header_last_wins() {
    let req = parse_ok("GET / HTTP/1.1\r\nA: 1\r\nA: 2\r\n\r\n");
    assert_eq!(req.headers.get("A"), Some(&"2".to_string()));
}

#[test]
fn header_without_separator_is_skipped() {
    let req = parse_ok("GET / HTTP/1.1\r\nnonsense\r\nUser-Agent: curl\r\n\r\n");
    assert_eq!(req.headers.get("nonsense"), None);
    assert_eq!(req.headers.get("User-Agent"), Some(&"curl".to_string()));
}

#[test]
fn header_value_splits_on_first_separator() {
    let req = parse_ok("GET / HTTP/1.1\r\nA: b: c\r\n\r\n");
    assert_eq!(req.headers.get("A"), Some(&"b: c".to_string()));
}

#[test]
fn parsing_stops_at_blank_line() {
    let req = parse_ok("GET /user-agent HTTP/1.1\r\n\r\nUser-Agent: curl\r\n");
    assert_eq!(req.headers.get("User-Agent"), None);
    let frame = respond_frame(route(&req, false));
    assert_eq!(frame, "HTTP/1.1 404 NOT FOUND\r\n\r\n");
}

#[test]
fn trailing_nul_padding_is_tolerated() {
    let raw = format!("GET / HTTP/1.1\r\nHost: x\r\n\r\n{}", "\u{0}".repeat(8));
    let req = parse_ok(&raw);
    assert_eq!(req.path, "/");
    let frame = respond_frame(route(&req, false));
    assert_eq!(frame, "HTTP/1.1 200 OK\r\n\r\n");
}

#[test]
fn not_found_ignores_headers_and_body() {
    let mut headers = HeaderMap::new();
    headers.insert("X-Ignored".to_string(), "yes".to_string());
    let r = Response::new(Status::NotFound404, Some("body".to_string()), headers);
    assert_eq!(r.format(), "HTTP/1.1 404 NOT FOUND\r\n\r\n");
    assert_eq!(r.format(), not_found_response().format());
}

#[test]
fn add_header_replaces_earlier_value() {
    let mut r = Response::new(Status::Ok200, None, HeaderMap::new());
    r.add_header("X-Test".to_string(), "one".to_string());
    r.add_header("X-Test".to_string(), "two".to_string());
    assert_eq!(r.format(), "HTTP/1.1 200 OK\r\nX-Test: two\r\n\r\n");
}

#[test]
fn format_then_parse_then_format_is_identical() {
    let mut r = Response::new(Status::Ok200, None, HeaderMap::new());
    r.add_header("X-Test".to_string(), "abc".to_string());
    let frame = r.format();
    assert_eq!(frame, "HTTP/1.1 200 OK\r\nX-Test: abc\r\n\r\n");
    let parsed = parse_ok(&frame);
    assert_eq!(parsed.headers.get("X-Test"), Some(&"abc".to_string()));
    let again = Response::new(Status::Ok200, None, parsed.headers);
    assert_eq!(again.format(), frame);
}

#[test]
fn format_is_deterministic_across_calls() {
    let mut r = Response::new(Status::Ok200, None, HeaderMap::new());
    r.add_header("X-Test".to_string(), "abc".to_string());
    assert_eq!(r.format(), r.format());
}

#[test]
fn header_map_basics() {
    let mut m = HeaderMap::new();
    assert_eq!(m.len(), 0);
    m.insert("A".to_string(), "1".to_string());
    m.insert("B".to_string(), "2".to_string());
    assert_eq!(m.len(), 2);
    m.insert("A".to_string(), "3".to_string());
    assert_eq!(m.len(), 2);
    assert_eq!(m.get("A"), Some(&"3".to_string()));
    assert_eq!(m.get("B"), Some(&"2".to_string()));
    assert_eq!(m.get("C"), None);
}
