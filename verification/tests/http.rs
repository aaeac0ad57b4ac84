use beet_esp::http::client_target;
use beet_esp::http::encode_request;
use beet_esp::http::find_header_end;
use beet_esp::http::find_subslice;
use beet_esp::http::handler_for;
use beet_esp::http::is_managed_header;
use beet_esp::http::method_token;
use beet_esp::http::parse_content_length;
use beet_esp::http::parse_http_request;
use beet_esp::http::parse_response;
use beet_esp::http::parse_status_line;
use beet_esp::http::read_complete;
use beet_esp::http::serialize_response;
use beet_esp::http::split_head_body;
use beet_esp::http::ClientError;
use beet_esp::http::HttpMethod;
use beet_esp::http::RequestError;

fn pair(k: &str, v: &str) -> (String, String) {
    (k.to_string(), v.to_string())
}

#[test]
fn finds_subslices() {
    assert_eq!(find_subslice(b"abcabc", b"ca"), Some(2));
    assert_eq!(find_subslice(b"abc", b"abcd"), None);
    assert_eq!(find_subslice(b"aab", b"ab"), Some(1));
}

#[test]
fn header_end_prefers_crlf() {
    assert_eq!(find_header_end(b"GET / HTTP/1.1\r\nA: b\r\n\r\nbody"), Some(24));
    assert_eq!(find_header_end(b"GET /\n\nbody"), Some(7));
    assert_eq!(find_header_end(b"GET / HTTP/1.1\r\n"), None);
}

#[test]
fn head_and_body_split() {
    let (h, b) = split_head_body(b"H: v\r\n\r\nxyz");
    assert_eq!((h, b), (&b"H: v"[..], &b"xyz"[..]));
    let (h, b) = split_head_body(b"no separator");
    assert_eq!((h, b), (&b"no separator"[..], &b""[..]));
}

#[test]
fn content_length_is_found_case_insensitively() {
    assert_eq!(parse_content_length(b"POST / HTTP/1.1\r\ncontent-LENGTH:  12 \r\n"), 12);
    assert_eq!(parse_content_length(b"POST / HTTP/1.1\r\nContent-Length: x\r\n"), 0);
    assert_eq!(parse_content_length(b"GET / HTTP/1.1\r\nHost: a\r\n"), 0);
}

#[test]
fn a_read_completes_once_the_body_is_in() {
    assert!(!read_complete(b"POST / HTTP/1.1\r\nContent-Length: 3\r\n\r\nab"));
    assert!(read_complete(b"POST / HTTP/1.1\r\nContent-Length: 3\r\n\r\nabc"));
    assert!(read_complete(b"GET / HTTP/1.1\r\n\r\n"));
    assert!(!read_complete(b"GET / HTTP/1.1\r\n"));
    assert!(read_complete(&vec![b'a'; 8192]));
}

#[test]
fn status_line() {
    assert_eq!(parse_status_line("HTTP/1.1 200 OK"), Some(200));
    assert_eq!(parse_status_line("  HTTP/1.1   404"), Some(404));
    assert_eq!(parse_status_line("HTTP/1.1"), None);
    assert_eq!(parse_status_line("HTTP/1.1 abc"), None);
}

#[test]
fn managed_headers() {
    assert!(is_managed_header("Host"));
    assert!(is_managed_header("CONTENT-LENGTH"));
    assert!(is_managed_header("connection"));
    assert!(!is_managed_header("content-type"));
    assert_eq!(method_token(&HttpMethod::Patch), "PATCH");
}

#[test]
fn parses_a_request() {
    let raw = b"post /api?x=1 HTTP/1.1\r\nHost: dev\r\nX-A:  b c \r\nnocolon\r\n\r\nbody";
    let req = parse_http_request(raw).unwrap();
    assert_eq!(req.method, HttpMethod::Post);
    assert_eq!(req.path, "/api?x=1");
    assert_eq!(req.headers, vec![pair("Host", "dev"), pair("X-A", "b c")]);
    assert_eq!(req.body, b"body".to_vec());
}

#[test]
fn request_errors() {
    assert_eq!(parse_http_request(b"").err(), Some(RequestError::EmptyRequest));
    assert_eq!(parse_http_request(b"   \r\n\r\n").err(), Some(RequestError::MissingMethod));
    assert_eq!(parse_http_request(b"GET\r\n\r\n").err(), Some(RequestError::MissingPath));
    assert_eq!(
        parse_http_request(b"TRACE / HTTP/1.1\r\n\r\n").err(),
        Some(RequestError::UnsupportedMethod("TRACE".to_string()))
    );
}

#[test]
fn parses_a_response() {
    let resp = parse_response(b"HTTP/1.1 201 Created\r\nA: 1\r\n\r\n{}");
    assert_eq!(resp.status, 201);
    assert_eq!(resp.headers, vec![pair("A", "1")]);
    assert_eq!(resp.body, b"{}".to_vec());
    assert_eq!(parse_response(b"garbage").status, 0);
}

#[test]
fn encodes_a_request() {
    let bytes = encode_request(
        HttpMethod::Get,
        "/p",
        "q=1",
        "dev:8080",
        &[pair("Accept", "*/*"), pair("host", "ignored")],
        b"hi",
    );
    assert_eq!(
        String::from_utf8(bytes).unwrap(),
        "GET /p?q=1 HTTP/1.1\r\nHost: dev:8080\r\nAccept: */*\r\nContent-Length: 2\r\nConnection: close\r\n\r\nhi"
    );
}

#[test]
fn serializes_a_response() {
    let bytes = serialize_response(404, "Not Found", &[pair("Content-Type", "text/plain")], b"");
    assert_eq!(
        String::from_utf8(bytes).unwrap(),
        "HTTP/1.1 404 Not Found\r\nContent-Type: text/plain\r\ncontent-length: 0\r\nconnection: close\r\n\r\n"
    );
}

#[test]
fn encoded_request_parses_back() {
    let bytes = encode_request(HttpMethod::Put, "/x", "", "h", &[pair("K", "v")], b"data");
    let req = parse_http_request(&bytes).unwrap();
    assert_eq!(req.method, HttpMethod::Put);
    assert_eq!(req.path, "/x");
    assert_eq!(
        req.headers,
        vec![pair("Host", "h"), pair("K", "v"), pair("Content-Length", "4"), pair("Connection", "close")]
    );
    assert_eq!(req.body, b"data".to_vec());
}

#[test]
fn client_targets() {
    assert_eq!(client_target(true, "h"), Err(ClientError::SecureUnsupported));
    assert_eq!(client_target(false, ""), Err(ClientError::NoHost));
    assert_eq!(client_target(false, "h:81"), Ok(("h".to_string(), 81)));
    assert_eq!(client_target(false, "h"), Ok(("h".to_string(), 80)));
}

#[test]
fn requests_route_to_the_first_server_on_their_port() {
    let handlers = [(8080u16, 1u64), (80, 2), (8080, 3)];
    assert_eq!(handler_for(&handlers, 8080), Some(1));
    assert_eq!(handler_for(&handlers, 80), Some(2));
    assert_eq!(handler_for(&handlers, 81), None);
}
