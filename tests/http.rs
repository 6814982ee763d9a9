use wakeup_gateway::http::{
    find_header_end, normalize_path, parse_content_length, parse_http_request, parse_usize,
    request_read_state, RequestRead, MAX_HTTP_REQUEST_BYTES,
};
use wakeup_gateway::response::{binary_http_response, json_response, options_response, text_response};
use wakeup_gateway::text::{path_matches_rpc_method, rpc_method_name_from_path, trim};

#[test]
fn header_end_is_found() {
    assert_eq!(find_header_end(b"GET / HTTP/1.1\r\nA: b\r\n\r\nbody"), Some(24));
    assert_eq!(find_header_end(b"GET / HTTP/1.1\r\n"), None);
    assert_eq!(find_header_end(b""), None);
}

#[test]
fn content_length_is_read() {
    assert_eq!(parse_content_length(b"POST / HTTP/1.1\r\ncontent-LENGTH:  12 \r\n\r\n"), Ok(12));
    assert_eq!(parse_content_length(b"POST / HTTP/1.1\r\nHost: x\r\n\r\n"), Ok(0));
    assert_eq!(parse_content_length(b"POST / HTTP/1.1\r\nContent-Length: +7\r\n\r\n"), Ok(7));
    assert!(parse_content_length(b"POST / HTTP/1.1\r\nContent-Length: 1x\r\n\r\n").is_err());
    assert!(parse_content_length(b"POST / HTTP/1.1\r\nContent-Length: \r\n\r\n").is_err());
    assert_eq!(parse_usize(b"0042"), Some(42));
    assert_eq!(parse_usize(b"99999999999999999999999"), None);
}

#[test]
fn request_reading_states() {
    assert_eq!(request_read_state(b"POST / HTTP/1.1\r\n"), RequestRead::Incomplete);
    let req = b"POST /x HTTP/1.1\r\nContent-Length: 4\r\n\r\nab";
    assert_eq!(request_read_state(req), RequestRead::Incomplete);
    let full = b"POST /x HTTP/1.1\r\nContent-Length: 4\r\n\r\nabcdEXTRA";
    assert_eq!(request_read_state(full), RequestRead::Complete(43));
    let bad = b"POST /x HTTP/1.1\r\nContent-Length: four\r\n\r\n";
    assert_eq!(request_read_state(bad), RequestRead::BadContentLength);
}

#[test]
fn oversized_request_is_refused_before_its_body() {
    let declared = format!("POST /x HTTP/1.1\r\nContent-Length: {}\r\n\r\n{{", MAX_HTTP_REQUEST_BYTES + 1);
    assert_eq!(request_read_state(declared.as_bytes()), RequestRead::TooLarge);
    let huge = vec![b'a'; MAX_HTTP_REQUEST_BYTES + 1];
    assert_eq!(request_read_state(&huge), RequestRead::TooLarge);
    let just_fits = format!("POST /x HTTP/1.1\r\nContent-Length: {}\r\n\r\n", 10);
    assert_eq!(request_read_state(just_fits.as_bytes()), RequestRead::Incomplete);
}

#[test]
fn request_is_split() {
    let raw = b"POST  /a/b?q=1 HTTP/1.1\r\nContent-Type: application/json\r\nX-Dup: one\r\nno colon line\r\nx-dup:  two \r\n\r\n{\"k\":1}";
    let req = parse_http_request(raw).unwrap();
    assert_eq!(req.method, "POST");
    assert_eq!(req.target, "/a/b?q=1");
    assert_eq!(req.headers.len(), 3);
    assert_eq!(req.header("content-type"), Some("application/json".to_string()));
    assert_eq!(req.header("x-dup"), Some("two".to_string()));
    assert_eq!(req.header("missing"), None);
    assert_eq!(req.body, b"{\"k\":1}".to_vec());
    assert!(parse_http_request(b"POST\r\n\r\n").is_err());
    assert!(parse_http_request(b"POST /x HTTP/1.1\r\n").is_err());
}

#[test]
fn paths_are_normalised() {
    assert_eq!(normalize_path("/a/b?x=1"), "/a/b");
    assert_eq!(normalize_path("https://example.com/x/y?z"), "/x/y");
    assert_eq!(normalize_path("/exa.Svc/Method"), "/exa.Svc/Method");
}

#[test]
fn rpc_method_names() {
    assert_eq!(rpc_method_name_from_path("/pkg.Svc/Method:extra/"), "Method");
    assert_eq!(rpc_method_name_from_path("LogEvent"), "LogEvent");
    assert_eq!(rpc_method_name_from_path("/"), "");
    assert!(path_matches_rpc_method("/x/LanguageServerStarted", "LanguageServerStarted"));
    assert!(!path_matches_rpc_method("/x/LanguageServerStartedX", "LanguageServerStarted"));
}

#[test]
fn trimming_covers_unicode_space() {
    assert_eq!(trim("\u{3000} a b \t\n"), "a b");
    assert_eq!(trim("   "), "");
}

#[test]
fn response_bytes() {
    let r = text_response(404, "Not Found", b"nope", "text/plain");
    let expected = "HTTP/1.1 404 Not Found\r\nContent-Type: text/plain\r\nContent-Length: 4\r\nConnection: close\r\nAccess-Control-Allow-Origin: *\r\nAccess-Control-Allow-Methods: POST, OPTIONS\r\nAccess-Control-Allow-Headers: Content-Type\r\n\r\nnope";
    assert_eq!(String::from_utf8(r).unwrap(), expected);
    let j = String::from_utf8(json_response(200, "OK", b"{}")).unwrap();
    assert!(j.starts_with("HTTP/1.1 200 OK\r\nContent-Type: application/json; charset=utf-8\r\nContent-Length: 2\r\n"));
    assert!(j.ends_with("\r\n\r\n{}"));
    let o = String::from_utf8(options_response()).unwrap();
    assert!(o.contains("Content-Length: 0\r\n"));
    let b = binary_http_response(200, "OK", "application/proto", &[1u8, 2, 3]);
    assert_eq!(b, b"HTTP/1.1 200 OK\r\nContent-Type: application/proto\r\nContent-Length: 3\r\nConnection: close\r\n\r\n\x01\x02\x03".to_vec());
}
