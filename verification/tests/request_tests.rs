use http_codec::request::{Request, GETRequest, POSTRequest, read_body};
use http_codec::request_line::HTTPRequestLine;
use http_codec::content_type::ContentType;
use http_codec::error::HTTPError;

#[test]
fn body_reader_takes_exactly_the_announced_bytes() {
    let data = b"HELLO WORLD";
    let body = read_body(data, 0, 5).unwrap();
    assert_eq!(body, b"HELLO".to_vec());
    let tail = read_body(data, 6, 5).unwrap();
    assert_eq!(tail, b"WORLD".to_vec());
}

#[test]
fn short_data_fails_the_body_reader() {
    // announced five bytes, the stream ended after three
    let r = read_body(b"abc", 0, 5);
    assert!(matches!(r, Err(HTTPError::InvalidContent)));
}

#[test]
fn get_request_assembles() {
    let line = HTTPRequestLine::from_line("GET /page?x=1&y=2 HTTP/1.1").unwrap();
    let data = b"Host: h\r\nX-Forwarded-For: 192.168.0.9\r\n\r\n";
    let g = GETRequest::new(line, data).unwrap();
    assert_eq!(g.path, "/page");
    assert_eq!(g.get_query("x").map(String::as_str), Some("1"));
    assert_eq!(g.get_query("y").map(String::as_str), Some("2"));
    assert_eq!(g.ip, "192.168.0.9");
}

#[test]
fn get_request_without_query() {
    let line = HTTPRequestLine::from_line("GET /page HTTP/1.1").unwrap();
    let g = GETRequest::new(line, b"\r\n\r\n").unwrap();
    assert_eq!(g.path, "/page");
    assert_eq!(g.get_query("x"), None);
    assert_eq!(g.ip, "");
}

#[test]
fn post_request_assembles() {
    let line = HTTPRequestLine::from_line("POST /api HTTP/1.1").unwrap();
    let data = b"Host: example.org\r\nContent-Type: text/plain\r\nContent-Length: 4\r\nX-Forwarded-For: ::1\r\n\r\nBODYEXTRA";
    let p = POSTRequest::new(line, data).unwrap();
    assert_eq!(p.get_path(), "/api");
    assert_eq!(p.get_host(), "example.org");
    assert_eq!(p.get_data(), &b"BODY".to_vec());
    assert_eq!(p.get_data_length(), 4);
    assert!(matches!(p.get_content_type(), ContentType::PlainText));
    assert_eq!(p.ip, "::1");
}

#[test]
fn post_request_with_short_body_fails() {
    let line = HTTPRequestLine::from_line("POST /api HTTP/1.1").unwrap();
    let data = b"Content-Length: 5\r\n\r\nabc";
    let r = POSTRequest::new(line, data);
    assert!(matches!(r, Err(HTTPError::InvalidContent)));
}

#[test]
fn post_request_with_bad_query_fails() {
    let line = HTTPRequestLine::from_line("POST /api?broken HTTP/1.1").unwrap();
    let r = POSTRequest::new(line, b"\r\n\r\n");
    assert!(matches!(r, Err(HTTPError::InvalidPath)));
}

#[test]
fn request_dispatches_on_the_method() {
    let data = b"X-Forwarded-For: 1.2.3.4\r\n\r\n";
    let req = Request::new("GET /a HTTP/1.1", data).unwrap();
    assert!(matches!(req, Request::GetRequest(_)));
    assert_eq!(req.get_path(), "/a");
    assert_eq!(req.get_ip(), "1.2.3.4");

    let pdata = b"Content-Length: 0\r\n\r\n";
    let preq = Request::new("POST /b HTTP/1.1", pdata).unwrap();
    assert!(matches!(preq, Request::POSTRequest(_)));
    assert_eq!(preq.get_path(), "/b");
}

#[test]
fn request_decodes_escaped_paths() {
    let req = Request::new("GET /my%20page?q=1 HTTP/1.1", b"\r\n\r\n").unwrap();
    assert_eq!(req.get_path(), "/my page");
}

#[test]
fn request_propagates_line_errors() {
    let r = Request::new("PUT /a HTTP/1.1", b"\r\n\r\n");
    assert!(matches!(r, Err(HTTPError::InvalidRequestType)));
}

#[test]
fn request_without_header_boundary_fails() {
    let r = Request::new("GET /a HTTP/1.1", b"Host: h\r\n");
    assert!(matches!(r, Err(HTTPError::InvalidHeader)));
}
