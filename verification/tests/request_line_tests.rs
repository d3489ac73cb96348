use http_codec::request_line::{HTTPRequestLine, HTTPType};
use http_codec::error::HTTPError;

#[test]
fn plain_get_line_parses() {
    let line = HTTPRequestLine::from_line("GET /index.html HTTP/1.1").unwrap();
    assert_eq!(line.get_kind(), HTTPType::Get);
    assert_eq!(line.path, "/index.html");
}

#[test]
fn post_line_parses() {
    let line = HTTPRequestLine::from_line("POST /api/save HTTP/1.1").unwrap();
    assert_eq!(line.get_kind(), HTTPType::Post);
    assert_eq!(line.path, "/api/save");
}

#[test]
fn traversal_sequence_is_rejected() {
    let r = HTTPRequestLine::from_line("GET /a/../b HTTP/1.1");
    assert!(matches!(r, Err(HTTPError::InvalidPath)));
}

#[test]
fn relative_path_is_rejected() {
    let r = HTTPRequestLine::from_line("GET relative/path HTTP/1.1");
    assert!(matches!(r, Err(HTTPError::InvalidPath)));
}

#[test]
fn unknown_method_is_rejected() {
    let r = HTTPRequestLine::from_line("PUT / HTTP/1.1");
    assert!(matches!(r, Err(HTTPError::InvalidRequestType)));
}

#[test]
fn empty_line_is_rejected() {
    let r = HTTPRequestLine::from_line("");
    assert!(matches!(r, Err(HTTPError::InvalidRequestType)));
}

#[test]
fn missing_path_is_rejected() {
    let r = HTTPRequestLine::from_line("GET");
    assert!(matches!(r, Err(HTTPError::InvalidPath)));
}

#[test]
fn missing_version_is_rejected() {
    let r = HTTPRequestLine::from_line("GET /index.html");
    assert!(matches!(r, Err(HTTPError::InvalidVersion)));
}

#[test]
fn percent_20_decodes_to_space() {
    let line = HTTPRequestLine::from_line("GET /my%20file.txt HTTP/1.1").unwrap();
    assert_eq!(line.path, "/my file.txt");
}

#[test]
fn traversal_check_runs_after_decoding() {
    // the encoded form decodes to "/a ../b", which contains "../"
    let r = HTTPRequestLine::from_line("GET /a%20../b HTTP/1.1");
    assert!(matches!(r, Err(HTTPError::InvalidPath)));
}

#[test]
fn parse_goes_through_from_str() {
    let line: HTTPRequestLine = "GET / HTTP/1.1".parse().unwrap();
    assert_eq!(line.get_kind(), HTTPType::Get);
    assert_eq!(line.path, "/");
}

#[test]
fn extra_whitespace_between_tokens_is_fine() {
    let line = HTTPRequestLine::from_line("GET  /x \t HTTP/1.1\r\n").unwrap();
    assert_eq!(line.get_kind(), HTTPType::Get);
    assert_eq!(line.path, "/x");
}
