use http_codec::response::Response;
use http_codec::content_type::ContentType;
use http_codec::error::HTTPError;

#[test]
fn serialized_404_starts_with_its_status_line() {
    let bytes = Response::empty_404(0).into_bytes();
    assert!(bytes.starts_with(b"HTTP/1.1 404 NOT FOUND\r\n"));
}

#[test]
fn full_404_bytes_with_a_fixed_clock() {
    let bytes = Response::empty_404(0).into_bytes();
    let expected = b"HTTP/1.1 404 NOT FOUND\r\n\
        Content-Type: text/plain\r\n\
        Content-Length: 9\r\n\
        Date: Thu, 01 Jan 1970 00:00:00 GMT\r\n\
        \r\n\
        NOT FOUND";
    assert_eq!(bytes, expected.to_vec());
}

#[test]
fn ok_response_carries_its_body() {
    let body = b"<p>hi</p>".to_vec();
    let bytes = Response::new_ok(ContentType::Html, None, body, 784111777).into_bytes();
    let expected = b"HTTP/1.1 200 OK\r\n\
        Content-Type: text/html\r\n\
        Content-Length: 9\r\n\
        Date: Sun, 06 Nov 1994 08:49:37 GMT\r\n\
        \r\n\
        <p>hi</p>";
    assert_eq!(bytes, expected.to_vec());
}

#[test]
fn modified_date_appears_only_when_present() {
    let with = Response::new_ok(ContentType::Css, Some(0), b"x".to_vec(), 1).into_bytes();
    let s = String::from_utf8(with).unwrap();
    assert!(s.contains("Last-Modified: Thu, 01 Jan 1970 00:00:00 GMT\r\n"));

    let without = Response::new_ok(ContentType::Css, None, b"x".to_vec(), 1).into_bytes();
    let s2 = String::from_utf8(without).unwrap();
    assert!(!s2.contains("Last-Modified"));
}

#[test]
fn allow_header_appears_on_405() {
    let bytes = Response::new_405_error("GET", 0).into_bytes();
    let s = String::from_utf8(bytes).unwrap();
    assert!(s.starts_with("HTTP/1.1 405 METHOD NOT ALLOWED\r\n"));
    assert!(s.contains("Allow: GET\r\n"));
    assert!(s.ends_with("\r\n\r\nMethod Not Allowed"));
}

#[test]
fn error_bodies_name_the_error() {
    let bytes = Response::new_400_error(HTTPError::InvalidPath, 0).into_bytes();
    let s = String::from_utf8(bytes).unwrap();
    assert!(s.starts_with("HTTP/1.1 400 BAD REQUEST\r\n"));
    assert!(s.ends_with("Invalid or missing path\n"));
}

#[test]
fn empty_ok_and_500_use_plain_text() {
    let ok = String::from_utf8(Response::empty_ok(0).into_bytes()).unwrap();
    assert!(ok.starts_with("HTTP/1.1 200 OK\r\n"));
    assert!(ok.contains("Content-Type: text/plain\r\n"));
    assert!(ok.ends_with("OK"));

    let ise = String::from_utf8(Response::empty_500_error(0).into_bytes()).unwrap();
    assert!(ise.starts_with("HTTP/1.1 500 INTERNAL SERVER ERROR\r\n"));
    assert!(ise.ends_with("Internal Server Error"));
}

#[test]
fn new_builds_the_given_response() {
    let r = Response::new(429, ContentType::PlainText, None, None, Vec::new(), 0);
    let s = String::from_utf8(r.into_bytes()).unwrap();
    assert!(s.starts_with("HTTP/1.1 429 TOO MANY REQUESTS\r\n"));
    assert!(s.contains("Content-Length: 0\r\n"));
}

#[test]
fn error_messages_cover_every_variant() {
    assert_eq!(HTTPError::InvalidPath.message(), "Invalid or missing path\n");
    assert_eq!(HTTPError::InvalidRequestType.message(), "Invalid or missing request type\n");
    assert_eq!(HTTPError::InvalidVersion.message(), "Invalid or missing HTTP version\n");
    assert_eq!(HTTPError::InvalidRequestLine.message(), "Request line was invalid\n");
    assert_eq!(HTTPError::InvalidHeader.message(), "Invalid or missing header\n");
    assert_eq!(HTTPError::InvalidContentType.message(), "Invalid or missing Content-Type\n");
    assert_eq!(
        HTTPError::InvalidContentLength.message(),
        "Invalid or missing Content-Length\n"
    );
    assert_eq!(
        HTTPError::InvalidContent.message(),
        "Content to short for Content-Length or invalid Content\n"
    );
    assert_eq!(
        HTTPError::FailedToObtainIP.message(),
        "Unable to get IP address of the client\n"
    );
}
