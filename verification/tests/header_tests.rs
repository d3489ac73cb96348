use http_codec::header::{split_header_bytes, extract_header_fields};
use http_codec::content_type::ContentType;
use http_codec::error::HTTPError;

#[test]
fn splitter_finds_the_blank_line() {
    let data = b"Host: example.org\r\nContent-Length: 4\r\n\r\nBODY";
    let (header, body_start) = split_header_bytes(data).unwrap();
    assert_eq!(header, "Host: example.org\r\nContent-Length: 4\r\n\r\n");
    assert_eq!(body_start, 40);
    assert_eq!(&data[body_start..], b"BODY");
}

#[test]
fn splitter_fails_without_a_boundary() {
    let r = split_header_bytes(b"Host: example.org\r\n");
    assert!(matches!(r, Err(HTTPError::InvalidHeader)));
}

#[test]
fn splitter_fails_on_empty_input() {
    let r = split_header_bytes(b"");
    assert!(matches!(r, Err(HTTPError::InvalidHeader)));
}

#[test]
fn splitter_rejects_bytes_that_are_not_utf8() {
    // 0xFF can begin no UTF-8 sequence
    let data = [b'A', 0xFF, b'\r', b'\n', b'\r', b'\n'];
    let r = split_header_bytes(&data);
    assert!(matches!(r, Err(HTTPError::InvalidHeader)));
}

#[test]
fn splitter_decodes_multibyte_header_text() {
    let data = "X-Note: caf\u{e9}\r\n\r\n".as_bytes();
    let (header, body_start) = split_header_bytes(data).unwrap();
    assert_eq!(header, "X-Note: caf\u{e9}\r\n\r\n");
    assert_eq!(body_start, data.len());
}

#[test]
fn extractor_reads_the_four_fields() {
    let header = "Host: example.org\r\nContent-Type: text/html\r\nContent-Length: 12\r\nX-Forwarded-For: 10.0.0.7\r\n\r\n";
    let f = extract_header_fields(header).unwrap();
    assert_eq!(f.host, "example.org");
    assert!(matches!(f.content_type, ContentType::Html));
    assert_eq!(f.content_length, 12);
    assert_eq!(f.forwarded_for, "10.0.0.7");
}

#[test]
fn unrecognized_lines_are_ignored() {
    let header = "Accept: */*\r\nUser-Agent: curl\r\n\r\n";
    let f = extract_header_fields(header).unwrap();
    assert_eq!(f.host, "");
    assert!(matches!(f.content_type, ContentType::PlainText));
    assert_eq!(f.content_length, 0);
    assert_eq!(f.forwarded_for, "");
}

#[test]
fn bad_content_length_fails() {
    let r = extract_header_fields("Content-Length: twelve\r\n\r\n");
    assert!(matches!(r, Err(HTTPError::InvalidContentLength)));
}

#[test]
fn oversized_content_length_fails() {
    let r = extract_header_fields("Content-Length: 99999999999999999999999999\r\n\r\n");
    assert!(matches!(r, Err(HTTPError::InvalidContentLength)));
}

#[test]
fn unknown_content_type_fails() {
    let r = extract_header_fields("Content-Type: application/json\r\n\r\n");
    assert!(matches!(r, Err(HTTPError::InvalidContentType)));
}

#[test]
fn later_fields_overwrite_earlier_ones() {
    let header = "Content-Length: 1\r\nContent-Length: 2\r\nX-Forwarded-For: 1.1.1.1\r\nX-Forwarded-For: 2.2.2.2\r\n\r\n";
    let f = extract_header_fields(header).unwrap();
    assert_eq!(f.content_length, 2);
    assert_eq!(f.forwarded_for, "2.2.2.2");
}

#[test]
fn host_lines_concatenate() {
    let header = "Host: a\r\nHost: b\r\n\r\n";
    let f = extract_header_fields(header).unwrap();
    assert_eq!(f.host, "ab");
}
