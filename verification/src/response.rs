//! Response building and serialization.
//!
//! A `Response` is built by a collaborator and serialized exactly once
//! into the bytes to write back to the client: a status line, the
//! `Content-Type`, `Content-Length`, optional `Last-Modified`, optional
//! `Allow` and mandatory `Date` headers, a blank line, and the body.
//!
//! The current time enters as a plain timestamp so that the codec stays
//! pure; reading the clock is the caller's step.

use vstd::prelude::*;
use vstd::utf8::encode_utf8;
use crate::content_type::{ContentType, spec_mime};
use crate::error::{HTTPError, spec_message};
use crate::date::{spec_http_date, turn_system_time_to_http_date, MAX_HTTP_DATE_SECONDS};
use crate::text::{spec_dec_chars, u64_to_dec_string, lemma_encode_utf8_concat, push_bytes};

verus! {

/// The status codes the serializer has words for.  Any other code is a
/// programmer error, ruled out by `requires`.
pub open spec fn is_supported_code(code: u16) -> bool {
    code == 200 || code == 400 || code == 404 || code == 405 || code == 415 || code == 429
        || code == 500
}

/// The status line of a supported code, without its line ending.
pub open spec fn spec_status_line(code: u16) -> Seq<char> {
    if code == 200 {
        "HTTP/1.1 200 OK"@
    } else if code == 400 {
        "HTTP/1.1 400 BAD REQUEST"@
    } else if code == 404 {
        "HTTP/1.1 404 NOT FOUND"@
    } else if code == 405 {
        "HTTP/1.1 405 METHOD NOT ALLOWED"@
    } else if code == 415 {
        "HTTP/1.1 415 UNSUPPORTED MEDIA TYPE"@
    } else if code == 429 {
        "HTTP/1.1 429 TOO MANY REQUESTS"@
    } else {
        "HTTP/1.1 500 INTERNAL SERVER ERROR"@
    }
}

/// The status line of a supported code.
fn make_code(code: u16) -> (r: String)
    requires
        is_supported_code(code),
    ensures
        r@ == spec_status_line(code),
{
    match code {
        200 => "HTTP/1.1 200 OK".to_owned(),
        400 => "HTTP/1.1 400 BAD REQUEST".to_owned(),
        404 => "HTTP/1.1 404 NOT FOUND".to_owned(),
        405 => "HTTP/1.1 405 METHOD NOT ALLOWED".to_owned(),
        415 => "HTTP/1.1 415 UNSUPPORTED MEDIA TYPE".to_owned(),
        429 => "HTTP/1.1 429 TOO MANY REQUESTS".to_owned(),
        500 => "HTTP/1.1 500 INTERNAL SERVER ERROR".to_owned(),
        _ => vstd::pervasive::unreached(),
    }
}

/// A response about to be serialized.
#[derive(Debug)]
pub struct Response {
    pub code: u16,
    pub content_type: ContentType,
    pub modified_date: Option<u64>,
    pub current_time: u64,
    pub allowed: Option<String>,
    pub data: Vec<u8>,
}

impl Response {
    /// A response the serializer can voice: a supported code, and
    /// timestamps inside the date codec's range.
    pub open spec fn well_formed(&self) -> bool {
        &&& is_supported_code(self.code)
        &&& self.current_time < MAX_HTTP_DATE_SECONDS
        &&& (self.modified_date matches Some(t) ==> t < MAX_HTTP_DATE_SECONDS)
    }

    /// A response from its parts.  `now` is the clock reading used for
    /// the `Date` header.
    pub fn new(
        code: u16,
        content_type: ContentType,
        modified_date: Option<u64>,
        allowed: Option<String>,
        data: Vec<u8>,
        now: u64,
    ) -> (r: Response)
        requires
            is_supported_code(code),
            now < MAX_HTTP_DATE_SECONDS,
            modified_date matches Some(t) ==> t < MAX_HTTP_DATE_SECONDS,
        ensures
            r == (Response { code, content_type, modified_date, current_time: now, allowed, data }),
            r.well_formed(),
    {
        Response { code, content_type, modified_date, current_time: now, allowed, data }
    }

    /// A `200 OK` carrying the given content.
    pub fn new_ok(
        content_type: ContentType,
        modified_date: Option<u64>,
        data: Vec<u8>,
        now: u64,
    ) -> (r: Response)
        requires
            now < MAX_HTTP_DATE_SECONDS,
            modified_date matches Some(t) ==> t < MAX_HTTP_DATE_SECONDS,
        ensures
            r == (Response {
                code: 200u16,
                content_type,
                modified_date,
                current_time: now,
                allowed: None::<String>,
                data,
            }),
            r.well_formed(),
    {
        Response {
            code: 200,
            content_type,
            modified_date,
            current_time: now,
            allowed: None,
            data,
        }
    }

    /// A plain-text `404 NOT FOUND`.
    pub fn empty_404(now: u64) -> (r: Response)
        requires
            now < MAX_HTTP_DATE_SECONDS,
        ensures
            r.code == 404,
            r.content_type == ContentType::PlainText,
            r.modified_date is None,
            r.current_time == now,
            r.allowed is None,
            r.data@ == encode_utf8("NOT FOUND"@),
            r.well_formed(),
    {
        let data = "NOT FOUND".as_bytes_vec();
        Response {
            code: 404,
            content_type: ContentType::PlainText,
            modified_date: None,
            current_time: now,
            allowed: None,
            data,
        }
    }

    /// A plain-text `200 OK`.
    pub fn empty_ok(now: u64) -> (r: Response)
        requires
            now < MAX_HTTP_DATE_SECONDS,
        ensures
            r.code == 200,
            r.content_type == ContentType::PlainText,
            r.modified_date is None,
            r.current_time == now,
            r.allowed is None,
            r.data@ == encode_utf8("OK"@),
            r.well_formed(),
    {
        let data = "OK".as_bytes_vec();
        Response {
            code: 200,
            content_type: ContentType::PlainText,
            modified_date: None,
            current_time: now,
            allowed: None,
            data,
        }
    }

    /// A plain-text `500 INTERNAL SERVER ERROR`.
    pub fn empty_500_error(now: u64) -> (r: Response)
        requires
            now < MAX_HTTP_DATE_SECONDS,
        ensures
            r.code == 500,
            r.content_type == ContentType::PlainText,
            r.modified_date is None,
            r.current_time == now,
            r.allowed is None,
            r.data@ == encode_utf8("Internal Server Error"@),
            r.well_formed(),
    {
        let data = "Internal Server Error".as_bytes_vec();
        Response {
            code: 500,
            content_type: ContentType::PlainText,
            modified_date: None,
            current_time: now,
            allowed: None,
            data,
        }
    }

    /// A `400 BAD REQUEST` whose body names the parsing error.
    pub fn new_400_error(error: HTTPError, now: u64) -> (r: Response)
        requires
            now < MAX_HTTP_DATE_SECONDS,
        ensures
            r.code == 400,
            r.content_type == ContentType::PlainText,
            r.modified_date is None,
            r.current_time == now,
            r.allowed is None,
            r.data@ == encode_utf8(spec_message(error)),
            r.well_formed(),
    {
        let message = error.message();
        let data = message.as_str().as_bytes_vec();
        Response {
            code: 400,
            content_type: ContentType::PlainText,
            modified_date: None,
            current_time: now,
            allowed: None,
            data,
        }
    }

    /// A `405 METHOD NOT ALLOWED` naming the methods that are.
    pub fn new_405_error(allowed: &str, now: u64) -> (r: Response)
        requires
            now < MAX_HTTP_DATE_SECONDS,
        ensures
            r.code == 405,
            r.content_type == ContentType::PlainText,
            r.modified_date is None,
            r.current_time == now,
            r.allowed matches Some(a) && a@ == allowed@,
            r.data@ == encode_utf8("Method Not Allowed"@),
            r.well_formed(),
    {
        let data = "Method Not Allowed".as_bytes_vec();
        Response {
            code: 405,
            content_type: ContentType::PlainText,
            modified_date: None,
            current_time: now,
            allowed: Some(allowed.to_owned()),
            data,
        }
    }
}

/// The header part of a serialized response, as text: status line,
/// `Content-Type`, `Content-Length`, the optional and mandatory date
/// headers, and the blank line.
pub open spec fn spec_response_header_chars(r: Response) -> Seq<char> {
    spec_status_line(r.code) + "\r\nContent-Type: "@ + spec_mime(r.content_type)
        + "\r\nContent-Length: "@ + spec_dec_chars(r.data@.len() as nat) + "\r\n"@ + (
    match r.modified_date {
        None => Seq::<char>::empty(),
        Some(t) => "Last-Modified: "@ + spec_http_date(t as int) + "\r\n"@,
    }) + (match r.allowed {
        None => Seq::<char>::empty(),
        Some(s) => "Allow: "@ + s@ + "\r\n"@,
    }) + "Date: "@ + spec_http_date(r.current_time as int) + "\r\n\r\n"@
}

/// Every byte a response serializes to: the header text in UTF-8, then
/// the raw body.
pub open spec fn spec_response_bytes(r: Response) -> Seq<u8> {
    encode_utf8(spec_response_header_chars(r)) + r.data@
}

impl Response {
    /// Serializes the response, consuming it.
    #[verifier::rlimit(60)]
    pub fn into_bytes(self) -> (r: Vec<u8>)
        requires
            self.well_formed(),
        ensures
            r@ == spec_response_bytes(self),
    {
        let Response { code, content_type, modified_date, current_time, allowed, data } = self;
        let mut h = make_code(code);
        h.append("\r\nContent-Type: ");
        h.append(content_type.as_str());
        h.append("\r\nContent-Length: ");
        let len_str = u64_to_dec_string(data.len() as u64);
        h.append(len_str.as_str());
        h.append("\r\n");
        match modified_date {
            Some(t) => {
                h.append("Last-Modified: ");
                let d = turn_system_time_to_http_date(t);
                h.append(d.as_str());
                h.append("\r\n");
            },
            None => {},
        }
        match &allowed {
            Some(s) => {
                h.append("Allow: ");
                h.append(s.as_str());
                h.append("\r\n");
            },
            None => {},
        }
        h.append("Date: ");
        let d2 = turn_system_time_to_http_date(current_time);
        h.append(d2.as_str());
        h.append("\r\n\r\n");
        proof {
            assert(h@ =~= spec_response_header_chars(self));
        }
        let mut out = h.as_str().as_bytes_vec();
        push_bytes(&mut out, data.as_slice());
        out
    }
}

/// A `404` response serializes to bytes that start with exactly
/// `"HTTP/1.1 404 NOT FOUND"` and a CRLF.
pub proof fn lemma_404_status_line(r: Response)
    requires
        r.code == 404,
    ensures
        spec_response_header_chars(r).take(24) == "HTTP/1.1 404 NOT FOUND\r\n"@,
        spec_response_bytes(r).take(24) == encode_utf8("HTTP/1.1 404 NOT FOUND\r\n"@),
{
    reveal_strlit("HTTP/1.1 404 NOT FOUND");
    reveal_strlit("HTTP/1.1 404 NOT FOUND\r\n");
    reveal_strlit("\r\nContent-Type: ");
    let chars = spec_response_header_chars(r);
    let p = "HTTP/1.1 404 NOT FOUND\r\n"@;
    assert(chars.take(24) =~= p);
    assert(chars =~= p + chars.skip(24));
    lemma_encode_utf8_concat(p, chars.skip(24));
    assert(vstd::utf8::is_ascii_chars(p));
    vstd::utf8::is_ascii_chars_encode_utf8(p);
    assert(encode_utf8(p).len() == 24);
    assert(spec_response_bytes(r).take(24) =~= encode_utf8(p));
}

} // verus!
