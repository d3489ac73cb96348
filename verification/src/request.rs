//! Request assembly.
//!
//! A request arrives as its request line plus the raw bytes that follow
//! it (header block, then body).  The assemblers split the path from
//! its query string, find the header boundary, extract the recognized
//! fields, and, for POST, take exactly `Content-Length` bytes of body.
//!
//! The `X-Forwarded-For` value is kept as the text that arrived;
//! deciding whether it names an IP address needs the platform's address
//! parser and is the caller's step.

use vstd::prelude::*;
use vstd::utf8::{valid_utf8, decode_utf8};
use crate::error::HTTPError;
use crate::content_type::ContentType;
use crate::request_line::{HTTPRequestLine, HTTPType, spec_parse_request_line};
use crate::query::{
    QueryMap, process_query_string, spec_process_query, scan_to_char_before,
};
use crate::header::{
    split_header_bytes, extract_header_fields, spec_header_end, spec_extract_header_fields,
    spec_lines,
};
use crate::text::{find_from, lemma_find_from, spec_has_prefix};

verus! {

/// A rough classification of what a request asks for.
#[derive(Debug)]
pub enum RequestType {
    Api,
    OtherFile,
    Html,
}

/// A path split at its first `?`: the file part and the decoded query
/// mapping, or the query decoder's error.
pub open spec fn spec_path_and_query(path: Seq<char>) -> Result<
    (Seq<char>, Map<Seq<char>, Seq<char>>),
    HTTPError,
> {
    let i = find_from(path, '?', 0);
    if i >= path.len() {
        Ok((path, Map::empty()))
    } else {
        match spec_process_query(path.skip(i + 1)) {
            Err(e) => Err(e),
            Ok(m) => Ok((path.take(i), m)),
        }
    }
}

/// The last `X-Forwarded-For` value among the lines, starting from
/// `cur`; empty when no line carries one.
pub open spec fn spec_fold_forwarded(cur: Seq<char>, lines: Seq<Seq<char>>) -> Seq<char>
    decreases lines.len(),
{
    if lines.len() == 0 {
        cur
    } else {
        spec_fold_forwarded(
            if spec_has_prefix(lines[0], "X-Forwarded-For: "@) {
                lines[0].skip("X-Forwarded-For: "@.len() as int)
            } else {
                cur
            },
            lines.drop_first(),
        )
    }
}

/// The last `X-Forwarded-For` value of a header text.
pub open spec fn spec_forwarded_for(s: Seq<char>) -> Seq<char> {
    spec_fold_forwarded(Seq::empty(), spec_lines(s))
}

/// Scans the header text for its last `X-Forwarded-For` value.  This is
/// all a GET request reads from its header block.
#[verifier::rlimit(60)]
pub fn extract_forwarded_for(header: &str) -> (r: String)
    ensures
        r@ == spec_forwarded_for(header@),
{
    let n = header.unicode_len();
    let mut cur = String::new();
    let mut pos: usize = 0;
    proof {
        assert(header@.skip(0) =~= header@);
    }
    loop
        invariant_except_break
            spec_fold_forwarded(cur@, spec_lines(header@.skip(pos as int))) == spec_forwarded_for(
                header@,
            ),
        invariant
            pos <= n,
            n == header@.len(),
        ensures
            cur@ == spec_forwarded_for(header@),
        decreases n - pos,
    {
        if pos == n {
            proof {
                assert(header@.skip(pos as int) =~= Seq::<char>::empty());
            }
            break;
        }
        let ghost rem = header@.skip(pos as int);
        let e = scan_to_char_before(header, pos, n, '\n');
        let ghost irel = (e - pos) as int;
        proof {
            assert forall|k: int| 0 <= k < irel implies rem[k] != '\n' by {
                assert(rem[k] == header@[pos + k]);
            }
            if e < n {
                assert(rem[irel] == header@[e as int]);
            }
            lemma_find_from(rem, '\n', 0, irel);
        }
        let lend: usize = if e < n && e > pos && header.get_char(e - 1) == '\r' {
            e - 1
        } else {
            e
        };
        let line = header.substring_char(pos, lend);
        proof {
            if e < n {
                assert(crate::header::strip_cr(rem.take(irel)) =~= line@);
                assert(spec_lines(rem) == seq![crate::header::strip_cr(rem.take(irel))]
                    + spec_lines(rem.skip(irel + 1)));
                assert((seq![crate::header::strip_cr(rem.take(irel))] + spec_lines(
                    rem.skip(irel + 1),
                )).drop_first() =~= spec_lines(rem.skip(irel + 1)));
            } else {
                assert(rem =~= line@);
                assert(spec_lines(rem) == seq![rem]);
                assert(seq![rem].drop_first() =~= Seq::<Seq<char>>::empty());
            }
            assert(spec_lines(rem)[0] == line@);
        }
        let ghost cur0 = cur@;
        if crate::text::has_prefix_str(line, "X-Forwarded-For: ") {
            let np = "X-Forwarded-For: ".unicode_len();
            let nl = line.unicode_len();
            let value = line.substring_char(np, nl);
            proof {
                assert(value@ =~= line@.skip("X-Forwarded-For: "@.len() as int));
            }
            cur = value.to_owned();
        }
        proof {
            assert(spec_fold_forwarded(cur0, spec_lines(rem)) == spec_fold_forwarded(
                cur@,
                spec_lines(rem).drop_first(),
            ));
        }
        if e == n {
            proof {
                assert(spec_lines(rem).drop_first() =~= Seq::<Seq<char>>::empty());
                assert(spec_fold_forwarded(cur@, Seq::<Seq<char>>::empty()) == cur@);
            }
            break;
        }
        proof {
            assert(rem.skip(irel + 1) =~= header@.skip(e + 1 as int));
        }
        pos = e + 1;
    }
    cur
}

/// Reads exactly `content_length` body bytes from `data`, starting at
/// `start`.  `InvalidContent` when the data ends first: the stream hit
/// its end before the promised length.
pub fn read_body(data: &[u8], start: usize, content_length: usize) -> (r: Result<
    Vec<u8>,
    HTTPError,
>)
    requires
        start <= data@.len(),
    ensures
        match r {
            Ok(body) => start + content_length <= data@.len() && body@ == data@.subrange(
                start as int,
                start + content_length,
            ),
            Err(e) => e == HTTPError::InvalidContent && start + content_length > data@.len(),
        },
{
    let n = data.len();
    if content_length > n - start {
        return Err(HTTPError::InvalidContent);
    }
    let mut body: Vec<u8> = Vec::new();
    let mut i: usize = 0;
    while i < content_length
        invariant
            0 <= i <= content_length,
            start + content_length <= n,
            n == data@.len(),
            body@ == data@.subrange(start as int, start + i),
        decreases content_length - i,
    {
        body.push(data[start + i]);
        proof {
            assert(body@ =~= data@.subrange(start as int, start + i + 1));
        }
        i = i + 1;
    }
    Ok(body)
}

/// What a GET request holds once assembled.
pub struct GetRequestView {
    pub path: Seq<char>,
    pub query: Map<Seq<char>, Seq<char>>,
    pub ip: Seq<char>,
}

/// A GET request: its path, its query mapping, and the client address
/// text its proxy forwarded.
#[derive(Debug)]
pub struct GETRequest {
    pub path: String,
    pub query_string: QueryMap,
    pub ip: String,
}

impl View for GETRequest {
    type V = GetRequestView;

    open spec fn view(&self) -> GetRequestView {
        GetRequestView { path: self.path@, query: self.query_string@, ip: self.ip@ }
    }
}

/// What assembling a GET request from its path and the bytes after the
/// request line yields.
pub open spec fn spec_get_request(path: Seq<char>, data: Seq<u8>) -> Result<
    GetRequestView,
    HTTPError,
> {
    match spec_path_and_query(path) {
        Err(e) => Err(e),
        Ok(pq) => match spec_header_end(data, 0) {
            None => Err(HTTPError::InvalidHeader),
            Some(end) => if !valid_utf8(data.subrange(0, end)) {
                Err(HTTPError::InvalidHeader)
            } else {
                Ok(
                    GetRequestView {
                        path: pq.0,
                        query: pq.1,
                        ip: spec_forwarded_for(decode_utf8(data.subrange(0, end))),
                    },
                )
            },
        },
    }
}

/// What a POST request holds once assembled.
pub struct PostRequestView {
    pub path: Seq<char>,
    pub query: Map<Seq<char>, Seq<char>>,
    pub host: Seq<char>,
    pub ip: Seq<char>,
    pub content_type: ContentType,
    pub content_length: int,
    pub content: Seq<u8>,
}

/// A POST request: path, query mapping, host, forwarded client address
/// text, media type, and exactly `Content-Length` bytes of body.
#[derive(Debug)]
pub struct POSTRequest {
    pub path: String,
    pub query_string: QueryMap,
    pub host: String,
    pub ip: String,
    pub content_type: ContentType,
    pub content_length: usize,
    pub content: Vec<u8>,
}

impl View for POSTRequest {
    type V = PostRequestView;

    open spec fn view(&self) -> PostRequestView {
        PostRequestView {
            path: self.path@,
            query: self.query_string@,
            host: self.host@,
            ip: self.ip@,
            content_type: self.content_type,
            content_length: self.content_length as int,
            content: self.content@,
        }
    }
}

/// What assembling a POST request from its path and the bytes after the
/// request line yields.
pub open spec fn spec_post_request(path: Seq<char>, data: Seq<u8>) -> Result<
    PostRequestView,
    HTTPError,
> {
    match spec_path_and_query(path) {
        Err(e) => Err(e),
        Ok(pq) => match spec_header_end(data, 0) {
            None => Err(HTTPError::InvalidHeader),
            Some(end) => if !valid_utf8(data.subrange(0, end)) {
                Err(HTTPError::InvalidHeader)
            } else {
                match spec_extract_header_fields(decode_utf8(data.subrange(0, end))) {
                    Err(e) => Err(e),
                    Ok(st) => if end + st.content_length > data.len() {
                        Err(HTTPError::InvalidContent)
                    } else {
                        Ok(
                            PostRequestView {
                                path: pq.0,
                                query: pq.1,
                                host: st.host,
                                ip: st.forwarded_for,
                                content_type: st.content_type,
                                content_length: st.content_length,
                                content: data.subrange(end, end + st.content_length),
                            },
                        )
                    },
                }
            },
        },
    }
}

/// Splits a path at its first `?` and decodes the query string.
fn split_path_query(path: String) -> (r: Result<(String, QueryMap), HTTPError>)
    ensures
        match r {
            Ok(pq) => spec_path_and_query(path@) == Ok::<
                (Seq<char>, Map<Seq<char>, Seq<char>>),
                HTTPError,
            >((pq.0@, pq.1@)),
            Err(e) => spec_path_and_query(path@) == Err::<
                (Seq<char>, Map<Seq<char>, Seq<char>>),
                HTTPError,
            >(e),
        },
{
    let n = path.unicode_len();
    let qpos = scan_to_char_before(path.as_str(), 0, n, '?');
    proof {
        lemma_find_from(path@, '?', 0, qpos as int);
    }
    if qpos == n {
        Ok((path, QueryMap::new()))
    } else {
        let query_str = path.as_str().substring_char(qpos + 1, n);
        proof {
            assert(query_str@ =~= path@.skip(qpos + 1 as int));
        }
        match process_query_string(query_str) {
            Err(e) => Err(e),
            Ok(qm) => {
                let left = path.as_str().substring_char(0, qpos).to_owned();
                proof {
                    assert(left@ =~= path@.take(qpos as int));
                }
                Ok((left, qm))
            },
        }
    }
}

impl GETRequest {
    /// Assembles a GET request from its parsed request line and the raw
    /// bytes that followed the line.
    pub fn new(line: HTTPRequestLine, data: &[u8]) -> (r: Result<GETRequest, HTTPError>)
        ensures
            match r {
                Ok(g) => spec_get_request(line.path@, data@) == Ok::<GetRequestView, HTTPError>(
                    g@,
                ),
                Err(e) => spec_get_request(line.path@, data@) == Err::<GetRequestView, HTTPError>(
                    e,
                ),
            },
    {
        let (path, query_string) = match split_path_query(line.path) {
            Err(e) => {
                return Err(e);
            },
            Ok(pq) => pq,
        };
        let (header, _body_start) = match split_header_bytes(data) {
            Err(e) => {
                return Err(e);
            },
            Ok(h) => h,
        };
        let ip = extract_forwarded_for(header.as_str());
        Ok(GETRequest { path, query_string, ip })
    }

    /// Looks a key up in the query mapping.
    pub fn get_query(&self, key: &str) -> (r: Option<&String>)
        ensures
            match r {
                Some(v) => self@.query.contains_key(key@) && self@.query[key@] == v@,
                None => !self@.query.contains_key(key@),
            },
    {
        self.query_string.get(key)
    }
}

impl POSTRequest {
    /// Assembles a POST request from its parsed request line and the
    /// raw bytes that followed the line.
    pub fn new(line: HTTPRequestLine, data: &[u8]) -> (r: Result<POSTRequest, HTTPError>)
        ensures
            match r {
                Ok(p) => spec_post_request(line.path@, data@) == Ok::<PostRequestView, HTTPError>(
                    p@,
                ),
                Err(e) => spec_post_request(line.path@, data@) == Err::<
                    PostRequestView,
                    HTTPError,
                >(e),
            },
    {
        let (path, query_string) = match split_path_query(line.path) {
            Err(e) => {
                return Err(e);
            },
            Ok(pq) => pq,
        };
        let (header, body_start) = match split_header_bytes(data) {
            Err(e) => {
                return Err(e);
            },
            Ok(h) => h,
        };
        let fields = match extract_header_fields(header.as_str()) {
            Err(e) => {
                return Err(e);
            },
            Ok(f) => f,
        };
        let content = match read_body(data, body_start, fields.content_length) {
            Err(e) => {
                return Err(e);
            },
            Ok(c) => c,
        };
        Ok(
            POSTRequest {
                path,
                query_string,
                host: fields.host,
                ip: fields.forwarded_for,
                content_type: fields.content_type,
                content_length: fields.content_length,
                content,
            },
        )
    }

    pub fn get_path(&self) -> (r: &str)
        ensures
            r@ == self@.path,
    {
        self.path.as_str()
    }

    pub fn get_host(&self) -> (r: &str)
        ensures
            r@ == self@.host,
    {
        self.host.as_str()
    }

    pub fn get_data(&self) -> (r: &Vec<u8>)
        ensures
            r@ == self@.content,
    {
        &self.content
    }

    pub fn get_data_length(&self) -> (r: usize)
        ensures
            r as int == self@.content_length,
    {
        self.content_length
    }

    pub fn get_content_type(&self) -> (r: ContentType)
        ensures
            r == self@.content_type,
    {
        self.content_type
    }

    /// Looks a key up in the query mapping.
    pub fn get_query(&self, key: &str) -> (r: Option<&String>)
        ensures
            match r {
                Some(v) => self@.query.contains_key(key@) && self@.query[key@] == v@,
                None => !self@.query.contains_key(key@),
            },
    {
        self.query_string.get(key)
    }
}

/// One incoming request, whichever method it used.
#[derive(Debug)]
pub enum Request {
    GetRequest(GETRequest),
    POSTRequest(POSTRequest),
}

impl Request {
    /// Assembles a request from its request-line text and the raw bytes
    /// that followed the line on the stream.
    pub fn new(request_line: &str, data: &[u8]) -> (r: Result<Request, HTTPError>)
        ensures
            match r {
                Ok(req) => match spec_parse_request_line(request_line@) {
                    Ok(kp) => match req {
                        Request::GetRequest(g) => kp.0 == HTTPType::Get && spec_get_request(
                            kp.1,
                            data@,
                        ) == Ok::<GetRequestView, HTTPError>(g@),
                        Request::POSTRequest(p) => kp.0 == HTTPType::Post && spec_post_request(
                            kp.1,
                            data@,
                        ) == Ok::<PostRequestView, HTTPError>(p@),
                    },
                    Err(_) => false,
                },
                Err(e) => match spec_parse_request_line(request_line@) {
                    Err(e2) => e == e2,
                    Ok(kp) => (kp.0 == HTTPType::Get && spec_get_request(kp.1, data@) == Err::<
                        GetRequestView,
                        HTTPError,
                    >(e)) || (kp.0 == HTTPType::Post && spec_post_request(kp.1, data@) == Err::<
                        PostRequestView,
                        HTTPError,
                    >(e)),
                },
            },
    {
        let line = match HTTPRequestLine::from_line(request_line) {
            Err(e) => {
                return Err(e);
            },
            Ok(line) => line,
        };
        match line.get_kind() {
            HTTPType::Get => match GETRequest::new(line, data) {
                Err(e) => Err(e),
                Ok(g) => Ok(Request::GetRequest(g)),
            },
            HTTPType::Post => match POSTRequest::new(line, data) {
                Err(e) => Err(e),
                Ok(p) => Ok(Request::POSTRequest(p)),
            },
        }
    }

    /// The path of the request, whichever variant holds it.
    pub fn get_path(&self) -> (r: &str)
        ensures
            match self {
                Request::GetRequest(g) => r@ == g@.path,
                Request::POSTRequest(p) => r@ == p@.path,
            },
    {
        match self {
            Request::GetRequest(g) => g.path.as_str(),
            Request::POSTRequest(p) => p.path.as_str(),
        }
    }

    /// The forwarded client address text, whichever variant holds it.
    pub fn get_ip(&self) -> (r: &str)
        ensures
            match self {
                Request::GetRequest(g) => r@ == g@.ip,
                Request::POSTRequest(p) => r@ == p@.ip,
            },
    {
        match self {
            Request::GetRequest(g) => g.ip.as_str(),
            Request::POSTRequest(p) => p.ip.as_str(),
        }
    }
}

} // verus!
