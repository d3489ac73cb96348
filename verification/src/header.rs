//! Header block splitting and header field extraction.
//!
//! The header block of a request ends at the first `\r\n\r\n`.  The
//! splitter scans a byte buffer the way a buffered stream reader takes
//! it in: it seeks a `\r`, looks at the following three bytes, and
//! either stops on `\n\r\n` or carries on behind them.  The extractor
//! then walks the decoded header text line by line, picking out the
//! four recognized fields.

use vstd::prelude::*;
use vstd::utf8::{valid_utf8, decode_utf8};
use crate::error::HTTPError;
use crate::content_type::{ContentType, spec_parse_mime};
use crate::text::{
    find_from, lemma_find_from, spec_has_prefix, has_prefix_str, is_dec_string, spec_dec_val,
    bytes_to_string_checked,
};

verus! {

/// The first position at or after `i` holding byte `b`, or the end.
pub open spec fn find_byte_from(data: Seq<u8>, b: u8, i: int) -> int
    decreases data.len() - i when 0 <= i <= data.len()
{
    if i >= data.len() {
        i
    } else if data[i] == b {
        i
    } else {
        find_byte_from(data, b, i + 1)
    }
}

/// `find_byte_from` is pinned down by a scan's findings.
pub proof fn lemma_find_byte_from(data: Seq<u8>, b: u8, i: int, j: int)
    requires
        0 <= i <= j <= data.len(),
        forall|k: int| i <= k < j ==> data[k] != b,
        j == data.len() || data[j] == b,
    ensures
        find_byte_from(data, b, i) == j,
    decreases j - i,
{
    if i < j {
        lemma_find_byte_from(data, b, i + 1, j);
    }
}

/// `find_byte_from` stays within the sequence.
pub proof fn lemma_find_byte_from_range(data: Seq<u8>, b: u8, i: int)
    requires
        0 <= i <= data.len(),
    ensures
        i <= find_byte_from(data, b, i) <= data.len(),
    decreases data.len() - i,
{
    if i < data.len() && data[i] != b {
        lemma_find_byte_from_range(data, b, i + 1);
    }
}

/// Where the header block ends, scanning from `pos`: the position just
/// after the closing `\r\n\r\n`, found by seeking each `\r` and testing
/// the three bytes behind it.  `None` when the data runs out first.
pub open spec fn spec_header_end(data: Seq<u8>, pos: int) -> Option<int>
    decreases data.len() - pos when 0 <= pos <= data.len()
    via spec_header_end_decreases
{
    let k = find_byte_from(data, ('\r' as u8), pos);
    if k >= data.len() || k + 4 > data.len() {
        None
    } else if data[k + 1] == ('\n' as u8) && data[k + 2] == ('\r' as u8) && data[k + 3] == ('\n'
        as u8) {
        Some(k + 4)
    } else {
        spec_header_end(data, k + 4)
    }
}

#[via_fn]
proof fn spec_header_end_decreases(data: Seq<u8>, pos: int) {
    lemma_find_byte_from_range(data, ('\r' as u8), pos);
}

/// Splits a request's bytes at the end of its header block.  On
/// success: the header text (closing `\r\n\r\n` included) decoded as
/// UTF-8, and the position of the first body byte.  `InvalidHeader`
/// when the boundary is missing or the header bytes are not UTF-8.
#[verifier::loop_isolation(false)]
pub fn split_header_bytes(data: &[u8]) -> (r: Result<(String, usize), HTTPError>)
    ensures
        match r {
            Ok(p) => {
                &&& spec_header_end(data@, 0) == Some(p.1 as int)
                &&& p.1 <= data@.len()
                &&& valid_utf8(data@.subrange(0, p.1 as int))
                &&& p.0@ == decode_utf8(data@.subrange(0, p.1 as int))
            },
            Err(e) => {
                &&& e == HTTPError::InvalidHeader
                &&& match spec_header_end(data@, 0) {
                    Some(end) => !valid_utf8(data@.subrange(0, end)),
                    None => true,
                }
            },
        },
{
    let n = data.len();
    let mut pos: usize = 0;
    loop
        invariant
            0 <= pos <= n,
            spec_header_end(data@, pos as int) == spec_header_end(data@, 0),
        decreases n - pos,
    {
        let mut k: usize = pos;
        while k < n && data[k] != ('\r' as u8)
            invariant
                pos <= k <= n,
                forall|j: int| pos <= j < k ==> data@[j] != ('\r' as u8),
            decreases n - k,
        {
            k = k + 1;
        }
        proof {
            lemma_find_byte_from(data@, ('\r' as u8), pos as int, k as int);
        }
        if k == n || n - k < 4 {
            return Err(HTTPError::InvalidHeader);
        }
        if data[k + 1] == ('\n' as u8) && data[k + 2] == ('\r' as u8) && data[k + 3] == ('\n'
            as u8) {
            let end = k + 4;
            let mut v: Vec<u8> = Vec::new();
            let mut i: usize = 0;
            while i < end
                invariant
                    0 <= i <= end <= n,
                    v@ == data@.subrange(0, i as int),
                decreases end - i,
            {
                v.push(data[i]);
                proof {
                    assert(v@ =~= data@.subrange(0, i + 1 as int));
                }
                i = i + 1;
            }
            match bytes_to_string_checked(v) {
                Some(h) => {
                    return Ok((h, end));
                },
                None => {
                    return Err(HTTPError::InvalidHeader);
                },
            }
        }
        pos = k + 4;
    }
}

/// What the four recognized header fields held once the whole block has
/// been walked.
pub struct HeaderState {
    pub host: Seq<char>,
    pub content_type: ContentType,
    pub content_length: int,
    pub forwarded_for: Seq<char>,
}

/// The state before any header line: empty host, plain text, length 0,
/// no forwarded address.
pub open spec fn spec_header_init() -> HeaderState {
    HeaderState {
        host: Seq::empty(),
        content_type: ContentType::PlainText,
        content_length: 0,
        forwarded_for: Seq::empty(),
    }
}

/// One header line applied to the state.  `Host` values concatenate;
/// the other fields keep their last occurrence; unrecognized lines
/// change nothing.
pub open spec fn spec_apply_header_line(st: HeaderState, line: Seq<char>) -> Result<
    HeaderState,
    HTTPError,
> {
    if spec_has_prefix(line, "Content-Type: "@) {
        match spec_parse_mime(line.skip("Content-Type: "@.len() as int)) {
            None => Err(HTTPError::InvalidContentType),
            Some(ct) => Ok(HeaderState { content_type: ct, ..st }),
        }
    } else if spec_has_prefix(line, "Host: "@) {
        Ok(HeaderState { host: st.host + line.skip("Host: "@.len() as int), ..st })
    } else if spec_has_prefix(line, "Content-Length: "@) {
        let v = line.skip("Content-Length: "@.len() as int);
        if is_dec_string(v) && spec_dec_val(v) <= usize::MAX {
            Ok(HeaderState { content_length: spec_dec_val(v), ..st })
        } else {
            Err(HTTPError::InvalidContentLength)
        }
    } else if spec_has_prefix(line, "X-Forwarded-For: "@) {
        Ok(HeaderState { forwarded_for: line.skip("X-Forwarded-For: "@.len() as int), ..st })
    } else {
        Ok(st)
    }
}

/// The lines of a text, as the header walk sees them: split at `\n`,
/// one `\r` stripped from a line's end when the `\n` follows it.
pub open spec fn spec_lines(s: Seq<char>) -> Seq<Seq<char>>
    decreases s.len(),
    via spec_lines_decreases
{
    if s.len() == 0 {
        Seq::empty()
    } else {
        let i = find_from(s, '\n', 0);
        if i >= s.len() {
            seq![s]
        } else {
            seq![strip_cr(s.take(i))] + spec_lines(s.skip(i + 1))
        }
    }
}

#[via_fn]
proof fn spec_lines_decreases(s: Seq<char>) {
    crate::text::lemma_find_from_range(s, '\n', 0);
}

/// Drops one trailing carriage return.
pub open spec fn strip_cr(l: Seq<char>) -> Seq<char> {
    if l.len() > 0 && l.last() == '\r' {
        l.drop_last()
    } else {
        l
    }
}

/// All header lines applied in order, stopping at the first bad field.
pub open spec fn spec_fold_header_lines(st: HeaderState, lines: Seq<Seq<char>>) -> Result<
    HeaderState,
    HTTPError,
> decreases lines.len(),
{
    if lines.len() == 0 {
        Ok(st)
    } else {
        match spec_apply_header_line(st, lines[0]) {
            Err(e) => Err(e),
            Ok(st2) => spec_fold_header_lines(st2, lines.drop_first()),
        }
    }
}

/// What extracting the fields from a header text yields.
pub open spec fn spec_extract_header_fields(s: Seq<char>) -> Result<HeaderState, HTTPError> {
    spec_fold_header_lines(spec_header_init(), spec_lines(s))
}

/// The four recognized header fields of a request.
#[derive(Debug)]
pub struct HeaderFields {
    pub host: String,
    pub content_type: ContentType,
    pub content_length: usize,
    /// The raw `X-Forwarded-For` value; whether it names an IP address
    /// is for the caller to decide.
    pub forwarded_for: String,
}

impl View for HeaderFields {
    type V = HeaderState;

    open spec fn view(&self) -> HeaderState {
        HeaderState {
            host: self.host@,
            content_type: self.content_type,
            content_length: self.content_length as int,
            forwarded_for: self.forwarded_for@,
        }
    }
}

/// Walks the header text line by line and picks out the `Host`,
/// `Content-Type`, `Content-Length` and `X-Forwarded-For` fields.
/// Unrecognized lines are ignored.
#[verifier::rlimit(100)]
pub fn extract_header_fields(header: &str) -> (r: Result<HeaderFields, HTTPError>)
    ensures
        match r {
            Ok(f) => spec_extract_header_fields(header@) == Ok::<HeaderState, HTTPError>(f@),
            Err(e) => spec_extract_header_fields(header@) == Err::<HeaderState, HTTPError>(e),
        },
{
    let n = header.unicode_len();
    let ghost whole = spec_extract_header_fields(header@);
    let mut fields = HeaderFields {
        host: String::new(),
        content_type: ContentType::PlainText,
        content_length: 0,
        forwarded_for: String::new(),
    };
    let mut pos: usize = 0;
    proof {
        assert(header@.skip(0) =~= header@);
        assert(fields@ == spec_header_init());
    }
    loop
        invariant_except_break
            whole == spec_fold_header_lines(fields@, spec_lines(header@.skip(pos as int))),
        invariant
            pos <= n,
            n == header@.len(),
            whole == spec_extract_header_fields(header@),
        ensures
            whole == Ok::<HeaderState, HTTPError>(fields@),
        decreases n - pos,
    {
        if pos == n {
            proof {
                assert(header@.skip(pos as int) =~= Seq::<char>::empty());
            }
            break;
        }
        let ghost rem = header@.skip(pos as int);
        let e = crate::query::scan_to_char_before(header, pos, n, '\n');
        let ghost irel = (e - pos) as int;
        proof {
            assert forall|k: int| 0 <= k < irel implies rem[k] != '\n' by {
                assert(rem[k] == header@[pos + k]);
            }
            if e < n {
                assert(rem[irel] == header@[e as int]);
            }
            lemma_find_from(rem, '\n', 0, irel);
        }
        // the line, with a `\r` stripped when a `\n` terminated it
        let lend: usize = if e < n && e > pos && header.get_char(e - 1) == '\r' {
            e - 1
        } else {
            e
        };
        let line = header.substring_char(pos, lend);
        proof {
            if e < n {
                assert(strip_cr(rem.take(irel)) =~= line@);
                assert(spec_lines(rem) == seq![strip_cr(rem.take(irel))] + spec_lines(
                    rem.skip(irel + 1),
                ));
                assert((seq![strip_cr(rem.take(irel))] + spec_lines(rem.skip(irel + 1))).drop_first()
                    =~= spec_lines(rem.skip(irel + 1)));
            } else {
                assert(rem =~= line@);
                assert(spec_lines(rem) == seq![rem]);
                assert(seq![rem].drop_first() =~= Seq::<Seq<char>>::empty());
            }
            assert(spec_lines(rem)[0] == line@);
        }

        // apply the line to the state
        let nl = line.unicode_len();
        let ghost st0 = fields@;
        if has_prefix_str(line, "Content-Type: ") {
            let np = "Content-Type: ".unicode_len();
            let value = line.substring_char(np, nl);
            proof {
                assert(value@ =~= line@.skip("Content-Type: "@.len() as int));
            }
            match ContentType::from_mime(value) {
                Ok(ct) => {
                    fields.content_type = ct;
                },
                Err(err) => {
                    return Err(err);
                },
            }
        } else if has_prefix_str(line, "Host: ") {
            let np = "Host: ".unicode_len();
            let value = line.substring_char(np, nl);
            proof {
                assert(value@ =~= line@.skip("Host: "@.len() as int));
            }
            fields.host.append(value);
        } else if has_prefix_str(line, "Content-Length: ") {
            let np = "Content-Length: ".unicode_len();
            let value = line.substring_char(np, nl);
            proof {
                assert(value@ =~= line@.skip("Content-Length: "@.len() as int));
            }
            match crate::text::parse_usize(value) {
                Some(len) => {
                    fields.content_length = len;
                },
                None => {
                    return Err(HTTPError::InvalidContentLength);
                },
            }
        } else if has_prefix_str(line, "X-Forwarded-For: ") {
            let np = "X-Forwarded-For: ".unicode_len();
            let value = line.substring_char(np, nl);
            proof {
                assert(value@ =~= line@.skip("X-Forwarded-For: "@.len() as int));
            }
            fields.forwarded_for = value.to_owned();
        }
        proof {
            assert(spec_apply_header_line(st0, line@) == Ok::<HeaderState, HTTPError>(fields@));
        }

        if e == n {
            proof {
                assert(spec_fold_header_lines(fields@, Seq::<Seq<char>>::empty()) == Ok::<
                    HeaderState,
                    HTTPError,
                >(fields@));
            }
            pos = n;
            break;
        }
        proof {
            assert(rem.skip(irel + 1) =~= header@.skip(e + 1 as int));
        }
        pos = e + 1;
    }
    Ok(fields)
}

} // verus!
