//! Request-line parsing.
//!
//! The first line of a request has the shape `METHOD PATH VERSION`.
//! The method must be `GET` or `POST`; the path must start with `/`,
//! has its `%20` escapes decoded to spaces, and must not contain the
//! traversal sequence `../` after decoding; the version token must be
//! present but is not otherwise validated.

use vstd::prelude::*;
use crate::error::HTTPError;

verus! {

/// The two request methods the codec accepts.
#[derive(Clone, Copy, Debug, PartialEq, Eq, Structural)]
pub enum HTTPType {
    Post,
    Get,
}

/// A parsed request line: the method and the decoded path.
#[derive(Debug)]
pub struct HTTPRequestLine {
    pub kind: HTTPType,
    pub path: String,
}

/// Whitespace as the request-line tokenizer understands it: the
/// characters with the Unicode `White_Space` property.
pub open spec fn is_space(c: char) -> bool {
    ||| c == '\u{9}'
    ||| c == '\u{a}'
    ||| c == '\u{b}'
    ||| c == '\u{c}'
    ||| c == '\u{d}'
    ||| c == ' '
    ||| c == '\u{85}'
    ||| c == '\u{a0}'
    ||| c == '\u{1680}'
    ||| c == '\u{2000}'
    ||| c == '\u{2001}'
    ||| c == '\u{2002}'
    ||| c == '\u{2003}'
    ||| c == '\u{2004}'
    ||| c == '\u{2005}'
    ||| c == '\u{2006}'
    ||| c == '\u{2007}'
    ||| c == '\u{2008}'
    ||| c == '\u{2009}'
    ||| c == '\u{200a}'
    ||| c == '\u{2028}'
    ||| c == '\u{2029}'
    ||| c == '\u{202f}'
    ||| c == '\u{205f}'
    ||| c == '\u{3000}'
}

/// The first position at or after `i` holding a non-space character,
/// or the end of the sequence.
pub open spec fn non_space_from(s: Seq<char>, i: int) -> int
    decreases s.len() - i when 0 <= i <= s.len()
{
    if i >= s.len() {
        i
    } else if is_space(s[i]) {
        non_space_from(s, i + 1)
    } else {
        i
    }
}

/// The first position at or after `i` holding a space, or the end.
pub open spec fn space_from(s: Seq<char>, i: int) -> int
    decreases s.len() - i when 0 <= i <= s.len()
{
    if i >= s.len() {
        i
    } else if !is_space(s[i]) {
        space_from(s, i + 1)
    } else {
        i
    }
}

/// `non_space_from` is pinned down by a scan's findings.
pub proof fn lemma_non_space_from(s: Seq<char>, i: int, j: int)
    requires
        0 <= i <= j <= s.len(),
        forall|k: int| i <= k < j ==> is_space(#[trigger] s[k]),
        j == s.len() || !is_space(s[j]),
    ensures
        non_space_from(s, i) == j,
    decreases j - i,
{
    if i < j {
        lemma_non_space_from(s, i + 1, j);
    }
}

/// `space_from` is pinned down by a scan's findings.
pub proof fn lemma_space_from(s: Seq<char>, i: int, j: int)
    requires
        0 <= i <= j <= s.len(),
        forall|k: int| i <= k < j ==> !is_space(#[trigger] s[k]),
        j == s.len() || is_space(s[j]),
    ensures
        space_from(s, i) == j,
    decreases j - i,
{
    if i < j {
        lemma_space_from(s, i + 1, j);
    }
}

/// The path with every `%20` replaced by a space, scanning left to
/// right over non-overlapping occurrences.
pub open spec fn decode_pct20(s: Seq<char>) -> Seq<char>
    decreases s.len(),
{
    if s.len() == 0 {
        s
    } else if s.len() >= 3 && s[0] == '%' && s[1] == '2' && s[2] == '0' {
        seq![' '] + decode_pct20(s.skip(3))
    } else {
        seq![s[0]] + decode_pct20(s.skip(1))
    }
}

/// Decoding keeps a non-empty path non-empty.
pub proof fn lemma_decode_pct20_nonempty(s: Seq<char>)
    requires
        s.len() > 0,
    ensures
        decode_pct20(s).len() > 0,
{
}

/// True when the traversal sequence `../` occurs at position `j`.
pub open spec fn dotdot_slash_at(p: Seq<char>, j: int) -> bool {
    p[j] == '.' && p[j + 1] == '.' && p[j + 2] == '/'
}

/// True when the path contains the traversal sequence `../` anywhere.
pub open spec fn contains_dotdot_slash(p: Seq<char>) -> bool {
    exists|j: int| 0 <= j && j + 3 <= p.len() && #[trigger] dotdot_slash_at(p, j)
}

/// What parsing a request line yields: the method and the decoded path,
/// or the first error the checks hit, in the order the checks run
/// (method, path presence, leading slash, traversal guard, version).
pub open spec fn spec_parse_request_line(s: Seq<char>) -> Result<(HTTPType, Seq<char>), HTTPError> {
    let a0 = non_space_from(s, 0);
    let b0 = space_from(s, a0);
    let m = s.subrange(a0, b0);
    if a0 == s.len() || !(m == "GET"@ || m == "POST"@) {
        Err(HTTPError::InvalidRequestType)
    } else {
        let a1 = non_space_from(s, b0);
        let b1 = space_from(s, a1);
        if a1 == s.len() {
            Err(HTTPError::InvalidPath)
        } else {
            let p = decode_pct20(s.subrange(a1, b1));
            if p[0] != '/' {
                Err(HTTPError::InvalidPath)
            } else if contains_dotdot_slash(p) {
                Err(HTTPError::InvalidPath)
            } else if non_space_from(s, b1) == s.len() {
                Err(HTTPError::InvalidVersion)
            } else {
                Ok((if m == "GET"@ { HTTPType::Get } else { HTTPType::Post }, p))
            }
        }
    }
}

/// True when the character is request-line whitespace.
fn is_space_char(c: char) -> (r: bool)
    ensures
        r == is_space(c),
{
    c == '\u{9}' || c == '\u{a}' || c == '\u{b}' || c == '\u{c}' || c == '\u{d}' || c == ' '
        || c == '\u{85}' || c == '\u{a0}' || c == '\u{1680}' || c == '\u{2000}' || c == '\u{2001}'
        || c == '\u{2002}' || c == '\u{2003}' || c == '\u{2004}' || c == '\u{2005}'
        || c == '\u{2006}' || c == '\u{2007}' || c == '\u{2008}' || c == '\u{2009}'
        || c == '\u{200a}' || c == '\u{2028}' || c == '\u{2029}' || c == '\u{202f}'
        || c == '\u{205f}' || c == '\u{3000}'
}

/// Scans forward from `from` to the first non-space character.
fn scan_non_space(s: &str, from: usize) -> (r: usize)
    requires
        from <= s@.len(),
    ensures
        from <= r <= s@.len(),
        r as int == non_space_from(s@, from as int),
        r < s@.len() ==> !is_space(s@[r as int]),
    decreases s@.len() - from,
{
    let n = s.unicode_len();
    let mut i: usize = from;
    while i < n && is_space_char(s.get_char(i))
        invariant
            from <= i <= n,
            n == s@.len(),
            forall|k: int| from <= k < i ==> is_space(#[trigger] s@[k]),
        decreases n - i,
    {
        i = i + 1;
    }
    proof {
        lemma_non_space_from(s@, from as int, i as int);
    }
    i
}

/// Scans forward from `from` to the first space character.
fn scan_space(s: &str, from: usize) -> (r: usize)
    requires
        from <= s@.len(),
    ensures
        from <= r <= s@.len(),
        r as int == space_from(s@, from as int),
        r < s@.len() ==> is_space(s@[r as int]),
        forall|k: int| from <= k < r ==> !is_space(#[trigger] s@[k]),
    decreases s@.len() - from,
{
    let n = s.unicode_len();
    let mut i: usize = from;
    while i < n && !is_space_char(s.get_char(i))
        invariant
            from <= i <= n,
            n == s@.len(),
            forall|k: int| from <= k < i ==> !is_space(#[trigger] s@[k]),
        decreases n - i,
    {
        i = i + 1;
    }
    proof {
        lemma_space_from(s@, from as int, i as int);
    }
    i
}

impl HTTPRequestLine {
    pub fn get_kind(&self) -> (r: HTTPType)
        ensures
            r == self.kind,
    {
        self.kind
    }

    /// Parses one request line.  The result is exactly what
    /// [`spec_parse_request_line`] says for the input.
    #[verifier::rlimit(60)]
    #[verifier::loop_isolation(false)]
    pub fn from_line(s: &str) -> (r: Result<HTTPRequestLine, HTTPError>)
        ensures
            match r {
                Ok(line) => spec_parse_request_line(s@) == Ok::<(HTTPType, Seq<char>), HTTPError>(
                    (line.kind, line.path@),
                ),
                Err(e) => spec_parse_request_line(s@) == Err::<(HTTPType, Seq<char>), HTTPError>(
                    e,
                ),
            },
    {
        let n = s.unicode_len();
        let a0 = scan_non_space(s, 0);
        let b0 = scan_space(s, a0);
        if a0 == n {
            return Err(HTTPError::InvalidRequestType);
        }
        let m = s.substring_char(a0, b0);
        let is_get = crate::text::str_eq_str(m, "GET");
        let is_post = crate::text::str_eq_str(m, "POST");
        if !(is_get || is_post) {
            return Err(HTTPError::InvalidRequestType);
        }
        let a1 = scan_non_space(s, b0);
        let b1 = scan_space(s, a1);
        if a1 == n {
            return Err(HTTPError::InvalidPath);
        }

        // decode %20 escapes while copying the path token
        let ghost raw = s@.subrange(a1 as int, b1 as int);
        let mut path = String::new();
        let mut i: usize = a1;
        while i < b1
            invariant
                a1 <= i <= b1 <= n,
                n == s@.len(),
                raw == s@.subrange(a1 as int, b1 as int),
                path@ + decode_pct20(s@.subrange(i as int, b1 as int)) == decode_pct20(raw),
            decreases b1 - i,
        {
            let ghost rest = s@.subrange(i as int, b1 as int);
            if b1 - i >= 3 && s.get_char(i) == '%' && s.get_char(i + 1) == '2' && s.get_char(i + 2)
                == '0' {
                path.append(" ");
                proof {
                    reveal_strlit(" ");
                    assert(rest.len() >= 3 && rest[0] == '%' && rest[1] == '2' && rest[2] == '0');
                    assert(rest.skip(3) =~= s@.subrange(i + 3 as int, b1 as int));
                    assert(" "@ =~= seq![' ']);
                    assert(path@ + decode_pct20(s@.subrange(i + 3 as int, b1 as int))
                        =~= decode_pct20(raw));
                }
                i = i + 3;
            } else {
                let piece = s.substring_char(i, i + 1);
                path.append(piece);
                proof {
                    assert(rest[0] == s@[i as int]);
                    assert(!(rest.len() >= 3 && rest[0] == '%' && rest[1] == '2' && rest[2]
                        == '0'));
                    assert(rest.skip(1) =~= s@.subrange(i + 1 as int, b1 as int));
                    assert(piece@ =~= seq![s@[i as int]]);
                    assert(path@ + decode_pct20(s@.subrange(i + 1 as int, b1 as int))
                        =~= decode_pct20(raw));
                }
                i = i + 1;
            }
        }
        proof {
            assert(s@.subrange(b1 as int, b1 as int) =~= Seq::<char>::empty());
            assert(path@ =~= path@ + decode_pct20(s@.subrange(b1 as int, b1 as int)));
            assert(path@ == decode_pct20(raw));
            assert(b1 > a1);
            lemma_decode_pct20_nonempty(raw);
        }

        let first = path.as_str().get_char(0);
        if first != '/' {
            return Err(HTTPError::InvalidPath);
        }

        // the traversal guard runs on the decoded path
        let plen = path.unicode_len();
        if plen >= 3 {
            let mut k: usize = 0;
            while k <= plen - 3
                invariant
                    0 <= k <= plen - 2,
                    plen == path@.len(),
                    plen >= 3,
                    forall|j: int| 0 <= j < k ==> !dotdot_slash_at(path@, j),
                decreases plen - k,
            {
                let ps = path.as_str();
                if ps.get_char(k) == '.' && ps.get_char(k + 1) == '.' && ps.get_char(k + 2)
                    == '/' {
                    proof {
                        assert(dotdot_slash_at(path@, k as int));
                    }
                    return Err(HTTPError::InvalidPath);
                }
                k = k + 1;
            }
        }
        proof {
            assert(!contains_dotdot_slash(path@));
        }

        let a2 = scan_non_space(s, b1);
        if a2 == n {
            return Err(HTTPError::InvalidVersion);
        }

        let kind = if is_get {
            HTTPType::Get
        } else {
            HTTPType::Post
        };
        Ok(HTTPRequestLine { kind, path })
    }
}

impl core::str::FromStr for HTTPRequestLine {
    type Err = HTTPError;

    fn from_str(s: &str) -> Result<HTTPRequestLine, HTTPError> {
        HTTPRequestLine::from_line(s)
    }
}

} // verus!
