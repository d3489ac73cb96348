//! Byte- and character-level helpers shared by the codec.
//!
//! The parsers in this crate work on bytes or on `Seq<char>` views; this
//! module holds the glue between the two: the one trusted conversion from
//! bytes to `String`, helpers for ASCII byte sequences, and the decimal
//! digit routines used for `Content-Length` values and date fields.

use vstd::prelude::*;
use vstd::utf8::{valid_utf8, decode_utf8, encode_utf8, is_ascii_chars};

verus! {

/// A byte sequence viewed as characters, one character per byte.
/// Meaningful for ASCII data, where UTF-8 decoding is exactly this map.
pub open spec fn ascii_view(bytes: Seq<u8>) -> Seq<char> {
    bytes.map_values(|b: u8| b as char)
}

/// True when every byte is an ASCII code point.
pub open spec fn is_ascii_bytes(bytes: Seq<u8>) -> bool {
    forall|i: int| 0 <= i < bytes.len() ==> bytes[i] < 128
}

/// An ASCII byte sequence is valid UTF-8 and decodes byte-for-byte.
pub proof fn lemma_ascii_bytes_decode(bytes: Seq<u8>)
    requires
        is_ascii_bytes(bytes),
    ensures
        valid_utf8(bytes),
        decode_utf8(bytes) == ascii_view(bytes),
        is_ascii_chars(ascii_view(bytes)),
        ascii_view(bytes).len() == bytes.len(),
{
    let chars = ascii_view(bytes);
    assert forall|i: int| 0 <= i < chars.len() implies '\0' <= #[trigger] chars[i] <= '\u{7f}' by {
        assert(bytes[i] < 128);
        assert(chars[i] == bytes[i] as char);
    }
    assert(is_ascii_chars(chars));
    vstd::utf8::is_ascii_chars_encode_utf8(chars);
    assert(encode_utf8(chars) =~= bytes);
    vstd::utf8::encode_utf8_valid_utf8(chars);
    vstd::utf8::encode_utf8_decode_utf8(chars);
}

/// Relies on `String::from_utf8`: its documentation says it returns `Ok`
/// exactly when the bytes are valid UTF-8, and then the string consists
/// of the decoded characters.
#[verifier::external_body]
pub(crate) fn bytes_to_string_checked(v: Vec<u8>) -> (r: Option<String>)
    ensures
        r is Some <==> valid_utf8(v@),
        r matches Some(s) ==> s@ == decode_utf8(v@),
{
    String::from_utf8(v).ok()
}

/// Turns a vector of ASCII bytes into the string with those characters.
pub fn ascii_bytes_to_string(v: Vec<u8>) -> (r: String)
    requires
        is_ascii_bytes(v@),
    ensures
        r@ == ascii_view(v@),
{
    let ghost gv = v@;
    proof {
        lemma_ascii_bytes_decode(gv);
    }
    match bytes_to_string_checked(v) {
        Some(s) => s,
        None => vstd::pervasive::unreached(),
    }
}

/// Appends the bytes of `s` to `v`.
pub fn push_bytes(v: &mut Vec<u8>, s: &[u8])
    ensures
        final(v)@ == old(v)@ + s@,
{
    let mut i: usize = 0;
    while i < s.len()
        invariant
            i <= s@.len(),
            v@ == old(v)@ + s@.subrange(0, i as int),
        decreases s@.len() - i,
    {
        v.push(s[i]);
        assert(v@ =~= old(v)@ + s@.subrange(0, i + 1 as int));
        i = i + 1;
    }
    assert(v@ =~= old(v)@ + s@);
}

/// The ASCII byte of a decimal digit.
pub open spec fn digit_byte(d: int) -> u8 {
    (48 + d) as u8
}

/// The decimal representation of `n`, as ASCII bytes, no leading zeros
/// (a single `0` for zero).
pub open spec fn spec_dec_bytes(n: nat) -> Seq<u8>
    decreases n,
{
    if n < 10 {
        seq![digit_byte(n as int)]
    } else {
        spec_dec_bytes(n / 10).push(digit_byte((n % 10) as int))
    }
}

/// The same representation as characters.
pub open spec fn spec_dec_chars(n: nat) -> Seq<char> {
    ascii_view(spec_dec_bytes(n))
}

/// Every byte of a decimal representation is an ASCII digit.
pub proof fn lemma_dec_bytes_ascii(n: nat)
    ensures
        is_ascii_bytes(spec_dec_bytes(n)),
        spec_dec_bytes(n).len() >= 1,
        forall|i: int| 0 <= i < spec_dec_bytes(n).len()
            ==> 48 <= #[trigger] spec_dec_bytes(n)[i] <= 57,
    decreases n,
{
    if n >= 10 {
        lemma_dec_bytes_ascii(n / 10);
    }
}

/// Appends the decimal representation of `n` to `v`.
pub fn push_dec_bytes(v: &mut Vec<u8>, n: u64)
    ensures
        final(v)@ == old(v)@ + spec_dec_bytes(n as nat),
    decreases n,
{
    if n >= 10 {
        push_dec_bytes(v, n / 10);
    }
    v.push(48 + (n % 10) as u8);
    assert(final(v)@ =~= old(v)@ + spec_dec_bytes(n as nat));
}

/// The decimal representation of `n` as a `String`.
pub fn u64_to_dec_string(n: u64) -> (r: String)
    ensures
        r@ == spec_dec_chars(n as nat),
{
    let mut v: Vec<u8> = Vec::new();
    push_dec_bytes(&mut v, n);
    proof {
        lemma_dec_bytes_ascii(n as nat);
        assert(v@ =~= spec_dec_bytes(n as nat));
    }
    ascii_bytes_to_string(v)
}

/// True of a character sequence consisting only of decimal digits,
/// at least one.
pub open spec fn is_dec_string(s: Seq<char>) -> bool {
    s.len() > 0 && forall|i: int| 0 <= i < s.len() ==> '0' <= #[trigger] s[i] <= '9'
}

/// The numeric value of a digit string, most significant digit first.
pub open spec fn spec_dec_val(s: Seq<char>) -> int
    decreases s.len(),
{
    if s.len() == 0 {
        0
    } else {
        spec_dec_val(s.drop_last()) * 10 + (s.last() as int - 48)
    }
}

/// The value of a digit string is non-negative.
pub proof fn lemma_dec_val_nonneg(s: Seq<char>)
    requires
        forall|i: int| 0 <= i < s.len() ==> '0' <= #[trigger] s[i] <= '9',
    ensures
        spec_dec_val(s) >= 0,
    decreases s.len(),
{
    if s.len() > 0 {
        lemma_dec_val_nonneg(s.drop_last());
    }
}

/// A digit string is worth at least as much as any of its prefixes.
pub proof fn lemma_dec_val_prefix(s: Seq<char>, i: int)
    requires
        forall|k: int| 0 <= k < s.len() ==> '0' <= #[trigger] s[k] <= '9',
        0 <= i <= s.len(),
    ensures
        spec_dec_val(s.subrange(0, i)) <= spec_dec_val(s),
    decreases s.len() - i,
{
    if i < s.len() {
        let t = s.subrange(0, i + 1);
        assert(t.drop_last() =~= s.subrange(0, i));
        lemma_dec_val_nonneg(s.subrange(0, i));
        assert(spec_dec_val(s.subrange(0, i)) <= spec_dec_val(t));
        lemma_dec_val_prefix(s, i + 1);
        assert(s.subrange(0, s.len() as int) =~= s);
    } else {
        assert(s.subrange(0, i) =~= s);
    }
}

/// Parses a string of decimal digits as a `usize`.  Returns `Ok` exactly
/// when the string is non-empty, all digits, and its value fits.
pub fn parse_usize(s: &str) -> (r: Option<usize>)
    ensures
        r matches Some(n) ==> is_dec_string(s@) && n == spec_dec_val(s@),
        r is None ==> !(is_dec_string(s@) && spec_dec_val(s@) <= usize::MAX),
{
    let n = s.unicode_len();
    if n == 0 {
        return None;
    }
    let mut val: usize = 0;
    let mut i: usize = 0;
    while i < n
        invariant
            n == s@.len(),
            0 <= i <= n,
            forall|k: int| 0 <= k < i ==> '0' <= #[trigger] s@[k] <= '9',
            val == spec_dec_val(s@.subrange(0, i as int)),
        decreases n - i,
    {
        let c = s.get_char(i);
        if c < '0' || c > '9' {
            return None;
        }
        let d: usize = (c as u8 - 48) as usize;
        proof {
            lemma_dec_val_nonneg(s@.subrange(0, i as int));
        }
        if val > (usize::MAX - d) / 10 {
            // the value no longer fits; it can only grow from here
            proof {
                let t = s@.subrange(0, i + 1 as int);
                assert(t.drop_last() =~= s@.subrange(0, i as int));
                assert(spec_dec_val(t) > usize::MAX) by {
                    assert(val * 10 + d > usize::MAX) by (nonlinear_arith)
                        requires
                            val > (usize::MAX - d) / 10,
                            val >= 0,
                            0 <= d < 10,
                    ;
                }
                if is_dec_string(s@) {
                    lemma_dec_val_prefix(s@, i + 1);
                }
            }
            return None;
        }
        proof {
            let t = s@.subrange(0, i + 1 as int);
            assert(t.drop_last() =~= s@.subrange(0, i as int));
        }
        val = val * 10 + d;
        i = i + 1;
    }
    proof {
        assert(s@.subrange(0, n as int) =~= s@);
    }
    Some(val)
}

/// UTF-8 encoding distributes over concatenation.
pub proof fn lemma_encode_utf8_concat(a: Seq<char>, b: Seq<char>)
    ensures
        encode_utf8(a + b) == encode_utf8(a) + encode_utf8(b),
    decreases a.len(),
{
    if a.len() == 0 {
        assert(a + b =~= b);
        assert(encode_utf8(a) =~= Seq::<u8>::empty());
        assert(encode_utf8(a) + encode_utf8(b) =~= encode_utf8(b));
    } else {
        let ab = a + b;
        assert(ab[0] == a[0]);
        assert(ab.drop_first() =~= a.drop_first() + b);
        lemma_encode_utf8_concat(a.drop_first(), b);
        assert(encode_utf8(ab) == vstd::utf8::encode_scalar(ab[0] as u32) + encode_utf8(
            ab.drop_first(),
        ));
        assert(vstd::utf8::encode_scalar(a[0] as u32) + (encode_utf8(a.drop_first()) + encode_utf8(
            b,
        )) =~= (vstd::utf8::encode_scalar(a[0] as u32) + encode_utf8(a.drop_first())) + encode_utf8(
            b,
        ));
    }
}

/// The first position at or after `i` holding `c`, or the end.
pub open spec fn find_from(s: Seq<char>, c: char, i: int) -> int
    decreases s.len() - i when 0 <= i <= s.len()
{
    if i >= s.len() {
        i
    } else if s[i] == c {
        i
    } else {
        find_from(s, c, i + 1)
    }
}

/// `find_from` is pinned down by a scan's findings.
pub proof fn lemma_find_from(s: Seq<char>, c: char, i: int, j: int)
    requires
        0 <= i <= j <= s.len(),
        forall|k: int| i <= k < j ==> s[k] != c,
        j == s.len() || s[j] == c,
    ensures
        find_from(s, c, i) == j,
    decreases j - i,
{
    if i < j {
        lemma_find_from(s, c, i + 1, j);
    }
}

/// `find_from` stays within the sequence.
pub proof fn lemma_find_from_range(s: Seq<char>, c: char, i: int)
    requires
        0 <= i <= s.len(),
    ensures
        i <= find_from(s, c, i) <= s.len(),
    decreases s.len() - i,
{
    if i < s.len() && s[i] != c {
        lemma_find_from_range(s, c, i + 1);
    }
}

/// True when `p` is a prefix of `l`.
pub open spec fn spec_has_prefix(l: Seq<char>, p: Seq<char>) -> bool {
    p.len() <= l.len() && l.take(p.len() as int) == p
}

/// Compares the start of `l` against `p`.
pub fn has_prefix_str(l: &str, p: &str) -> (r: bool)
    ensures
        r == spec_has_prefix(l@, p@),
{
    let np = p.unicode_len();
    let nl = l.unicode_len();
    if nl < np {
        proof {
            assert(!spec_has_prefix(l@, p@));
        }
        return false;
    }
    let mut i: usize = 0;
    while i < np
        invariant
            0 <= i <= np <= nl,
            np == p@.len(),
            nl == l@.len(),
            forall|k: int| 0 <= k < i ==> l@[k] == p@[k],
        decreases np - i,
    {
        if l.get_char(i) != p.get_char(i) {
            proof {
                assert(l@.take(np as int)[i as int] != p@[i as int]);
            }
            return false;
        }
        i = i + 1;
    }
    proof {
        assert(l@.take(np as int) =~= p@);
    }
    true
}

/// True when `a` and `b` are the same character sequence.
pub fn str_eq_str(a: &str, b: &str) -> (r: bool)
    ensures
        r == (a@ == b@),
{
    let na = a.unicode_len();
    let nb = b.unicode_len();
    if na != nb {
        return false;
    }
    let mut i: usize = 0;
    while i < na
        invariant
            na == a@.len(),
            na == b@.len(),
            0 <= i <= na,
            forall|k: int| 0 <= k < i ==> a@[k] == b@[k],
        decreases na - i,
    {
        if a.get_char(i) != b.get_char(i) {
            return false;
        }
        i = i + 1;
    }
    proof {
        assert(a@ =~= b@);
    }
    true
}

} // verus!
