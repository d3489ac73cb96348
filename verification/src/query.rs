//! Query-string decoding.
//!
//! The suffix of a path after `?` splits on `&` into declarations; each
//! declaration must split on its first `=` into a key and a value, or
//! the whole decode fails.  The result is a mapping where the last
//! write to a key wins.

use vstd::prelude::*;
use crate::error::HTTPError;
use crate::text::{find_from, lemma_find_from, lemma_find_from_range};

verus! {

/// The declarations of a query string: the segments between `&`
/// separators, empty segments included.
pub open spec fn split_amp(s: Seq<char>) -> Seq<Seq<char>>
    decreases s.len(),
    via split_amp_decreases
{
    let i = find_from(s, '&', 0);
    if i >= s.len() {
        seq![s]
    } else {
        seq![s.take(i)] + split_amp(s.skip(i + 1))
    }
}

#[via_fn]
proof fn split_amp_decreases(s: Seq<char>) {
    lemma_find_from_range(s, '&', 0);
}

/// A declaration split at its first `=`, or `None` when it has none.
pub open spec fn spec_split_decl(d: Seq<char>) -> Option<(Seq<char>, Seq<char>)> {
    let i = find_from(d, '=', 0);
    if i >= d.len() {
        None
    } else {
        Some((d.take(i), d.skip(i + 1)))
    }
}

/// All declarations split into pairs, or `None` as soon as one of them
/// has no `=`.
pub open spec fn spec_query_pairs(decls: Seq<Seq<char>>) -> Option<Seq<(Seq<char>, Seq<char>)>>
    decreases decls.len(),
{
    if decls.len() == 0 {
        Some(Seq::empty())
    } else {
        match spec_split_decl(decls[0]) {
            None => None,
            Some(kv) => match spec_query_pairs(decls.drop_first()) {
                None => None,
                Some(rest) => Some(seq![kv] + rest),
            },
        }
    }
}

/// The mapping a pair sequence denotes: later pairs overwrite earlier
/// ones.
pub open spec fn pairs_map(s: Seq<(Seq<char>, Seq<char>)>) -> Map<Seq<char>, Seq<char>>
    decreases s.len(),
{
    if s.len() == 0 {
        Map::empty()
    } else {
        pairs_map(s.drop_last()).insert(s.last().0, s.last().1)
    }
}

/// The views of a vector of key/value strings.
pub open spec fn query_pairs_view(pairs: Seq<(String, String)>) -> Seq<(Seq<char>, Seq<char>)> {
    pairs.map_values(|p: (String, String)| (p.0@, p.1@))
}

/// The decoded form of a query string: its mapping, or `InvalidPath`.
pub open spec fn spec_process_query(s: Seq<char>) -> Result<Map<Seq<char>, Seq<char>>, HTTPError> {
    match spec_query_pairs(split_amp(s)) {
        None => Err(HTTPError::InvalidPath),
        Some(ps) => Ok(pairs_map(ps)),
    }
}

/// Key/value pairs of a query string, in arrival order; lookups see the
/// last write to a key.
#[derive(Debug)]
pub struct QueryMap {
    pub pairs: Vec<(String, String)>,
}

impl View for QueryMap {
    type V = Map<Seq<char>, Seq<char>>;

    open spec fn view(&self) -> Map<Seq<char>, Seq<char>> {
        pairs_map(query_pairs_view(self.pairs@))
    }
}

/// Keys absent from the tail of a pair sequence do not change the
/// mapping's verdict about them.
proof fn lemma_pairs_map_skip(s: Seq<(Seq<char>, Seq<char>)>, i: int, key: Seq<char>)
    requires
        0 <= i <= s.len(),
        forall|j: int| i <= j < s.len() ==> (#[trigger] s[j]).0 != key,
    ensures
        pairs_map(s).contains_key(key) == pairs_map(s.take(i)).contains_key(key),
        pairs_map(s).contains_key(key) ==> pairs_map(s)[key] == pairs_map(s.take(i))[key],
    decreases s.len() - i,
{
    if i < s.len() {
        let shorter = s.drop_last();
        assert(s.last() == s[s.len() - 1]);
        assert(shorter.take(i) =~= s.take(i));
        lemma_pairs_map_skip(shorter, i, key);
    } else {
        assert(s.take(i) =~= s);
    }
}

impl QueryMap {
    /// An empty mapping.
    pub fn new() -> (r: QueryMap)
        ensures
            r@ == Map::<Seq<char>, Seq<char>>::empty(),
            r.pairs@.len() == 0,
    {
        QueryMap { pairs: Vec::new() }
    }

    /// Looks a key up; the value of its last declaration, if any.
    pub fn get(&self, key: &str) -> (r: Option<&String>)
        ensures
            match r {
                Some(v) => self@.contains_key(key@) && self@[key@] == v@,
                None => !self@.contains_key(key@),
            },
    {
        let ghost ps = query_pairs_view(self.pairs@);
        let n = self.pairs.len();
        let mut i: usize = n;
        while i > 0
            invariant
                i <= n,
                n == self.pairs@.len(),
                ps == query_pairs_view(self.pairs@),
                forall|j: int| i <= j < n ==> (#[trigger] ps[j]).0 != key@,
            decreases i,
        {
            i = i - 1;
            if crate::text::str_eq_str(self.pairs[i].0.as_str(), key) {
                proof {
                    assert(ps[i as int].0 == key@);
                    let upto = ps.take(i + 1);
                    assert(upto.last() == ps[i as int]);
                    assert(upto.drop_last() =~= ps.take(i as int));
                    lemma_pairs_map_skip(ps, i + 1, key@);
                }
                return Some(&self.pairs[i].1);
            }
        }
        proof {
            lemma_pairs_map_skip(ps, 0, key@);
            assert(ps.take(0) =~= Seq::<(Seq<char>, Seq<char>)>::empty());
        }
        None
    }
}

/// Scans for `target` in `[from, end)` of `s`; gives `end` when absent.
pub fn scan_to_char_before(s: &str, from: usize, end: usize, target: char) -> (r: usize)
    requires
        from <= end <= s@.len(),
    ensures
        from <= r <= end,
        forall|k: int| from <= k < r ==> s@[k] != target,
        r < end ==> s@[r as int] == target,
    decreases end - from,
{
    let mut i: usize = from;
    while i < end && s.get_char(i) != target
        invariant
            from <= i <= end,
            end <= s@.len(),
            forall|k: int| from <= k < i ==> s@[k] != target,
        decreases end - i,
    {
        i = i + 1;
    }
    i
}

/// Decodes a query string into its mapping.  Fails with `InvalidPath`
/// as soon as a declaration carries no `=`; later declarations of the
/// same key overwrite earlier ones.
#[verifier::rlimit(60)]
pub fn process_query_string(queries: &str) -> (r: Result<QueryMap, HTTPError>)
    ensures
        match r {
            Ok(q) => spec_query_pairs(split_amp(queries@)) == Some(query_pairs_view(q.pairs@)),
            Err(e) => spec_query_pairs(split_amp(queries@)) is None && e == HTTPError::InvalidPath,
        },
{
    let n = queries.unicode_len();
    let ghost whole = spec_query_pairs(split_amp(queries@));
    let mut pairs: Vec<(String, String)> = Vec::new();
    let mut start: usize = 0;
    proof {
        assert(queries@.skip(0) =~= queries@);
    }
    loop
        invariant_except_break
            spec_query_pairs(split_amp(queries@.skip(start as int))) is None ==> whole is None,
            spec_query_pairs(split_amp(queries@.skip(start as int))) matches Some(rest) ==> whole
                == Some(query_pairs_view(pairs@) + rest),
        invariant
            start <= n,
            n == queries@.len(),
            whole == spec_query_pairs(split_amp(queries@)),
        ensures
            whole == Some(query_pairs_view(pairs@)),
        decreases n - start,
    {
        let ghost rem = queries@.skip(start as int);
        let e = scan_to_char_before(queries, start, n, '&');
        let eq = scan_to_char_before(queries, start, e, '=');
        let ghost decl = queries@.subrange(start as int, e as int);
        proof {
            // the scan pins the split points inside the remaining text
            assert forall|k: int| 0 <= k < e - start implies rem[k] != '&' by {
                assert(rem[k] == queries@[start + k]);
            }
            if e < n {
                assert(rem[e - start] == queries@[e as int]);
            }
            lemma_find_from(rem, '&', 0, e - start);
            assert(rem.take(e - start) =~= decl);
            assert forall|k: int| 0 <= k < eq - start implies decl[k] != '=' by {
                assert(decl[k] == queries@[start + k]);
            }
            if eq < e {
                assert(decl[eq - start] == queries@[eq as int]);
            }
            lemma_find_from(decl, '=', 0, eq - start);
            if e < n {
                assert(split_amp(rem) == seq![decl] + split_amp(rem.skip(e - start + 1)));
                assert((seq![decl] + split_amp(rem.skip(e - start + 1))).drop_first()
                    =~= split_amp(rem.skip(e - start + 1)));
            } else {
                assert(rem =~= decl);
                assert(split_amp(rem) == seq![decl]);
                assert(seq![decl].drop_first() =~= Seq::<Seq<char>>::empty());
            }
            assert(split_amp(rem)[0] == decl);
        }
        if eq == e {
            // this declaration has no `=`
            proof {
                assert(spec_split_decl(decl) is None);
                assert(spec_query_pairs(split_amp(rem)) is None);
            }
            return Err(HTTPError::InvalidPath);
        }
        let key = queries.substring_char(start, eq).to_owned();
        let value = queries.substring_char(eq + 1, e).to_owned();
        let ghost kv = (key@, value@);
        proof {
            assert(decl.take(eq - start) =~= key@);
            assert(decl.skip(eq - start + 1) =~= value@);
            assert(spec_split_decl(decl) == Some(kv));
        }
        let ghost p0 = pairs@;
        pairs.push((key, value));
        proof {
            assert(pairs@.drop_last() =~= p0);
            assert(query_pairs_view(pairs@) =~= query_pairs_view(p0).push(kv));
            assert(query_pairs_view(p0) + seq![kv] =~= query_pairs_view(pairs@));
        }
        if e == n {
            proof {
                assert(spec_query_pairs(Seq::<Seq<char>>::empty()) == Some(
                    Seq::<(Seq<char>, Seq<char>)>::empty(),
                ));
                assert(seq![kv] + Seq::<(Seq<char>, Seq<char>)>::empty() =~= seq![kv]);
                assert(spec_query_pairs(split_amp(rem)) == Some(seq![kv]));
            }
            break;
        }
        proof {
            let ghost rem2 = queries@.skip(e + 1 as int);
            assert(rem.skip(e - start + 1) =~= rem2);
            match spec_query_pairs(split_amp(rem2)) {
                Some(rest2) => {
                    assert(spec_query_pairs(split_amp(rem)) == Some(seq![kv] + rest2));
                    assert(query_pairs_view(p0) + (seq![kv] + rest2) =~= query_pairs_view(pairs@)
                        + rest2);
                },
                None => {},
            }
        }
        start = e + 1;
    }
    Ok(QueryMap { pairs })
}

} // verus!
